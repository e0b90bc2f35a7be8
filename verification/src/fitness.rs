//! Architectural fitness functions: named, total rules over the module set.
//!
//! Each rule filters modules by a declared pattern and re-runs one heuristic
//! over every match, reporting the offenders. An unknown rule name is "not
//! found", distinct from a rule that runs and fails.

use vstd::prelude::*;

use crate::check::tree_view;
use crate::heuristics::module_evidence;
use crate::promote::module_sources_view;
use crate::text::{chars_eq_str, dec_of, push_dec, str_to_chars};
use crate::types::{DocV, ModuleDoc, docs_view};

verus! {

/// Result of running a fitness function across modules.
#[derive(Debug)]
pub struct FitnessResult {
    pub passed: bool,
    pub checked: usize,
    pub failures: Vec<FitnessFailure>,
}

/// A single module that failed a fitness check.
#[derive(Debug)]
pub struct FitnessFailure {
    pub mod_path: String,
    pub source_file: String,
    pub reason: String,
}

/// Mathematical model of a `FitnessFailure`.
#[verifier::ext_equal]
pub ghost struct FitnessFailureV {
    pub mod_path: Seq<char>,
    pub source_file: Seq<char>,
    pub reason: Seq<char>,
}

impl View for FitnessFailure {
    type V = FitnessFailureV;

    open spec fn view(&self) -> FitnessFailureV {
        FitnessFailureV {
            mod_path: self.mod_path@,
            source_file: self.source_file@,
            reason: self.reason@,
        }
    }
}

/// How many of the first `n` modules declare the pattern.
pub open spec fn checked_count(docs: Seq<DocV>, pattern: Seq<char>, n: int) -> nat
    decreases n,
{
    if n <= 0 {
        0
    } else {
        checked_count(docs, pattern, n - 1) + if n <= docs.len() && docs[n - 1].pattern
            == pattern {
            1nat
        } else {
            0nat
        }
    }
}

/// The failures of the first `n` modules: declared matches without evidence.
pub open spec fn failures_of(
    docs: Seq<DocV>,
    sources: Seq<Seq<(Seq<char>, Seq<char>)>>,
    pattern: Seq<char>,
    reason: Seq<char>,
    n: int,
) -> Seq<FitnessFailureV>
    decreases n,
{
    if n <= 0 || docs.len() != sources.len() {
        Seq::empty()
    } else {
        failures_of(docs, sources, pattern, reason, n - 1) + if n <= docs.len() && docs[n
            - 1].pattern == pattern && !module_evidence(pattern, sources[n - 1]) {
            seq![
                FitnessFailureV {
                    mod_path: docs[n - 1].mod_path,
                    source_file: docs[n - 1].source_file,
                    reason: reason,
                },
            ]
        } else {
            Seq::empty()
        }
    }
}

/// What a fitness run promises: counts and failures over the whole set.
pub open spec fn fitness_post(
    docs: Seq<DocV>,
    sources: Seq<Seq<(Seq<char>, Seq<char>)>>,
    pattern: Seq<char>,
    reason: Seq<char>,
    r: FitnessResult,
) -> bool {
    let n = docs.len() as int;
    &&& r.checked == checked_count(docs, pattern, n)
    &&& r.failures@.map_values(|f: FitnessFailure| f@) == failures_of(
        docs,
        sources,
        pattern,
        reason,
        n,
    )
    &&& r.passed == (failures_of(docs, sources, pattern, reason, n).len() == 0)
}

/// A checked count never exceeds the number of modules.
proof fn lemma_checked_le(docs: Seq<DocV>, pattern: Seq<char>, n: int)
    requires
        n <= docs.len(),
    ensures
        checked_count(docs, pattern, n) <= (if n >= 0 {
            n
        } else {
            0
        }),
    decreases n,
{
    if n > 0 {
        lemma_checked_le(docs, pattern, n - 1);
    }
}

/// Check all modules declaring `pattern` against its heuristic.
#[verifier::loop_isolation(false)]
#[verifier::rlimit(100)]
fn check_modules_for_pattern_impl(
    docs: &Vec<ModuleDoc>,
    module_sources: &Vec<Vec<(String, String)>>,
    pattern: &str,
    failure_reason: &str,
) -> (r: FitnessResult)
    requires
        docs@.len() == module_sources@.len(),
    ensures
        fitness_post(
            docs_view(docs@),
            module_sources_view(module_sources@),
            pattern@,
            failure_reason@,
            r,
        ),
{
    let ghost dv = docs_view(docs@);
    let ghost msv = module_sources_view(module_sources@);
    let mut checked: usize = 0;
    let mut failures: Vec<FitnessFailure> = Vec::new();
    let mut i: usize = 0;
    proof {
        assert(failures@.map_values(|f: FitnessFailure| f@) =~= Seq::<FitnessFailureV>::empty());
    }
    while i < docs.len()
        invariant
            i <= docs@.len(),
            checked == checked_count(dv, pattern@, i as int),
            checked <= i,
            failures@.map_values(|f: FitnessFailure| f@) == failures_of(
                dv,
                msv,
                pattern@,
                failure_reason@,
                i as int,
            ),
        decreases docs@.len() - i,
    {
        proof {
            assert(dv[i as int] == docs@[i as int]@);
            assert(msv[i as int] == tree_view(module_sources@[i as int]@));
        }
        let d = &docs[i];
        let pc = str_to_chars(d.pattern.as_str());
        if chars_eq_str(pc.as_slice(), pattern) {
            checked = checked + 1;
            if !crate::heuristics::check_module_pattern(pattern, &module_sources[i]) {
                let entry = FitnessFailure {
                    mod_path: d.mod_path.clone(),
                    source_file: d.source_file.clone(),
                    reason: String::from_str(failure_reason),
                };
                let ghost fprev = failures@;
                failures.push(entry);
                proof {
                    assert(failures@.map_values(|f: FitnessFailure| f@) =~= fprev.map_values(
                        |f: FitnessFailure| f@,
                    ).push(
                        FitnessFailureV {
                            mod_path: dv[i as int].mod_path,
                            source_file: dv[i as int].source_file,
                            reason: failure_reason@,
                        },
                    )) by {
                        assert(failures@ =~= fprev.push(entry));
                    }
                    assert(failures@.map_values(|f: FitnessFailure| f@) =~= failures_of(
                        dv,
                        msv,
                        pattern@,
                        failure_reason@,
                        i + 1,
                    ));
                }
            } else {
                proof {
                    assert(failures@.map_values(|f: FitnessFailure| f@) =~= failures_of(
                        dv,
                        msv,
                        pattern@,
                        failure_reason@,
                        i + 1,
                    ));
                }
            }
        } else {
            proof {
                assert(failures@.map_values(|f: FitnessFailure| f@) =~= failures_of(
                    dv,
                    msv,
                    pattern@,
                    failure_reason@,
                    i + 1,
                ));
            }
        }
        i = i + 1;
    }
    let passed = failures.len() == 0;
    proof {
        assert(failures@.map_values(|f: FitnessFailure| f@).len() == failures@.len());
    }
    FitnessResult { passed, checked, failures }
}

/// All modules declaring `Strategy` must define at least one trait.
pub fn all_strategy_modules_define_a_trait(
    docs: &Vec<ModuleDoc>,
    module_sources: &Vec<Vec<(String, String)>>,
) -> (r: FitnessResult)
    requires
        docs@.len() == module_sources@.len(),
    ensures
        fitness_post(
            docs_view(docs@),
            module_sources_view(module_sources@),
            "Strategy"@,
            "no trait definition found"@,
            r,
        ),
{
    check_modules_for_pattern_impl(docs, module_sources, "Strategy", "no trait definition found")
}

/// All modules declaring `Facade` must re-export sub-modules.
pub fn all_facade_modules_reexport_submodules(
    docs: &Vec<ModuleDoc>,
    module_sources: &Vec<Vec<(String, String)>>,
) -> (r: FitnessResult)
    requires
        docs@.len() == module_sources@.len(),
    ensures
        fitness_post(
            docs_view(docs@),
            module_sources_view(module_sources@),
            "Facade"@,
            "no pub use re-exports or pub mod declarations found"@,
            r,
        ),
{
    check_modules_for_pattern_impl(
        docs,
        module_sources,
        "Facade",
        "no pub use re-exports or pub mod declarations found",
    )
}

/// All modules declaring `Observer` must have channels or callbacks.
pub fn all_observer_modules_have_channels_or_callbacks(
    docs: &Vec<ModuleDoc>,
    module_sources: &Vec<Vec<(String, String)>>,
) -> (r: FitnessResult)
    requires
        docs@.len() == module_sources@.len(),
    ensures
        fitness_post(
            docs_view(docs@),
            module_sources_view(module_sources@),
            "Observer"@,
            "no channel types or callback parameters found"@,
            r,
        ),
{
    check_modules_for_pattern_impl(
        docs,
        module_sources,
        "Observer",
        "no channel types or callback parameters found",
    )
}

/// Run a fitness function by name; an unknown name is "not found".
pub fn run_fitness(
    name: &str,
    docs: &Vec<ModuleDoc>,
    module_sources: &Vec<Vec<(String, String)>>,
) -> (r: Option<FitnessResult>)
    requires
        docs@.len() == module_sources@.len(),
    ensures
        name@ == "all_strategy_modules_define_a_trait"@ ==> r is Some && fitness_post(
            docs_view(docs@),
            module_sources_view(module_sources@),
            "Strategy"@,
            "no trait definition found"@,
            r->0,
        ),
        name@ == "all_facade_modules_reexport_submodules"@ ==> r is Some && fitness_post(
            docs_view(docs@),
            module_sources_view(module_sources@),
            "Facade"@,
            "no pub use re-exports or pub mod declarations found"@,
            r->0,
        ),
        name@ == "all_observer_modules_have_channels_or_callbacks"@ ==> r is Some && fitness_post(
            docs_view(docs@),
            module_sources_view(module_sources@),
            "Observer"@,
            "no channel types or callback parameters found"@,
            r->0,
        ),
        name@ != "all_strategy_modules_define_a_trait"@ && name@
            != "all_facade_modules_reexport_submodules"@ && name@
            != "all_observer_modules_have_channels_or_callbacks"@ ==> r is None,
{
    proof {
        reveal_strlit("all_strategy_modules_define_a_trait");
        reveal_strlit("all_facade_modules_reexport_submodules");
        reveal_strlit("all_observer_modules_have_channels_or_callbacks");
        assert("all_strategy_modules_define_a_trait"@.len()
            != "all_facade_modules_reexport_submodules"@.len());
        assert("all_strategy_modules_define_a_trait"@.len()
            != "all_observer_modules_have_channels_or_callbacks"@.len());
        assert("all_facade_modules_reexport_submodules"@.len()
            != "all_observer_modules_have_channels_or_callbacks"@.len());
    }
    let nc = str_to_chars(name);
    if chars_eq_str(nc.as_slice(), "all_strategy_modules_define_a_trait") {
        Some(all_strategy_modules_define_a_trait(docs, module_sources))
    } else if chars_eq_str(nc.as_slice(), "all_facade_modules_reexport_submodules") {
        Some(all_facade_modules_reexport_submodules(docs, module_sources))
    } else if chars_eq_str(nc.as_slice(), "all_observer_modules_have_channels_or_callbacks") {
        Some(all_observer_modules_have_channels_or_callbacks(docs, module_sources))
    } else {
        None
    }
}

/// Fitness reporting names its offenders: a module that declares the
/// pattern but shows no evidence always stands in the failure list, under
/// its own module path.
pub proof fn lemma_fitness_names_offender(
    docs: Seq<DocV>,
    sources: Seq<Seq<(Seq<char>, Seq<char>)>>,
    pattern: Seq<char>,
    reason: Seq<char>,
    i: int,
)
    requires
        docs.len() == sources.len(),
        0 <= i < docs.len(),
        docs[i].pattern == pattern,
        !module_evidence(pattern, sources[i]),
    ensures
        exists|k: int|
            0 <= k < failures_of(docs, sources, pattern, reason, docs.len() as int).len() && (
            #[trigger] failures_of(docs, sources, pattern, reason, docs.len() as int)[k]).mod_path
                == docs[i].mod_path,
{
    lemma_offender_in_prefix(docs, sources, pattern, reason, i, docs.len() as int);
}

proof fn lemma_offender_in_prefix(
    docs: Seq<DocV>,
    sources: Seq<Seq<(Seq<char>, Seq<char>)>>,
    pattern: Seq<char>,
    reason: Seq<char>,
    i: int,
    n: int,
)
    requires
        docs.len() == sources.len(),
        0 <= i < n <= docs.len(),
        docs[i].pattern == pattern,
        !module_evidence(pattern, sources[i]),
    ensures
        exists|k: int|
            0 <= k < failures_of(docs, sources, pattern, reason, n).len() && (
            #[trigger] failures_of(docs, sources, pattern, reason, n)[k]).mod_path
                == docs[i].mod_path,
    decreases n,
{
    let fs = failures_of(docs, sources, pattern, reason, n);
    if i == n - 1 {
        assert(fs[fs.len() - 1].mod_path == docs[i].mod_path);
    } else {
        lemma_offender_in_prefix(docs, sources, pattern, reason, i, n - 1);
        let prev = failures_of(docs, sources, pattern, reason, n - 1);
        let k = choose|k: int|
            0 <= k < prev.len() && (#[trigger] prev[k]).mod_path == docs[i].mod_path;
        assert(fs[k].mod_path == docs[i].mod_path);
    }
}

/// One rendered line per failure.
pub open spec fn failure_lines(fs: Seq<FitnessFailureV>) -> Seq<char>
    decreases fs.len(),
{
    if fs.len() == 0 {
        Seq::empty()
    } else {
        failure_lines(fs.drop_last()) + "  "@ + fs.last().mod_path + " ("@ + fs.last().source_file
            + "): "@ + fs.last().reason + "\n"@
    }
}

/// The rendered fitness result.
pub open spec fn fitness_text(name: Seq<char>, r: FitnessResult) -> Seq<char> {
    if r.passed {
        "PASS: "@ + name + " \u{2014} checked "@ + dec_of(r.checked as nat) + " module(s)\n"@
    } else {
        "FAIL: "@ + name + " \u{2014} "@ + dec_of(r.failures@.len()) + "/"@ + dec_of(
            r.checked as nat,
        ) + " module(s) failed\n"@ + failure_lines(r.failures@.map_values(|f: FitnessFailure| f@))
    }
}

/// Format a fitness result as human-readable text.
#[verifier::loop_isolation(false)]
#[verifier::rlimit(100)]
pub fn format_fitness_result(name: &str, result: &FitnessResult) -> (r: String)
    ensures
        r@ == fitness_text(name@, *result),
{
    let mut out = String::new();
    if result.passed {
        out.append("PASS: ");
        out.append(name);
        out.append(" \u{2014} checked ");
        push_dec(&mut out, result.checked);
        out.append(" module(s)\n");
        proof {
            assert(out@ =~= fitness_text(name@, *result));
        }
        out
    } else {
        out.append("FAIL: ");
        out.append(name);
        out.append(" \u{2014} ");
        push_dec(&mut out, result.failures.len());
        out.append("/");
        push_dec(&mut out, result.checked);
        out.append(" module(s) failed\n");
        let ghost base = out@;
        let ghost fv = result.failures@.map_values(|f: FitnessFailure| f@);
        let mut i: usize = 0;
        proof {
            assert(fv.subrange(0, 0) =~= Seq::<FitnessFailureV>::empty());
            assert(out@ =~= base + failure_lines(fv.subrange(0, 0)));
        }
        while i < result.failures.len()
            invariant
                i <= result.failures@.len(),
                out@ == base + failure_lines(fv.subrange(0, i as int)),
            decreases result.failures@.len() - i,
        {
            proof {
                assert(fv[i as int] == result.failures@[i as int]@);
                assert(fv.subrange(0, i + 1).drop_last() =~= fv.subrange(0, i as int));
                assert(fv.subrange(0, i + 1).last() == fv[i as int]);
            }
            out.append("  ");
            out.append(result.failures[i].mod_path.as_str());
            out.append(" (");
            out.append(result.failures[i].source_file.as_str());
            out.append("): ");
            out.append(result.failures[i].reason.as_str());
            out.append("\n");
            proof {
                assert(out@ =~= base + failure_lines(fv.subrange(0, i + 1)));
            }
            i = i + 1;
        }
        proof {
            assert(fv.subrange(0, fv.len() as int) =~= fv);
        }
        out
    }
}

} // verus!
