//! Promotion state machine: upgrade pattern claims from `Planned` to
//! `Verified` when structural evidence supports them.
//!
//! Promotion is one-way. A module already `Verified` is never touched again;
//! a module whose declared pattern has no registered heuristic is skipped;
//! everything else is promoted exactly when its source files show evidence.

use vstd::prelude::*;

use crate::check::tree_view;
use crate::heuristics::{check_module_pattern, module_evidence};
use crate::text::{chars_eq_str, str_to_chars};
use crate::types::{DocV, ModuleDoc, PatternStatus, docs_view};

verus! {

/// The patterns that have a registered structural heuristic.
pub open spec fn is_verifiable(p: Seq<char>) -> bool {
    p == "Observer"@ || p == "Strategy"@ || p == "Facade"@ || p == "Builder"@ || p == "Factory"@
        || p == "Adapter"@ || p == "Decorator"@ || p == "Singleton"@ || p == "Command"@
}

/// Whether one module is promoted on this run.
pub open spec fn promotes(d: DocV, sources: Seq<(Seq<char>, Seq<char>)>) -> bool {
    d.pattern_status == PatternStatus::Planned && is_verifiable(d.pattern) && module_evidence(
        d.pattern,
        sources,
    )
}

/// What one module becomes after a promotion pass.
pub open spec fn promoted_doc(d: DocV, sources: Seq<(Seq<char>, Seq<char>)>) -> DocV {
    if promotes(d, sources) {
        DocV { pattern_status: PatternStatus::Verified, ..d }
    } else {
        d
    }
}

/// How many of the first `n` modules are promoted.
pub open spec fn promoted_count(
    docs: Seq<DocV>,
    sources: Seq<Seq<(Seq<char>, Seq<char>)>>,
    n: int,
) -> nat
    decreases n,
{
    if n <= 0 || docs.len() != sources.len() {
        0
    } else {
        promoted_count(docs, sources, n - 1) + if n <= docs.len() && promotes(
            docs[n - 1],
            sources[n - 1],
        ) {
            1nat
        } else {
            0nat
        }
    }
}

/// The view of per-module source sets.
pub open spec fn module_sources_view(
    ms: Seq<Vec<(String, String)>>,
) -> Seq<Seq<(Seq<char>, Seq<char>)>> {
    ms.map_values(|m: Vec<(String, String)>| tree_view(m@))
}

/// A promoted count never exceeds the number of modules.
proof fn lemma_promoted_count_le(
    docs: Seq<DocV>,
    sources: Seq<Seq<(Seq<char>, Seq<char>)>>,
    n: int,
)
    requires
        n <= docs.len(),
    ensures
        promoted_count(docs, sources, n) <= (if n >= 0 {
            n
        } else {
            0
        }),
    decreases n,
{
    if n > 0 {
        lemma_promoted_count_le(docs, sources, n - 1);
    }
}

/// Whether this module's declared pattern has a registered heuristic.
fn verifiable_exec(pattern: &str) -> (r: bool)
    ensures
        r == is_verifiable(pattern@),
{
    let pc = str_to_chars(pattern);
    chars_eq_str(pc.as_slice(), "Observer") || chars_eq_str(pc.as_slice(), "Strategy")
        || chars_eq_str(pc.as_slice(), "Facade") || chars_eq_str(pc.as_slice(), "Builder")
        || chars_eq_str(pc.as_slice(), "Factory") || chars_eq_str(pc.as_slice(), "Adapter")
        || chars_eq_str(pc.as_slice(), "Decorator") || chars_eq_str(pc.as_slice(), "Singleton")
        || chars_eq_str(pc.as_slice(), "Command")
}

/// Auto-promote pattern claims from `Planned` to `Verified` where the
/// structural heuristics pass, and return how many modules were promoted.
///
/// `module_sources[i]` holds the `(filename, source)` pairs of the source
/// directory of `docs[i]`. Modules already `Verified` and modules without a
/// registered heuristic are left untouched; nothing is ever demoted.
#[verifier::loop_isolation(false)]
#[verifier::rlimit(100)]
pub fn auto_promote(docs: &mut Vec<ModuleDoc>, module_sources: &Vec<Vec<(String, String)>>) -> (r:
    usize)
    requires
        old(docs)@.len() == module_sources@.len(),
    ensures
        final(docs)@.len() == old(docs)@.len(),
        forall|i: int|
            0 <= i < old(docs)@.len() ==> (#[trigger] final(docs)@[i])@ == promoted_doc(
                old(docs)@[i]@,
                module_sources_view(module_sources@)[i],
            ),
        r == promoted_count(
            docs_view(old(docs)@),
            module_sources_view(module_sources@),
            old(docs)@.len() as int,
        ),
{
    let ghost dv0 = docs_view(old(docs)@);
    let ghost msv = module_sources_view(module_sources@);
    let mut promoted: usize = 0;
    let mut i: usize = 0;
    let n = docs.len();
    while i < n
        invariant
            i <= n,
            n == docs@.len(),
            docs@.len() == old(docs)@.len(),
            forall|j: int| i <= j < n ==> docs@[j] == old(docs)@[j],
            forall|j: int|
                0 <= j < i ==> (#[trigger] docs@[j])@ == promoted_doc(old(docs)@[j]@, msv[j]),
            promoted == promoted_count(dv0, msv, i as int),
            promoted <= i,
        decreases n - i,
    {
        proof {
            assert(msv[i as int] == tree_view(module_sources@[i as int]@));
            assert(dv0[i as int] == old(docs)@[i as int]@);
            lemma_promoted_count_le(dv0, msv, i as int);
        }
        let planned = match docs[i].pattern_status {
            PatternStatus::Planned => true,
            PatternStatus::Verified => false,
        };
        let mut did: bool = false;
        if planned && verifiable_exec(docs[i].pattern.as_str()) {
            if check_module_pattern(docs[i].pattern.as_str(), &module_sources[i]) {
                let d = docs.remove(i);
                let upgraded = ModuleDoc { pattern_status: PatternStatus::Verified, ..d };
                docs.insert(i, upgraded);
                promoted = promoted + 1;
                did = true;
                proof {
                    assert(docs@[i as int]@ =~= promoted_doc(old(docs)@[i as int]@, msv[i as int]));
                    assert(forall|j: int| i < j < n ==> docs@[j] == old(docs)@[j]);
                    assert(forall|j: int|
                        0 <= j < i ==> (#[trigger] docs@[j])@ == promoted_doc(
                            old(docs)@[j]@,
                            msv[j],
                        ));
                }
            }
        }
        proof {
            if !did {
                assert(!promotes(dv0[i as int], msv[i as int]));
                assert(docs@[i as int]@ == promoted_doc(old(docs)@[i as int]@, msv[i as int]));
            }
        }
        i = i + 1;
    }
    promoted
}

/// Promotion monotonicity: a module already `Verified` stays `Verified`
/// after any further promotion run, whatever the current evidence shows.
pub proof fn lemma_promotion_monotonic(d: DocV, sources: Seq<(Seq<char>, Seq<char>)>)
    requires
        d.pattern_status == PatternStatus::Verified,
    ensures
        promoted_doc(d, sources) == d,
{
}

/// Promotion never demotes: after a pass, every module's status is either
/// unchanged or `Verified`, and a `Verified` status is always kept.
pub proof fn lemma_promotion_additive(d: DocV, sources: Seq<(Seq<char>, Seq<char>)>)
    ensures
        promoted_doc(d, sources).pattern_status == d.pattern_status || promoted_doc(
            d,
            sources,
        ).pattern_status == PatternStatus::Verified,
        d.pattern_status == PatternStatus::Verified ==> promoted_doc(d, sources).pattern_status
            == PatternStatus::Verified,
{
}

} // verus!
