//! Drift detection: compare freshly derived artifacts against persisted ones.
//!
//! Both sides are given as trees of `(relative path, content)` pairs. A path
//! present on both sides with different content has drifted; one produced
//! but not persisted is missing; one persisted but not produced is extra.
//! "No drift" holds exactly when all three collections are empty.

use vstd::prelude::*;

use crate::report::{DriftReport, DriftedFile, DriftedFileV};
use crate::text::{chars_eq, dec_of, push_dec, str_to_chars};

verus! {

/// The view of a `(path, content)` tree.
pub open spec fn tree_view(t: Seq<(String, String)>) -> Seq<(Seq<char>, Seq<char>)> {
    t.map_values(|p: (String, String)| (p.0@, p.1@))
}

/// Index of the first entry with the given path, or -1.
pub open spec fn tree_find(t: Seq<(Seq<char>, Seq<char>)>, path: Seq<char>) -> int
    decreases t.len(),
{
    if t.len() == 0 {
        -1
    } else if t[0].0 == path {
        0
    } else {
        let r = tree_find(t.drop_first(), path);
        if r == -1 {
            -1
        } else {
            r + 1
        }
    }
}

/// A path occurs in a tree.
pub open spec fn tree_has(t: Seq<(Seq<char>, Seq<char>)>, path: Seq<char>) -> bool {
    tree_find(t, path) >= 0
}

/// How many newline characters a text holds.
pub open spec fn newline_count(s: Seq<char>) -> nat
    decreases s.len(),
{
    if s.len() == 0 {
        0
    } else {
        newline_count(s.drop_last()) + if s.last() == '\n' {
            1nat
        } else {
            0nat
        }
    }
}

/// The number of lines of a text, as `str::lines` counts them: one per
/// newline, plus a final unterminated line if any.
pub open spec fn line_count(s: Seq<char>) -> nat {
    newline_count(s) + if s.len() > 0 && s.last() != '\n' {
        1nat
    } else {
        0nat
    }
}

/// The drifted entries: produced paths found persisted with other content.
pub open spec fn drifted_of(
    gen: Seq<(Seq<char>, Seq<char>)>,
    ex: Seq<(Seq<char>, Seq<char>)>,
) -> Seq<DriftedFileV>
    decreases gen.len(),
{
    if gen.len() == 0 {
        Seq::empty()
    } else {
        let g = gen.last();
        drifted_of(gen.drop_last(), ex) + if tree_has(ex, g.0) && ex[tree_find(ex, g.0)].1 != g.1 {
            seq![
                DriftedFileV {
                    path: g.0,
                    expected_lines: line_count(g.1),
                    actual_lines: line_count(ex[tree_find(ex, g.0)].1),
                },
            ]
        } else {
            Seq::empty()
        }
    }
}

/// The missing entries: produced paths absent from the persisted tree.
pub open spec fn missing_of(
    gen: Seq<(Seq<char>, Seq<char>)>,
    ex: Seq<(Seq<char>, Seq<char>)>,
) -> Seq<Seq<char>>
    decreases gen.len(),
{
    if gen.len() == 0 {
        Seq::empty()
    } else {
        missing_of(gen.drop_last(), ex) + if !tree_has(ex, gen.last().0) {
            seq![gen.last().0]
        } else {
            Seq::empty()
        }
    }
}

/// The extra entries: persisted paths that were not produced.
pub open spec fn extra_of(
    ex: Seq<(Seq<char>, Seq<char>)>,
    gen: Seq<(Seq<char>, Seq<char>)>,
) -> Seq<Seq<char>>
    decreases ex.len(),
{
    if ex.len() == 0 {
        Seq::empty()
    } else {
        extra_of(ex.drop_last(), gen) + if !tree_has(gen, ex.last().0) {
            seq![ex.last().0]
        } else {
            Seq::empty()
        }
    }
}

/// Find the first entry carrying `path` in a tree.
fn tree_find_exec(t: &Vec<(String, String)>, path: &[char]) -> (r: Option<usize>)
    ensures
        match r {
            Some(i) => i < t@.len() && tree_find(tree_view(t@), path@) == i as int,
            None => tree_find(tree_view(t@), path@) == -1,
        },
{
    let ghost tv = tree_view(t@);
    let mut i: usize = 0;
    while i < t.len()
        invariant
            tv == tree_view(t@),
            tv.len() == t@.len(),
            i <= t@.len(),
            forall|j: int| 0 <= j < i ==> tv[j].0 != path@,
        decreases t@.len() - i,
    {
        assert(tv[i as int] == (t@[i as int].0@, t@[i as int].1@));
        let pc = str_to_chars(t[i].0.as_str());
        if chars_eq(pc.as_slice(), path) {
            proof {
                lemma_tree_find_first(tv, path@, i as int);
            }
            return Some(i);
        }
        i = i + 1;
    }
    proof {
        lemma_tree_find_none(tv, path@);
    }
    None
}

proof fn lemma_tree_find_first(t: Seq<(Seq<char>, Seq<char>)>, path: Seq<char>, k: int)
    requires
        0 <= k < t.len(),
        forall|j: int| 0 <= j < k ==> t[j].0 != path,
        t[k].0 == path,
    ensures
        tree_find(t, path) == k,
    decreases k,
{
    if k > 0 {
        let r = t.drop_first();
        assert(forall|j: int| 0 <= j < k - 1 ==> r[j] == t[j + 1]);
        assert(r[k - 1] == t[k]);
        lemma_tree_find_first(r, path, k - 1);
    }
}

proof fn lemma_tree_find_none(t: Seq<(Seq<char>, Seq<char>)>, path: Seq<char>)
    requires
        forall|j: int| 0 <= j < t.len() ==> t[j].0 != path,
    ensures
        tree_find(t, path) == -1,
    decreases t.len(),
{
    if t.len() > 0 {
        lemma_tree_find_none(t.drop_first(), path);
    }
}

/// Count the lines of a text.
fn count_lines(s: &str) -> (r: usize)
    ensures
        r == line_count(s@),
{
    let v = str_to_chars(s);
    let total = v.len();
    let mut n: usize = 0;
    let mut i: usize = 0;
    let mut open_line: bool = false;
    proof {
        assert(v@.subrange(0, 0) =~= Seq::<char>::empty());
    }
    while i < total
        invariant
            v@ == s@,
            total == v@.len(),
            i <= total,
            n == newline_count(v@.subrange(0, i as int)),
            open_line == (i > 0 && v@[i - 1] != '\n'),
            n <= i,
            open_line ==> n < i,
        decreases total - i,
    {
        let ghost pre = v@.subrange(0, i as int);
        let ghost pre1 = v@.subrange(0, i + 1);
        proof {
            assert(pre1.drop_last() =~= pre);
            assert(pre1.last() == v@[i as int]);
        }
        if v[i] == '\n' {
            n = n + 1;
            open_line = false;
        } else {
            open_line = true;
        }
        i = i + 1;
    }
    proof {
        assert(v@.subrange(0, v@.len() as int) =~= v@);
        if v@.len() > 0 {
            assert(v@.last() == v@[v@.len() - 1]);
        }
    }
    if open_line {
        n + 1
    } else {
        n
    }
}

/// Check for documentation drift: compare the freshly produced tree against
/// the persisted one, path by path.
#[verifier::loop_isolation(false)]
#[verifier::rlimit(100)]
pub fn check_drift(generated: &Vec<(String, String)>, existing: &Vec<(String, String)>) -> (r:
    DriftReport)
    ensures
        r.drifted_files@.map_values(|d: DriftedFile| d@) == drifted_of(
            tree_view(generated@),
            tree_view(existing@),
        ),
        r.missing_files@.map_values(|m: String| m@) == missing_of(
            tree_view(generated@),
            tree_view(existing@),
        ),
        r.extra_files@.map_values(|e: String| e@) == extra_of(
            tree_view(existing@),
            tree_view(generated@),
        ),
{
    let ghost gv = tree_view(generated@);
    let ghost ev = tree_view(existing@);
    let mut report = DriftReport::default();
    let mut i: usize = 0;
    proof {
        assert(gv.subrange(0, 0) =~= Seq::<(Seq<char>, Seq<char>)>::empty());
        assert(report.drifted_files@.map_values(|d: DriftedFile| d@) =~= Seq::<
            DriftedFileV,
        >::empty());
        assert(report.missing_files@.map_values(|m: String| m@) =~= Seq::<Seq<char>>::empty());
        assert(report.extra_files@.map_values(|e: String| e@) =~= Seq::<Seq<char>>::empty());
    }
    while i < generated.len()
        invariant
            i <= generated@.len(),
            report.drifted_files@.map_values(|d: DriftedFile| d@) == drifted_of(
                gv.subrange(0, i as int),
                ev,
            ),
            report.missing_files@.map_values(|m: String| m@) == missing_of(
                gv.subrange(0, i as int),
                ev,
            ),
            report.extra_files@.map_values(|e: String| e@) == Seq::<Seq<char>>::empty(),
        decreases generated@.len() - i,
    {
        let ghost pre = gv.subrange(0, i as int);
        let ghost pre1 = gv.subrange(0, i + 1);
        proof {
            assert(gv[i as int] == (generated@[i as int].0@, generated@[i as int].1@));
            assert(pre1.drop_last() =~= pre);
            assert(pre1.last() == gv[i as int]);
        }
        let pc = str_to_chars(generated[i].0.as_str());
        match tree_find_exec(existing, pc.as_slice()) {
            Some(j) => {
                proof {
                    assert(ev[j as int] == (existing@[j as int].0@, existing@[j as int].1@));
                }
                let gc = str_to_chars(generated[i].1.as_str());
                let ec = str_to_chars(existing[j].1.as_str());
                if !chars_eq(gc.as_slice(), ec.as_slice()) {
                    let entry = DriftedFile {
                        path: generated[i].0.clone(),
                        expected_lines: count_lines(generated[i].1.as_str()),
                        actual_lines: count_lines(existing[j].1.as_str()),
                    };
                    let ghost dprev = report.drifted_files@;
                    report.drifted_files.push(entry);
                    proof {
                        assert(report.drifted_files@.map_values(|d: DriftedFile| d@)
                            =~= dprev.map_values(|d: DriftedFile| d@).push(
                            DriftedFileV {
                                path: gv[i as int].0,
                                expected_lines: line_count(gv[i as int].1),
                                actual_lines: line_count(ev[j as int].1),
                            },
                        )) by {
                            assert(report.drifted_files@ =~= dprev.push(entry));
                        }
                        assert(report.drifted_files@.map_values(|d: DriftedFile| d@) =~= drifted_of(
                            pre1,
                            ev,
                        ));
                        assert(report.missing_files@.map_values(|m: String| m@) =~= missing_of(
                            pre1,
                            ev,
                        ));
                    }
                } else {
                    proof {
                        assert(report.drifted_files@.map_values(|d: DriftedFile| d@) =~= drifted_of(
                            pre1,
                            ev,
                        ));
                        assert(report.missing_files@.map_values(|m: String| m@) =~= missing_of(
                            pre1,
                            ev,
                        ));
                    }
                }
            },
            None => {
                let ghost mprev = report.missing_files@;
                report.missing_files.push(generated[i].0.clone());
                proof {
                    assert(report.missing_files@.map_values(|m: String| m@) =~= mprev.map_values(
                        |m: String| m@,
                    ).push(gv[i as int].0)) by {
                        assert(report.missing_files@ =~= mprev.push(generated@[i as int].0));
                    }
                    assert(report.missing_files@.map_values(|m: String| m@) =~= missing_of(
                        pre1,
                        ev,
                    ));
                    assert(report.drifted_files@.map_values(|d: DriftedFile| d@) =~= drifted_of(
                        pre1,
                        ev,
                    ));
                }
            },
        }
        i = i + 1;
    }
    proof {
        assert(gv.subrange(0, gv.len() as int) =~= gv);
        assert(ev.subrange(0, 0) =~= Seq::<(Seq<char>, Seq<char>)>::empty());
    }
    let mut k: usize = 0;
    let ghost drifted_frozen = report.drifted_files@;
    let ghost missing_frozen = report.missing_files@;
    while k < existing.len()
        invariant
            k <= existing@.len(),
            report.drifted_files@ == drifted_frozen,
            report.missing_files@ == missing_frozen,
            report.extra_files@.map_values(|e: String| e@) == extra_of(
                ev.subrange(0, k as int),
                gv,
            ),
        decreases existing@.len() - k,
    {
        let ghost pre = ev.subrange(0, k as int);
        let ghost pre1 = ev.subrange(0, k + 1);
        proof {
            assert(ev[k as int] == (existing@[k as int].0@, existing@[k as int].1@));
            assert(pre1.drop_last() =~= pre);
            assert(pre1.last() == ev[k as int]);
        }
        let pc = str_to_chars(existing[k].0.as_str());
        match tree_find_exec(generated, pc.as_slice()) {
            Some(_) => {
                proof {
                    assert(report.extra_files@.map_values(|e: String| e@) =~= extra_of(pre1, gv));
                }
            },
            None => {
                let ghost eprev = report.extra_files@;
                report.extra_files.push(existing[k].0.clone());
                proof {
                    assert(report.extra_files@.map_values(|e: String| e@) =~= eprev.map_values(
                        |e: String| e@,
                    ).push(ev[k as int].0)) by {
                        assert(report.extra_files@ =~= eprev.push(existing@[k as int].0));
                    }
                    assert(report.extra_files@.map_values(|e: String| e@) =~= extra_of(pre1, gv));
                }
            },
        }
        k = k + 1;
    }
    proof {
        assert(ev.subrange(0, ev.len() as int) =~= ev);
    }
    report
}

/// Checking an unchanged tree against itself finds no drift: with paths
/// unique, nothing has drifted, nothing is missing, nothing is extra.
pub proof fn lemma_no_drift_when_current(t: Seq<(Seq<char>, Seq<char>)>)
    requires
        forall|i: int, j: int|
            0 <= i < j < t.len() ==> (#[trigger] t[i].0) != (#[trigger] t[j].0),
    ensures
        drifted_of(t, t) == Seq::<DriftedFileV>::empty(),
        missing_of(t, t) == Seq::<Seq<char>>::empty(),
        extra_of(t, t) == Seq::<Seq<char>>::empty(),
{
    lemma_self_prefix(t, t.len() as int);
    assert(t.subrange(0, t.len() as int) =~= t);
}

proof fn lemma_self_prefix(t: Seq<(Seq<char>, Seq<char>)>, k: int)
    requires
        0 <= k <= t.len(),
        forall|i: int, j: int|
            0 <= i < j < t.len() ==> (#[trigger] t[i].0) != (#[trigger] t[j].0),
    ensures
        drifted_of(t.subrange(0, k), t) == Seq::<DriftedFileV>::empty(),
        missing_of(t.subrange(0, k), t) == Seq::<Seq<char>>::empty(),
        extra_of(t.subrange(0, k), t) == Seq::<Seq<char>>::empty(),
    decreases k,
{
    if k == 0 {
        assert(t.subrange(0, 0) =~= Seq::<(Seq<char>, Seq<char>)>::empty());
    } else {
        lemma_self_prefix(t, k - 1);
        let pre1 = t.subrange(0, k);
        assert(pre1.drop_last() =~= t.subrange(0, k - 1));
        assert(pre1.last() == t[k - 1]);
        lemma_tree_find_first(t, t[k - 1].0, k - 1);
        assert(tree_has(t, t[k - 1].0));
        assert(t[tree_find(t, t[k - 1].0)].1 == t[k - 1].1);
        assert(drifted_of(pre1, t) =~= Seq::<DriftedFileV>::empty());
        assert(missing_of(pre1, t) =~= Seq::<Seq<char>>::empty());
        assert(extra_of(pre1, t) =~= Seq::<Seq<char>>::empty());
    }
}

/// A changed artifact is always detected: a produced path that exists in the
/// persisted tree with different content makes the drifted list non-empty.
pub proof fn lemma_drift_detected(
    gen: Seq<(Seq<char>, Seq<char>)>,
    ex: Seq<(Seq<char>, Seq<char>)>,
    i: int,
)
    requires
        0 <= i < gen.len(),
        tree_has(ex, gen[i].0),
        ex[tree_find(ex, gen[i].0)].1 != gen[i].1,
    ensures
        drifted_of(gen, ex).len() > 0,
    decreases gen.len(),
{
    if i == gen.len() - 1 {
        assert(gen.last() == gen[i]);
    } else {
        let t = gen.drop_last();
        assert(t[i] == gen[i]);
        lemma_drift_detected(t, ex, i);
    }
}

/// One rendered line per drifted file.
pub open spec fn drift_lines(ds: Seq<DriftedFileV>) -> Seq<char>
    decreases ds.len(),
{
    if ds.len() == 0 {
        Seq::empty()
    } else {
        drift_lines(ds.drop_last()) + "  "@ + ds.last().path + " (expected "@ + dec_of(
            ds.last().expected_lines,
        ) + " lines, got "@ + dec_of(ds.last().actual_lines) + ")\n"@
    }
}

/// One rendered line per plain path.
pub open spec fn path_lines(ps: Seq<Seq<char>>) -> Seq<char>
    decreases ps.len(),
{
    if ps.len() == 0 {
        Seq::empty()
    } else {
        path_lines(ps.drop_last()) + "  "@ + ps.last() + "\n"@
    }
}

/// The whole drift report, rendered.
pub open spec fn drift_text(
    ds: Seq<DriftedFileV>,
    ms: Seq<Seq<char>>,
    es: Seq<Seq<char>>,
) -> Seq<char> {
    if ds.len() == 0 && ms.len() == 0 && es.len() == 0 {
        "Documentation is up to date.\n"@
    } else {
        "Documentation drift detected!\n\n"@ + (if ds.len() > 0 {
            "Changed files ("@ + dec_of(ds.len()) + "):\n"@ + drift_lines(ds)
        } else {
            Seq::<char>::empty()
        }) + (if ms.len() > 0 {
            "Missing files ("@ + dec_of(ms.len()) + "):\n"@ + path_lines(ms)
        } else {
            Seq::<char>::empty()
        }) + (if es.len() > 0 {
            "Extra files ("@ + dec_of(es.len()) + "):\n"@ + path_lines(es)
        } else {
            Seq::<char>::empty()
        }) + "\nRun `archidoc` to regenerate.\n"@
    }
}

/// Format a drift report as human-readable text.
#[verifier::loop_isolation(false)]
#[verifier::rlimit(100)]
pub fn format_drift_report(report: &DriftReport) -> (r: String)
    ensures
        r@ == drift_text(
            report.drifted_files@.map_values(|d: DriftedFile| d@),
            report.missing_files@.map_values(|m: String| m@),
            report.extra_files@.map_values(|e: String| e@),
        ),
{
    let ghost dv = report.drifted_files@.map_values(|d: DriftedFile| d@);
    let ghost mv = report.missing_files@.map_values(|m: String| m@);
    let ghost evx = report.extra_files@.map_values(|e: String| e@);
    let mut out = String::new();
    if !report.has_drift() {
        out.append("Documentation is up to date.\n");
        proof {
            assert(out@ =~= drift_text(dv, mv, evx));
        }
        return out;
    }
    out.append("Documentation drift detected!\n\n");
    if report.drifted_files.len() > 0 {
        out.append("Changed files (");
        push_dec(&mut out, report.drifted_files.len());
        out.append("):\n");
        let ghost base = out@;
        let mut i: usize = 0;
        proof {
            assert(dv.subrange(0, 0) =~= Seq::<DriftedFileV>::empty());
            assert(out@ =~= base + drift_lines(dv.subrange(0, 0)));
        }
        while i < report.drifted_files.len()
            invariant
                i <= report.drifted_files@.len(),
                out@ == base + drift_lines(dv.subrange(0, i as int)),
            decreases report.drifted_files@.len() - i,
        {
            proof {
                assert(dv[i as int] == report.drifted_files@[i as int]@);
                assert(dv.subrange(0, i + 1).drop_last() =~= dv.subrange(0, i as int));
                assert(dv.subrange(0, i + 1).last() == dv[i as int]);
            }
            out.append("  ");
            out.append(report.drifted_files[i].path.as_str());
            out.append(" (expected ");
            push_dec(&mut out, report.drifted_files[i].expected_lines);
            out.append(" lines, got ");
            push_dec(&mut out, report.drifted_files[i].actual_lines);
            out.append(")\n");
            proof {
                assert(out@ =~= base + drift_lines(dv.subrange(0, i + 1)));
            }
            i = i + 1;
        }
        proof {
            assert(dv.subrange(0, dv.len() as int) =~= dv);
        }
    }
    if report.missing_files.len() > 0 {
        out.append("Missing files (");
        push_dec(&mut out, report.missing_files.len());
        out.append("):\n");
        let ghost base = out@;
        let mut i: usize = 0;
        proof {
            assert(mv.subrange(0, 0) =~= Seq::<Seq<char>>::empty());
            assert(out@ =~= base + path_lines(mv.subrange(0, 0)));
        }
        while i < report.missing_files.len()
            invariant
                i <= report.missing_files@.len(),
                out@ == base + path_lines(mv.subrange(0, i as int)),
            decreases report.missing_files@.len() - i,
        {
            proof {
                assert(mv[i as int] == report.missing_files@[i as int]@);
                assert(mv.subrange(0, i + 1).drop_last() =~= mv.subrange(0, i as int));
                assert(mv.subrange(0, i + 1).last() == mv[i as int]);
            }
            out.append("  ");
            out.append(report.missing_files[i].as_str());
            out.append("\n");
            proof {
                assert(out@ =~= base + path_lines(mv.subrange(0, i + 1)));
            }
            i = i + 1;
        }
        proof {
            assert(mv.subrange(0, mv.len() as int) =~= mv);
        }
    }
    if report.extra_files.len() > 0 {
        out.append("Extra files (");
        push_dec(&mut out, report.extra_files.len());
        out.append("):\n");
        let ghost base = out@;
        let mut i: usize = 0;
        proof {
            assert(evx.subrange(0, 0) =~= Seq::<Seq<char>>::empty());
            assert(out@ =~= base + path_lines(evx.subrange(0, 0)));
        }
        while i < report.extra_files.len()
            invariant
                i <= report.extra_files@.len(),
                out@ == base + path_lines(evx.subrange(0, i as int)),
            decreases report.extra_files@.len() - i,
        {
            proof {
                assert(evx[i as int] == report.extra_files@[i as int]@);
                assert(evx.subrange(0, i + 1).drop_last() =~= evx.subrange(0, i as int));
                assert(evx.subrange(0, i + 1).last() == evx[i as int]);
            }
            out.append("  ");
            out.append(report.extra_files[i].as_str());
            out.append("\n");
            proof {
                assert(out@ =~= base + path_lines(evx.subrange(0, i + 1)));
            }
            i = i + 1;
        }
        proof {
            assert(evx.subrange(0, evx.len() as int) =~= evx);
        }
    }
    out.append("\nRun `archidoc` to regenerate.\n");
    proof {
        assert(out@ =~= drift_text(dv, mv, evx));
    }
    out
}

} // verus!
