//! Health reporting: project-wide maturity and pattern-confidence counts.

use vstd::prelude::*;

use crate::report::{ElementHealth, ElementHealthV, HealthReport, HealthReportV};
use crate::text::{dec_of, push_dec};
use crate::types::{c4_token, status_token, C4Level, DocV, FileV, HealthStatus, ModuleDoc,
    PatternStatus, docs_view};

verus! {

/// How many documents carry the given C4 level.
pub open spec fn count_level(docs: Seq<DocV>, l: C4Level) -> nat
    decreases docs.len(),
{
    if docs.len() == 0 {
        0
    } else {
        count_level(docs.drop_last(), l) + if docs.last().c4_level == l {
            1nat
        } else {
            0nat
        }
    }
}

/// How many catalog rows all documents carry together.
pub open spec fn count_files(docs: Seq<DocV>) -> nat
    decreases docs.len(),
{
    if docs.len() == 0 {
        0
    } else {
        count_files(docs.drop_last()) + docs.last().files.len()
    }
}

/// How many rows of one catalog carry the given maturity.
pub open spec fn count_health_files(files: Seq<FileV>, h: HealthStatus) -> nat
    decreases files.len(),
{
    if files.len() == 0 {
        0
    } else {
        count_health_files(files.drop_last(), h) + if files.last().health == h {
            1nat
        } else {
            0nat
        }
    }
}

/// How many catalog rows of all documents carry the given maturity.
pub open spec fn count_health(docs: Seq<DocV>, h: HealthStatus) -> nat
    decreases docs.len(),
{
    if docs.len() == 0 {
        0
    } else {
        count_health(docs.drop_last(), h) + count_health_files(docs.last().files, h)
    }
}

/// A document carries a pattern when the field is neither empty nor the
/// `--` sentinel.
pub open spec fn has_pattern(d: DocV) -> bool {
    d.pattern != "--"@ && d.pattern.len() > 0
}

/// How many documents carry a pattern.
pub open spec fn count_patterns(docs: Seq<DocV>) -> nat
    decreases docs.len(),
{
    if docs.len() == 0 {
        0
    } else {
        count_patterns(docs.drop_last()) + if has_pattern(docs.last()) {
            1nat
        } else {
            0nat
        }
    }
}

/// How many documents carry a pattern at the given confidence.
pub open spec fn count_status(docs: Seq<DocV>, st: PatternStatus) -> nat
    decreases docs.len(),
{
    if docs.len() == 0 {
        0
    } else {
        count_status(docs.drop_last(), st) + if has_pattern(docs.last()) && docs.last()
            .pattern_status == st {
            1nat
        } else {
            0nat
        }
    }
}

/// The per-element health row of one document.
pub open spec fn elem_of(d: DocV) -> ElementHealthV {
    ElementHealthV {
        name: d.mod_path,
        c4_level: c4_token(d.c4_level),
        file_count: d.files.len(),
        files_planned: count_health_files(d.files, HealthStatus::Planned),
        files_active: count_health_files(d.files, HealthStatus::Active),
        files_stable: count_health_files(d.files, HealthStatus::Stable),
        pattern: d.pattern,
        pattern_confidence: status_token(d.pattern_status),
    }
}

/// The per-element rows of a whole document list.
pub open spec fn elems_of(docs: Seq<DocV>) -> Seq<ElementHealthV> {
    docs.map_values(|d: DocV| elem_of(d))
}

/// Every level count is bounded by the number of documents.
proof fn lemma_count_level_le(docs: Seq<DocV>, l: C4Level)
    ensures
        count_level(docs, l) <= docs.len(),
    decreases docs.len(),
{
    if docs.len() > 0 {
        lemma_count_level_le(docs.drop_last(), l);
    }
}

/// Every maturity count of one catalog is bounded by its length.
proof fn lemma_count_health_files_le(files: Seq<FileV>, h: HealthStatus)
    ensures
        count_health_files(files, h) <= files.len(),
    decreases files.len(),
{
    if files.len() > 0 {
        lemma_count_health_files_le(files.drop_last(), h);
    }
}

/// Every maturity count is bounded by the total file count.
proof fn lemma_count_health_le(docs: Seq<DocV>, h: HealthStatus)
    ensures
        count_health(docs, h) <= count_files(docs),
    decreases docs.len(),
{
    if docs.len() > 0 {
        lemma_count_health_le(docs.drop_last(), h);
        lemma_count_health_files_le(docs.last().files, h);
    }
}

/// Every pattern count is bounded by the number of documents.
proof fn lemma_count_patterns_le(docs: Seq<DocV>)
    ensures
        count_patterns(docs) <= docs.len(),
    decreases docs.len(),
{
    if docs.len() > 0 {
        lemma_count_patterns_le(docs.drop_last());
    }
}

/// Every confidence count is bounded by the number of documents.
proof fn lemma_count_status_le(docs: Seq<DocV>, st: PatternStatus)
    ensures
        count_status(docs, st) <= docs.len(),
    decreases docs.len(),
{
    if docs.len() > 0 {
        lemma_count_status_le(docs.drop_last(), st);
    }
}

/// A longer prefix never counts fewer files.
proof fn lemma_count_files_mono(docs: Seq<DocV>, k: int)
    requires
        0 <= k <= docs.len(),
    ensures
        count_files(docs.subrange(0, k)) <= count_files(docs),
    decreases docs.len() - k,
{
    if k == docs.len() {
        assert(docs.subrange(0, k) =~= docs);
    } else {
        let next = docs.subrange(0, k + 1);
        assert(next.drop_last() =~= docs.subrange(0, k));
        lemma_count_files_mono(docs, k + 1);
    }
}

/// Count the rows of one catalog at one maturity.
fn count_files_health(files: &Vec<crate::types::FileEntry>, h: HealthStatus) -> (r: usize)
    ensures
        r == count_health_files(files@.map_values(|f: crate::types::FileEntry| f@), h),
        r <= files@.len(),
{
    let ghost fv = files@.map_values(|f: crate::types::FileEntry| f@);
    let mut r: usize = 0;
    let mut j: usize = 0;
    proof {
        assert(fv.subrange(0, 0) =~= Seq::<FileV>::empty());
    }
    while j < files.len()
        invariant
            fv == files@.map_values(|f: crate::types::FileEntry| f@),
            fv.len() == files@.len(),
            j <= files@.len(),
            r == count_health_files(fv.subrange(0, j as int), h),
            r <= j,
        decreases files@.len() - j,
    {
        proof {
            assert(fv[j as int] == files@[j as int]@);
            assert(fv.subrange(0, j + 1).drop_last() =~= fv.subrange(0, j as int));
            assert(fv.subrange(0, j + 1).last() == fv[j as int]);
        }
        let same = match (files[j].health, h) {
            (HealthStatus::Planned, HealthStatus::Planned) => true,
            (HealthStatus::Active, HealthStatus::Active) => true,
            (HealthStatus::Stable, HealthStatus::Stable) => true,
            _ => false,
        };
        if same {
            r = r + 1;
        }
        j = j + 1;
    }
    proof {
        assert(fv.subrange(0, fv.len() as int) =~= fv);
    }
    r
}

/// Whether this document declares a pattern.
fn doc_has_pattern(d: &ModuleDoc) -> (r: bool)
    ensures
        r == has_pattern(d@),
{
    let sentinel = !crate::text::chars_eq_str(
        crate::text::str_to_chars(d.pattern.as_str()).as_slice(),
        "--",
    );
    sentinel && d.pattern.as_str().unicode_len() > 0
}

/// Aggregate health across all architectural elements: files by maturity and
/// patterns by confidence, project-wide and per element.
#[verifier::loop_isolation(false)]
#[verifier::rlimit(100)]
pub fn aggregate_health(docs: &Vec<ModuleDoc>) -> (r: HealthReport)
    requires
        count_files(docs_view(docs@)) <= usize::MAX,
    ensures
        r@.total_elements == docs@.len(),
        r@.container_count == count_level(docs_view(docs@), C4Level::Container),
        r@.component_count == count_level(docs_view(docs@), C4Level::Component),
        r@.total_files == count_files(docs_view(docs@)),
        r@.files_planned == count_health(docs_view(docs@), HealthStatus::Planned),
        r@.files_active == count_health(docs_view(docs@), HealthStatus::Active),
        r@.files_stable == count_health(docs_view(docs@), HealthStatus::Stable),
        r@.patterns_total == count_patterns(docs_view(docs@)),
        r@.patterns_planned == count_status(docs_view(docs@), PatternStatus::Planned),
        r@.patterns_verified == count_status(docs_view(docs@), PatternStatus::Verified),
        r@.per_element == elems_of(docs_view(docs@)),
{
    let ghost dv = docs_view(docs@);
    let mut report = HealthReport::default();
    report.total_elements = docs.len();
    let mut i: usize = 0;
    proof {
        assert(dv.subrange(0, 0) =~= Seq::<DocV>::empty());
        assert(report.per_element@.map_values(|e: ElementHealth| e@) =~= Seq::<
            ElementHealthV,
        >::empty());
        assert(elems_of(dv.subrange(0, 0)) =~= Seq::<ElementHealthV>::empty());
    }
    while i < docs.len()
        invariant
            i <= docs@.len(),
            report.total_elements == docs@.len(),
            report.container_count == count_level(dv.subrange(0, i as int), C4Level::Container),
            report.component_count == count_level(dv.subrange(0, i as int), C4Level::Component),
            report.total_files == count_files(dv.subrange(0, i as int)),
            report.files_planned == count_health(dv.subrange(0, i as int), HealthStatus::Planned),
            report.files_active == count_health(dv.subrange(0, i as int), HealthStatus::Active),
            report.files_stable == count_health(dv.subrange(0, i as int), HealthStatus::Stable),
            report.patterns_total == count_patterns(dv.subrange(0, i as int)),
            report.patterns_planned == count_status(
                dv.subrange(0, i as int),
                PatternStatus::Planned,
            ),
            report.patterns_verified == count_status(
                dv.subrange(0, i as int),
                PatternStatus::Verified,
            ),
            report.per_element@.map_values(|e: ElementHealth| e@) == elems_of(
                dv.subrange(0, i as int),
            ),
        decreases docs@.len() - i,
    {
        let ghost pre = dv.subrange(0, i as int);
        let ghost pre1 = dv.subrange(0, i + 1);
        proof {
            assert(dv[i as int] == docs@[i as int]@);
            assert(pre1.drop_last() =~= pre);
            assert(pre1.last() == dv[i as int]);
            lemma_count_level_le(pre1, C4Level::Container);
            lemma_count_level_le(pre1, C4Level::Component);
            lemma_count_patterns_le(pre1);
            lemma_count_status_le(pre1, PatternStatus::Planned);
            lemma_count_status_le(pre1, PatternStatus::Verified);
            lemma_count_files_mono(dv, i + 1);
            lemma_count_health_le(pre1, HealthStatus::Planned);
            lemma_count_health_le(pre1, HealthStatus::Active);
            lemma_count_health_le(pre1, HealthStatus::Stable);
        }
        let d = &docs[i];
        match d.c4_level {
            C4Level::Container => {
                report.container_count = report.container_count + 1;
            },
            C4Level::Component => {
                report.component_count = report.component_count + 1;
            },
            C4Level::Unknown => {
            },
        }
        let fp = count_files_health(&d.files, HealthStatus::Planned);
        let fa = count_files_health(&d.files, HealthStatus::Active);
        let fs = count_files_health(&d.files, HealthStatus::Stable);
        proof {
            lemma_count_health_files_le(dv[i as int].files, HealthStatus::Planned);
            lemma_count_health_files_le(dv[i as int].files, HealthStatus::Active);
            lemma_count_health_files_le(dv[i as int].files, HealthStatus::Stable);
        }
        report.files_planned = report.files_planned + fp;
        report.files_active = report.files_active + fa;
        report.files_stable = report.files_stable + fs;
        report.total_files = report.total_files + d.files.len();
        if doc_has_pattern(d) {
            report.patterns_total = report.patterns_total + 1;
            match d.pattern_status {
                PatternStatus::Planned => {
                    report.patterns_planned = report.patterns_planned + 1;
                },
                PatternStatus::Verified => {
                    report.patterns_verified = report.patterns_verified + 1;
                },
            }
        }
        let elem = ElementHealth {
            name: d.mod_path.clone(),
            c4_level: d.c4_level.token(),
            file_count: d.files.len(),
            files_planned: fp,
            files_active: fa,
            files_stable: fs,
            pattern: d.pattern.clone(),
            pattern_confidence: d.pattern_status.token(),
        };
        let ghost ev = report.per_element@.map_values(|e: ElementHealth| e@);
        proof {
            assert(elem@ =~= elem_of(dv[i as int]));
        }
        let ghost pe0 = report.per_element@;
        report.per_element.push(elem);
        proof {
            assert(report.per_element@.map_values(|e: ElementHealth| e@) =~= ev.push(
                elem_of(dv[i as int]),
            )) by {
                assert(report.per_element@ =~= pe0.push(elem));
            }
            assert(elems_of(pre1) =~= elems_of(pre).push(elem_of(dv[i as int])));
        }
        i = i + 1;
    }
    proof {
        assert(dv.subrange(0, dv.len() as int) =~= dv);
    }
    report
}

/// Tenths of a percent that `part` is of `total`, rounded half up.
pub open spec fn pct10(part: nat, total: nat) -> nat {
    ((2000 * part + total) / (2 * total)) as nat
}

/// The percent text `12.3` for `part` of `total`.
pub open spec fn pct_text(part: nat, total: nat) -> Seq<char> {
    dec_of(pct10(part, total) / 10) + seq!['.'] + dec_of(pct10(part, total) % 10)
}

/// Append the percent text for `part` of `total`.
fn push_pct(out: &mut String, part: usize, total: usize)
    requires
        0 < total,
        part <= total,
    ensures
        final(out)@ == old(out)@ + pct_text(part as nat, total as nat),
{
    let p128: u128 = (2000 * (part as u128) + (total as u128)) / (2 * (total as u128));
    proof {
        assert(2000 * (part as int) + total as int == 2000 * (part as nat) + total as nat);
        assert(p128 as int == (2000 * (part as nat) + total as nat) as int / (2 * (total as nat))
            as int);
        assert(p128 <= 1000) by (nonlinear_arith)
            requires
                0 < total as int,
                part as int <= total as int,
                p128 as int == (2000 * (part as int) + total as int) / (2 * (total as int)),
        ;
    }
    let p: usize = p128 as usize;
    push_dec(out, p / 10);
    crate::text::push_char(out, '.');
    push_dec(out, p % 10);
    assert(final(out)@ =~= old(out)@ + pct_text(part as nat, total as nat));
}

/// The heading and element counts of the rendered report.
#[verifier::opaque]
pub open spec fn health_text_head(rv: HealthReportV) -> Seq<char> {
    "Architecture Health Report\n==========================\nElements:    "@ + dec_of(
        rv.total_elements,
    ) + " total ("@ + dec_of(rv.container_count) + " containers, "@ + dec_of(rv.component_count)
        + " components)\nFiles:       "@ + dec_of(rv.total_files) + " total\n"@
}

/// The file-maturity block of the rendered report, present when any file
/// is counted.
#[verifier::opaque]
pub open spec fn health_text_files(rv: HealthReportV) -> Seq<char> {
    if rv.total_files > 0 {
        "  planned:   "@ + dec_of(rv.files_planned) + " ("@ + pct_text(
            rv.files_planned,
            rv.total_files,
        ) + "%)\n  active:    "@ + dec_of(rv.files_active) + " ("@ + pct_text(
            rv.files_active,
            rv.total_files,
        ) + "%)\n  stable:    "@ + dec_of(rv.files_stable) + " ("@ + pct_text(
            rv.files_stable,
            rv.total_files,
        ) + "%)\n"@
    } else {
        Seq::<char>::empty()
    }
}

/// The pattern-confidence block of the rendered report, present when any
/// pattern is assigned.
#[verifier::opaque]
pub open spec fn health_text_pats(rv: HealthReportV) -> Seq<char> {
    "Patterns:    "@ + dec_of(rv.patterns_total) + " assigned\n"@ + (if rv.patterns_total > 0 {
        "  planned:   "@ + dec_of(rv.patterns_planned) + " ("@ + pct_text(
            rv.patterns_planned,
            rv.patterns_total,
        ) + "%)\n  verified:  "@ + dec_of(rv.patterns_verified) + " ("@ + pct_text(
            rv.patterns_verified,
            rv.patterns_total,
        ) + "%)\n"@
    } else {
        Seq::<char>::empty()
    })
}

/// The whole health report, rendered.
pub open spec fn health_text(rv: HealthReportV) -> Seq<char> {
    health_text_head(rv) + health_text_files(rv) + health_text_pats(rv)
}

/// Format a health report as human-readable text.
#[verifier::rlimit(100)]
pub fn format_health_report(report: &HealthReport) -> (r: String)
    requires
        report@.files_planned <= report@.total_files,
        report@.files_active <= report@.total_files,
        report@.files_stable <= report@.total_files,
        report@.patterns_planned <= report@.patterns_total,
        report@.patterns_verified <= report@.patterns_total,
    ensures
        r@ == health_text(report@),
{
    let mut out = String::from_str(
        "Architecture Health Report\n==========================\nElements:    ",
    );
    push_dec(&mut out, report.total_elements);
    out.append(" total (");
    push_dec(&mut out, report.container_count);
    out.append(" containers, ");
    push_dec(&mut out, report.component_count);
    out.append(" components)\nFiles:       ");
    push_dec(&mut out, report.total_files);
    out.append(" total\n");
    let ghost head = out@;
    proof {
        reveal(health_text_head);
        assert(head =~= health_text_head(report@));
    }
    if report.total_files > 0 {
        out.append("  planned:   ");
        push_dec(&mut out, report.files_planned);
        out.append(" (");
        push_pct(&mut out, report.files_planned, report.total_files);
        out.append("%)\n  active:    ");
        push_dec(&mut out, report.files_active);
        out.append(" (");
        push_pct(&mut out, report.files_active, report.total_files);
        out.append("%)\n  stable:    ");
        push_dec(&mut out, report.files_stable);
        out.append(" (");
        push_pct(&mut out, report.files_stable, report.total_files);
        out.append("%)\n");
    }
    let ghost mid = out@;
    proof {
        reveal(health_text_files);
        assert(mid =~= head + health_text_files(report@));
    }
    out.append("Patterns:    ");
    push_dec(&mut out, report.patterns_total);
    out.append(" assigned\n");
    if report.patterns_total > 0 {
        out.append("  planned:   ");
        push_dec(&mut out, report.patterns_planned);
        out.append(" (");
        push_pct(&mut out, report.patterns_planned, report.patterns_total);
        out.append("%)\n  verified:  ");
        push_dec(&mut out, report.patterns_verified);
        out.append(" (");
        push_pct(&mut out, report.patterns_verified, report.patterns_total);
        out.append("%)\n");
    }
    proof {
        reveal(health_text_pats);
        assert(out@ =~= mid + health_text_pats(report@));
        assert((health_text_head(report@) + health_text_files(report@)) + health_text_pats(
            report@,
        ) =~= health_text(report@));
    }
    out
}

} // verus!
