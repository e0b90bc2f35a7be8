//! Extraction of IR fields from raw annotation text.
//!
//! The raw annotation block (already lifted out of a source comment by a
//! front end) carries markers, a description line, relationship markers and
//! a file table; each extractor here reads one field.

use vstd::prelude::*;

use crate::text::{
    chars_to_string, contains_lit, contains_seq, first_index, lemma_first_index_at,
    lemma_first_index_none, lines_of, matches_at, split_lines, split_sep, str_to_chars, trim_chars,
    trim_spec,
};
use crate::types::{
    status_parse_spec, C4Level, FileEntry, FileV, HealthStatus, PatternStatus, Relationship,
    RelV, health_parse_spec,
};

verus! {

/// What `extract_c4_level` returns: the first level marker found.
pub open spec fn c4_level_of(s: Seq<char>) -> C4Level {
    if contains_seq(s, "<<container>>"@) {
        C4Level::Container
    } else if contains_seq(s, "<<component>>"@) {
        C4Level::Component
    } else {
        C4Level::Unknown
    }
}

/// Extract the C4 level marker from annotation text.
pub fn extract_c4_level(content: &str) -> (r: C4Level)
    ensures
        r == c4_level_of(content@),
{
    let c = str_to_chars(content);
    if contains_lit(c.as_slice(), "<<container>>") {
        C4Level::Container
    } else if contains_lit(c.as_slice(), "<<component>>") {
        C4Level::Component
    } else {
        C4Level::Unknown
    }
}

/// What `extract_pattern` returns: the first recognized pattern name that
/// occurs anywhere in the text, or the `--` sentinel.
pub open spec fn pattern_of(s: Seq<char>) -> Seq<char> {
    if contains_seq(s, "Mediator"@) {
        "Mediator"@
    } else if contains_seq(s, "Observer"@) {
        "Observer"@
    } else if contains_seq(s, "Strategy"@) {
        "Strategy"@
    } else if contains_seq(s, "Facade"@) {
        "Facade"@
    } else if contains_seq(s, "Adapter"@) {
        "Adapter"@
    } else if contains_seq(s, "Repository"@) {
        "Repository"@
    } else if contains_seq(s, "Singleton"@) {
        "Singleton"@
    } else if contains_seq(s, "Factory"@) {
        "Factory"@
    } else if contains_seq(s, "Active Object"@) {
        "Active Object"@
    } else if contains_seq(s, "Memento"@) {
        "Memento"@
    } else if contains_seq(s, "Command"@) {
        "Command"@
    } else if contains_seq(s, "Chain of Responsibility"@) {
        "Chain of Responsibility"@
    } else if contains_seq(s, "Registry"@) {
        "Registry"@
    } else if contains_seq(s, "Composite"@) {
        "Composite"@
    } else if contains_seq(s, "Interpreter"@) {
        "Interpreter"@
    } else if contains_seq(s, "Flyweight"@) {
        "Flyweight"@
    } else if contains_seq(s, "Publisher"@) {
        "Publisher"@
    } else {
        "--"@
    }
}

/// Extract the primary design-pattern name from annotation text.
pub fn extract_pattern(content: &str) -> (r: String)
    ensures
        r@ == pattern_of(content@),
{
    let c = str_to_chars(content);
    if contains_lit(c.as_slice(), "Mediator") {
        String::from_str("Mediator")
    } else if contains_lit(c.as_slice(), "Observer") {
        String::from_str("Observer")
    } else if contains_lit(c.as_slice(), "Strategy") {
        String::from_str("Strategy")
    } else if contains_lit(c.as_slice(), "Facade") {
        String::from_str("Facade")
    } else if contains_lit(c.as_slice(), "Adapter") {
        String::from_str("Adapter")
    } else if contains_lit(c.as_slice(), "Repository") {
        String::from_str("Repository")
    } else if contains_lit(c.as_slice(), "Singleton") {
        String::from_str("Singleton")
    } else if contains_lit(c.as_slice(), "Factory") {
        String::from_str("Factory")
    } else if contains_lit(c.as_slice(), "Active Object") {
        String::from_str("Active Object")
    } else if contains_lit(c.as_slice(), "Memento") {
        String::from_str("Memento")
    } else if contains_lit(c.as_slice(), "Command") {
        String::from_str("Command")
    } else if contains_lit(c.as_slice(), "Chain of Responsibility") {
        String::from_str("Chain of Responsibility")
    } else if contains_lit(c.as_slice(), "Registry") {
        String::from_str("Registry")
    } else if contains_lit(c.as_slice(), "Composite") {
        String::from_str("Composite")
    } else if contains_lit(c.as_slice(), "Interpreter") {
        String::from_str("Interpreter")
    } else if contains_lit(c.as_slice(), "Flyweight") {
        String::from_str("Flyweight")
    } else if contains_lit(c.as_slice(), "Publisher") {
        String::from_str("Publisher")
    } else {
        String::from_str("--")
    }
}

/// What `extract_pattern_status` returns: `Verified` exactly when a
/// `(verified)` marker occurs.
pub open spec fn pattern_status_of(s: Seq<char>) -> PatternStatus {
    if contains_seq(s, "(verified)"@) {
        PatternStatus::Verified
    } else {
        PatternStatus::Planned
    }
}

/// Extract the pattern status from annotation text.
pub fn extract_pattern_status(content: &str) -> (r: PatternStatus)
    ensures
        r == pattern_status_of(content@),
{
    let c = str_to_chars(content);
    if contains_lit(c.as_slice(), "(verified)") {
        PatternStatus::Verified
    } else {
        PatternStatus::Planned
    }
}

/// A line that counts as a description: non-blank, not a heading, not a
/// marker, not a table row, not a pattern tag.
pub open spec fn is_description_line(line: Seq<char>) -> bool {
    let t = trim_spec(line);
    &&& t.len() > 0
    &&& !(t.len() >= 1 && t[0] == '#')
    &&& !contains_seq(t, "<<"@)
    &&& !(t.len() >= 1 && t[0] == '|')
    &&& !matches_at(t, "GoF:"@, 0)
}

/// The first description line among `lines`, if any.
pub open spec fn first_description(lines: Seq<Seq<char>>) -> Option<Seq<char>>
    decreases lines.len(),
{
    if lines.len() == 0 {
        None
    } else if is_description_line(lines[0]) {
        Some(lines[0])
    } else {
        first_description(lines.drop_first())
    }
}

/// What `extract_description` returns.
pub open spec fn description_of(s: Seq<char>) -> Seq<char> {
    match first_description(lines_of(s)) {
        Some(line) => trim_spec(line),
        None => "*No description*"@,
    }
}

/// Decide whether one line counts as a description line.
fn is_description_line_exec(line: &[char]) -> (r: bool)
    ensures
        r == is_description_line(line@),
{
    proof {
        reveal_strlit("GoF:");
    }
    let t = trim_chars(line);
    if t.len() == 0 {
        return false;
    }
    if t[0] == '#' || t[0] == '|' {
        return false;
    }
    if contains_lit(t.as_slice(), "<<") {
        return false;
    }
    if t.len() >= 4 && t[0] == 'G' && t[1] == 'o' && t[2] == 'F' && t[3] == ':' {
        proof {
            assert(trim_spec(line@).subrange(0, 4) =~= "GoF:"@) by {
                assert("GoF:"@[0] == 'G' && "GoF:"@[1] == 'o' && "GoF:"@[2] == 'F' && "GoF:"@[3]
                    == ':');
            }
        }
        return false;
    }
    proof {
        if matches_at(trim_spec(line@), "GoF:"@, 0) {
            assert(trim_spec(line@).subrange(0, 4)[0] == 'G');
            assert(trim_spec(line@).subrange(0, 4)[1] == 'o');
            assert(trim_spec(line@).subrange(0, 4)[2] == 'F');
            assert(trim_spec(line@).subrange(0, 4)[3] == ':');
            assert(false);
        }
    }
    true
}

/// Extract the first human-readable summary line from annotation text.
#[verifier::loop_isolation(false)]
pub fn extract_description(content: &str) -> (r: String)
    ensures
        r@ == description_of(content@),
{
    let c = str_to_chars(content);
    let lines = split_lines(c.as_slice());
    let ghost lv = lines_of(content@);
    let mut i: usize = 0;
    while i < lines.len()
        invariant
            lines@.map_values(|l: Vec<char>| l@) == lv,
            lines@.len() == lv.len(),
            i <= lv.len(),
            forall|j: int| 0 <= j < i ==> !is_description_line(lv[j]),
        decreases lv.len() - i,
    {
        proof {
            assert(lv[i as int] == lines@[i as int]@);
        }
        if is_description_line_exec(lines[i].as_slice()) {
            proof {
                lemma_first_description_at(lv, i as int);
            }
            let t = trim_chars(lines[i].as_slice());
            return chars_to_string(t.as_slice());
        }
        i = i + 1;
    }
    proof {
        lemma_first_description_none(lv);
    }
    String::from_str("*No description*")
}

/// Where earlier lines fail the test and line `k` passes, the search finds
/// line `k`.
proof fn lemma_first_description_at(lines: Seq<Seq<char>>, k: int)
    requires
        0 <= k < lines.len(),
        is_description_line(lines[k]),
        forall|j: int| 0 <= j < k ==> !is_description_line(lines[j]),
    ensures
        first_description(lines) == Some(lines[k]),
    decreases k,
{
    if k > 0 {
        let t = lines.drop_first();
        assert(forall|j: int| 0 <= j < k - 1 ==> t[j] == lines[j + 1]);
        assert(t[k - 1] == lines[k]);
        lemma_first_description_at(t, k - 1);
    }
}

/// Where no line passes the test, the search finds nothing.
proof fn lemma_first_description_none(lines: Seq<Seq<char>>)
    requires
        forall|j: int| 0 <= j < lines.len() ==> !is_description_line(lines[j]),
    ensures
        first_description(lines) is None,
    decreases lines.len(),
{
    if lines.len() > 0 {
        lemma_first_description_none(lines.drop_first());
    }
}

/// What `extract_parent_container` returns: the first dot-separated segment
/// of a nested module path, or nothing for a top-level module.
pub open spec fn parent_of(s: Seq<char>) -> Option<Seq<char>> {
    let k = first_index(s, '.');
    if k >= 0 {
        Some(s.subrange(0, k))
    } else {
        None
    }
}

/// Extract the parent container from a dot-notation module path.
pub fn extract_parent_container(mod_path: &str) -> (r: Option<String>)
    ensures
        match (parent_of(mod_path@), r) {
            (Some(p), Some(rv)) => rv@ == p,
            (None, None) => true,
            _ => false,
        },
{
    let c = str_to_chars(mod_path);
    let mut i: usize = 0;
    while i < c.len() && c[i] != '.'
        invariant
            i <= c@.len(),
            c@ == mod_path@,
            forall|k: int| 0 <= k < i ==> c@[k] != '.',
        decreases c@.len() - i,
    {
        i = i + 1;
    }
    if i == c.len() {
        proof {
            lemma_first_index_none(c@, '.');
        }
        None
    } else {
        proof {
            lemma_first_index_at(c@, '.', i as int);
        }
        let mut head: Vec<char> = Vec::new();
        let mut t: usize = 0;
        while t < i
            invariant
                t <= i <= c@.len(),
                head@ == c@.subrange(0, t as int),
            decreases i - t,
        {
            head.push(c[t]);
            assert(head@ =~= c@.subrange(0, t + 1 as int));
            t = t + 1;
        }
        Some(chars_to_string(head.as_slice()))
    }
}

/// The relationship declared on one line, if any: a trimmed
/// `<<uses: target, "label", "protocol">>` marker.
pub open spec fn rel_of_line(line: Seq<char>) -> Option<RelV> {
    let t = trim_spec(line);
    if matches_at(t, "<<uses:"@, 0) && crate::validate::ends_with(t, ">>"@) && t.len() >= 9 {
        let inner = t.subrange(7, t.len() - 2);
        let k1 = first_index(inner, ',');
        if k1 >= 0 {
            let rest = inner.skip(k1 + 1);
            let k2 = first_index(rest, ',');
            if k2 >= 0 {
                Some(
                    RelV {
                        target: trim_spec(inner.subrange(0, k1)),
                        label: crate::text::trim_char(trim_spec(rest.subrange(0, k2)), '"'),
                        protocol: crate::text::trim_char(
                            trim_spec(rest.skip(k2 + 1)),
                            '"',
                        ),
                    },
                )
            } else {
                None
            }
        } else {
            None
        }
    } else {
        None
    }
}

/// The relationships of the first `n` lines.
pub open spec fn rels_of(lines: Seq<Seq<char>>, n: int) -> Seq<RelV>
    decreases n,
{
    if n <= 0 {
        Seq::empty()
    } else {
        rels_of(lines, n - 1) + if n <= lines.len() {
            match rel_of_line(lines[n - 1]) {
                Some(r) => seq![r],
                None => Seq::empty(),
            }
        } else {
            Seq::empty()
        }
    }
}

/// Parse the relationship declared on one line, if any.
#[verifier::rlimit(100)]
fn rel_of_line_exec(line: &[char]) -> (r: Option<Relationship>)
    ensures
        match (rel_of_line(line@), r) {
            (Some(rv), Some(re)) => re@ == rv,
            (None, None) => true,
            _ => false,
        },
{
    proof {
        reveal_strlit("<<uses:");
        reveal_strlit(">>");
    }
    let t = trim_chars(line);
    let ghost tv = trim_spec(line@);
    if t.len() < 9 {
        proof {
            if matches_at(tv, "<<uses:"@, 0) && crate::validate::ends_with(tv, ">>"@) {
                assert(tv.len() >= 9 || tv.len() < 9);
            }
        }
        return None;
    }
    let prefix_ok = t[0] == '<' && t[1] == '<' && t[2] == 'u' && t[3] == 's' && t[4] == 'e' && t[5]
        == 's' && t[6] == ':';
    let n = t.len();
    let suffix_ok = t[n - 2] == '>' && t[n - 1] == '>';
    proof {
        assert("<<uses:"@.len() == 7);
        assert(">>"@.len() == 2);
        if prefix_ok {
            assert(tv.subrange(0, 7) =~= "<<uses:"@) by {
                assert("<<uses:"@[0] == '<' && "<<uses:"@[1] == '<' && "<<uses:"@[2] == 'u'
                    && "<<uses:"@[3] == 's' && "<<uses:"@[4] == 'e' && "<<uses:"@[5] == 's'
                    && "<<uses:"@[6] == ':');
            }
        } else {
            if matches_at(tv, "<<uses:"@, 0) {
                assert(tv.subrange(0, 7)[0] == '<' && tv.subrange(0, 7)[1] == '<' && tv.subrange(
                    0,
                    7,
                )[2] == 'u' && tv.subrange(0, 7)[3] == 's' && tv.subrange(0, 7)[4] == 'e'
                    && tv.subrange(0, 7)[5] == 's' && tv.subrange(0, 7)[6] == ':');
                assert(false);
            }
        }
        if suffix_ok {
            assert(tv.subrange(tv.len() - 2, tv.len() as int) =~= ">>"@) by {
                assert(">>"@[0] == '>' && ">>"@[1] == '>');
            }
        } else {
            if crate::validate::ends_with(tv, ">>"@) {
                assert(tv.subrange(tv.len() - 2, tv.len() as int)[0] == '>');
                assert(tv.subrange(tv.len() - 2, tv.len() as int)[1] == '>');
                assert(false);
            }
        }
    }
    if !(prefix_ok && suffix_ok) {
        return None;
    }
    let mut inner: Vec<char> = Vec::new();
    let mut i: usize = 7;
    while i < n - 2
        invariant
            7 <= i <= n - 2,
            n == tv.len(),
            t@ == tv,
            inner@ == tv.subrange(7, i as int),
        decreases n - 2 - i,
    {
        inner.push(t[i]);
        assert(inner@ =~= tv.subrange(7, i + 1 as int));
        i = i + 1;
    }
    let ghost iv = tv.subrange(7, tv.len() - 2);
    let m = inner.len();
    let mut k1: usize = 0;
    while k1 < m && inner[k1] != ','
        invariant
            k1 <= m,
            m == iv.len(),
            inner@ == iv,
            forall|j: int| 0 <= j < k1 ==> iv[j] != ',',
        decreases m - k1,
    {
        k1 = k1 + 1;
    }
    if k1 == m {
        proof {
            lemma_first_index_none(iv, ',');
        }
        return None;
    }
    proof {
        lemma_first_index_at(iv, ',', k1 as int);
    }
    let ghost restv = iv.skip(k1 + 1);
    let mut k2: usize = k1 + 1;
    while k2 < m && inner[k2] != ','
        invariant
            k1 + 1 <= k2 <= m,
            m == iv.len(),
            inner@ == iv,
            forall|j: int| k1 + 1 <= j < k2 ==> iv[j] != ',',
        decreases m - k2,
    {
        k2 = k2 + 1;
    }
    proof {
        assert(forall|j: int| 0 <= j < restv.len() ==> restv[j] == iv[j + k1 + 1]);
    }
    if k2 == m {
        proof {
            lemma_first_index_none(restv, ',');
        }
        return None;
    }
    proof {
        assert(restv[k2 - k1 - 1] == iv[k2 as int]);
        lemma_first_index_at(restv, ',', k2 - k1 - 1);
    }
    let p0 = slice_range_pub(inner.as_slice(), 0, k1);
    let p1 = slice_range_pub(inner.as_slice(), k1 + 1, k2);
    let p2 = slice_range_pub(inner.as_slice(), k2 + 1, m);
    proof {
        assert(p0@ == iv.subrange(0, k1 as int));
        assert(p1@ =~= restv.subrange(0, k2 - k1 - 1));
        assert(p2@ =~= restv.skip(k2 - k1));
    }
    let target = trim_chars(p0.as_slice());
    let label_t = trim_chars(p1.as_slice());
    let label = crate::text::trim_char_chars(label_t.as_slice(), '"');
    let proto_t = trim_chars(p2.as_slice());
    let protocol = crate::text::trim_char_chars(proto_t.as_slice(), '"');
    Some(
        Relationship {
            target: chars_to_string(target.as_slice()),
            label: chars_to_string(label.as_slice()),
            protocol: chars_to_string(protocol.as_slice()),
        },
    )
}

/// Copy a sub-range of a character slice.
pub fn slice_range_pub(s: &[char], a: usize, b: usize) -> (r: Vec<char>)
    requires
        a <= b <= s@.len(),
    ensures
        r@ == s@.subrange(a as int, b as int),
{
    let mut r: Vec<char> = Vec::new();
    let mut i: usize = a;
    while i < b
        invariant
            a <= i <= b <= s@.len(),
            r@ == s@.subrange(a as int, i as int),
        decreases b - i,
    {
        r.push(s[i]);
        assert(r@ =~= s@.subrange(a as int, i + 1 as int));
        i = i + 1;
    }
    r
}

/// Parse `<<uses: target, "label", "protocol">>` markers from annotation
/// text, one per line.
#[verifier::loop_isolation(false)]
pub fn extract_relationships(content: &str) -> (r: Vec<Relationship>)
    ensures
        r@.map_values(|x: Relationship| x@) == rels_of(
            lines_of(content@),
            lines_of(content@).len() as int,
        ),
{
    let c = str_to_chars(content);
    let lines = split_lines(c.as_slice());
    let ghost lv = lines_of(content@);
    let mut out: Vec<Relationship> = Vec::new();
    let mut i: usize = 0;
    proof {
        assert(out@.map_values(|x: Relationship| x@) =~= Seq::<RelV>::empty());
    }
    while i < lines.len()
        invariant
            lines@.map_values(|l: Vec<char>| l@) == lv,
            lines@.len() == lv.len(),
            i <= lv.len(),
            out@.map_values(|x: Relationship| x@) == rels_of(lv, i as int),
        decreases lv.len() - i,
    {
        proof {
            assert(lv[i as int] == lines@[i as int]@);
        }
        match rel_of_line_exec(lines[i].as_slice()) {
            Some(rel) => {
                let ghost o0 = out@;
                let ghost rv = rel@;
                out.push(rel);
                proof {
                    assert(out@.map_values(|x: Relationship| x@) =~= o0.map_values(
                        |x: Relationship| x@,
                    ).push(rv)) by {
                        assert(out@ =~= o0.push(out@[o0.len() as int]));
                    }
                    assert(out@.map_values(|x: Relationship| x@) =~= rels_of(lv, i + 1));
                }
            },
            None => {
                proof {
                    assert(out@.map_values(|x: Relationship| x@) =~= rels_of(lv, i + 1));
                }
            },
        }
        i = i + 1;
    }
    out
}

/// The trimmed, non-blank cells of a table row.
pub open spec fn cells_of(t: Seq<char>) -> Seq<Seq<char>> {
    split_sep(t, '|').map_values(|c: Seq<char>| trim_spec(c)).filter(|c: Seq<char>| c.len() > 0)
}

/// A header row of the file table.
pub open spec fn is_header_row(t: Seq<char>) -> bool {
    &&& t.len() >= 1 && t[0] == '|'
    &&& contains_seq(t, "File"@) || contains_seq(t, "file"@)
    &&& contains_seq(t, "Pattern"@) || contains_seq(t, "pattern"@)
}

/// The separator row under the header.
pub open spec fn is_sep_row(t: Seq<char>) -> bool {
    t.len() >= 1 && t[0] == '|' && contains_seq(t, "---"@)
}

/// A pattern cell `Strategy (verified)` split into name and confidence.
pub open spec fn pattern_field_of(field: Seq<char>) -> (Seq<char>, PatternStatus) {
    let p = trim_spec(field);
    let k = first_index(p, '(');
    if k >= 0 {
        (
            trim_spec(p.subrange(0, k)),
            status_parse_spec(crate::text::trim_char_end(p.skip(k + 1), ')')),
        )
    } else {
        (p, PatternStatus::Planned)
    }
}

/// The catalog entry of one data row, where it has enough cells.
pub open spec fn row_entry(cs: Seq<Seq<char>>) -> Option<FileV> {
    if cs.len() >= 4 {
        Some(
            FileV {
                name: trim_spec(crate::text::trim_char(cs[0], '`')),
                pattern: pattern_field_of(cs[1]).0,
                pattern_status: pattern_field_of(cs[1]).1,
                purpose: cs[2],
                health: health_parse_spec(cs[3]),
            },
        )
    } else {
        None
    }
}

/// One step of the table scan: 0 seeks the header, 1 awaits the separator,
/// 2 reads data rows, 3 is past the table.
pub open spec fn table_step(mode: int, entries: Seq<FileV>, line: Seq<char>) -> (
    int,
    Seq<FileV>,
) {
    let t = trim_spec(line);
    if mode == 0 {
        if is_header_row(t) {
            (1, entries)
        } else {
            (0, entries)
        }
    } else if mode == 1 {
        if is_sep_row(t) {
            (2, entries)
        } else {
            (1, entries)
        }
    } else if mode == 2 {
        if !(t.len() >= 1 && t[0] == '|') {
            (3, entries)
        } else {
            match row_entry(cells_of(t)) {
                Some(e) => (2, entries.push(e)),
                None => (2, entries),
            }
        }
    } else {
        (3, entries)
    }
}

/// The table scan over the first `n` lines.
pub open spec fn table_fold(lines: Seq<Seq<char>>, n: int) -> (int, Seq<FileV>)
    decreases n,
{
    if n <= 0 || n > lines.len() {
        (0, Seq::empty())
    } else {
        let prev = table_fold(lines, n - 1);
        table_step(prev.0, prev.1, lines[n - 1])
    }
}

/// What `extract_file_table` returns.
pub open spec fn file_table_of(s: Seq<char>) -> Seq<FileV> {
    table_fold(lines_of(s), lines_of(s).len() as int).1
}

/// The trimmed, non-blank cells of a row.
#[verifier::loop_isolation(false)]
fn cells_exec(t: &[char]) -> (r: Vec<Vec<char>>)
    ensures
        r@.map_values(|c: Vec<char>| c@) == cells_of(t@),
{
    let pieces = crate::text::split_pieces(t, '|');
    let ghost all = split_sep(t@, '|');
    let ghost trimmed = all.map_values(|c: Seq<char>| trim_spec(c));
    let mut out: Vec<Vec<char>> = Vec::new();
    let mut i: usize = 0;
    proof {
        assert(trimmed.subrange(0, 0) =~= Seq::<Seq<char>>::empty());
        assert(out@.map_values(|c: Vec<char>| c@) =~= trimmed.subrange(0, 0).filter(
            |c: Seq<char>| c.len() > 0,
        ));
        reveal(Seq::filter);
    }
    while i < pieces.len()
        invariant
            pieces@.map_values(|c: Vec<char>| c@) == all,
            all.len() == pieces@.len(),
            trimmed.len() == all.len(),
            i <= all.len(),
            out@.map_values(|c: Vec<char>| c@) == trimmed.subrange(0, i as int).filter(
                |c: Seq<char>| c.len() > 0,
            ),
        decreases all.len() - i,
    {
        proof {
            reveal(Seq::filter);
            assert(all[i as int] == pieces@[i as int]@);
            assert(trimmed[i as int] == trim_spec(all[i as int]));
            assert(trimmed.subrange(0, i + 1).drop_last() =~= trimmed.subrange(0, i as int));
            assert(trimmed.subrange(0, i + 1).last() == trimmed[i as int]);
        }
        let cell = trim_chars(pieces[i].as_slice());
        if cell.len() > 0 {
            let ghost o0 = out@;
            let ghost cv = cell@;
            out.push(cell);
            proof {
                assert(out@.map_values(|c: Vec<char>| c@) =~= o0.map_values(|c: Vec<char>| c@)
                    .push(cv)) by {
                    assert(out@ =~= o0.push(out@[o0.len() as int]));
                }
                assert(out@.map_values(|c: Vec<char>| c@) =~= trimmed.subrange(0, i + 1).filter(
                    |c: Seq<char>| c.len() > 0,
                ));
            }
        } else {
            proof {
                assert(out@.map_values(|c: Vec<char>| c@) =~= trimmed.subrange(0, i + 1).filter(
                    |c: Seq<char>| c.len() > 0,
                ));
            }
        }
        i = i + 1;
    }
    proof {
        assert(trimmed.subrange(0, trimmed.len() as int) =~= trimmed);
    }
    out
}

/// Split a pattern cell into its name and confidence.
fn pattern_field_exec(field: &[char]) -> (r: (String, PatternStatus))
    ensures
        r.0@ == pattern_field_of(field@).0,
        r.1 == pattern_field_of(field@).1,
{
    let p = trim_chars(field);
    let ghost pv = trim_spec(field@);
    let mut k: usize = 0;
    while k < p.len() && p[k] != '('
        invariant
            k <= p@.len(),
            p@ == pv,
            forall|j: int| 0 <= j < k ==> pv[j] != '(',
        decreases p@.len() - k,
    {
        k = k + 1;
    }
    if k == p.len() {
        proof {
            lemma_first_index_none(pv, '(');
        }
        (chars_to_string(p.as_slice()), PatternStatus::Planned)
    } else {
        proof {
            lemma_first_index_at(pv, '(', k as int);
        }
        let head = slice_range_pub(p.as_slice(), 0, k);
        let name = trim_chars(head.as_slice());
        let tail = slice_range_pub(p.as_slice(), k + 1, p.len());
        proof {
            assert(tail@ =~= pv.skip(k + 1));
        }
        let closed = crate::text::trim_char_end_chars(tail.as_slice(), ')');
        let status_text = chars_to_string(closed.as_slice());
        let status = PatternStatus::parse(status_text.as_str());
        (chars_to_string(name.as_slice()), status)
    }
}

/// Parse the markdown file table of an annotation into catalog entries:
/// a header row naming `File` and `Pattern` columns, a separator row, then
/// one data row per file until the table ends.
#[verifier::loop_isolation(false)]
#[verifier::rlimit(100)]
pub fn extract_file_table(content: &str) -> (r: Vec<FileEntry>)
    ensures
        r@.map_values(|f: FileEntry| f@) == file_table_of(content@),
{
    let c = str_to_chars(content);
    let lines = split_lines(c.as_slice());
    let ghost lv = lines_of(content@);
    let mut out: Vec<FileEntry> = Vec::new();
    let mut mode: u8 = 0;
    let mut i: usize = 0;
    proof {
        assert(out@.map_values(|f: FileEntry| f@) =~= Seq::<FileV>::empty());
    }
    while i < lines.len()
        invariant
            lines@.map_values(|l: Vec<char>| l@) == lv,
            lines@.len() == lv.len(),
            i <= lv.len(),
            mode <= 3,
            mode as int == table_fold(lv, i as int).0,
            out@.map_values(|f: FileEntry| f@) == table_fold(lv, i as int).1,
        decreases lv.len() - i,
    {
        proof {
            assert(lv[i as int] == lines@[i as int]@);
        }
        let t = trim_chars(lines[i].as_slice());
        let ghost tv = trim_spec(lv[i as int]);
        if mode == 0 {
            let header = t.len() >= 1 && t[0] == '|' && (contains_lit(t.as_slice(), "File")
                || contains_lit(t.as_slice(), "file")) && (contains_lit(t.as_slice(), "Pattern")
                || contains_lit(t.as_slice(), "pattern"));
            if header {
                mode = 1;
            }
            proof {
                assert(header == is_header_row(tv));
            }
        } else if mode == 1 {
            let sep = t.len() >= 1 && t[0] == '|' && contains_lit(t.as_slice(), "---");
            if sep {
                mode = 2;
            }
            proof {
                assert(sep == is_sep_row(tv));
            }
        } else if mode == 2 {
            if !(t.len() >= 1 && t[0] == '|') {
                mode = 3;
            } else {
                let cs = cells_exec(t.as_slice());
                let ghost csv = cells_of(tv);
                proof {
                    assert(cs@.map_values(|x: Vec<char>| x@) == csv);
                }
                if cs.len() >= 4 {
                    proof {
                        assert(csv[0] == cs@[0]@);
                        assert(csv[1] == cs@[1]@);
                        assert(csv[2] == cs@[2]@);
                        assert(csv[3] == cs@[3]@);
                    }
                    let ticked = crate::text::trim_char_chars(cs[0].as_slice(), '`');
                    let name = trim_chars(ticked.as_slice());
                    let (pattern, pattern_status) = pattern_field_exec(cs[1].as_slice());
                    let purpose = chars_to_string(cs[2].as_slice());
                    let health_text = chars_to_string(cs[3].as_slice());
                    let health = HealthStatus::parse(health_text.as_str());
                    let entry = FileEntry {
                        name: chars_to_string(name.as_slice()),
                        pattern,
                        pattern_status,
                        purpose,
                        health,
                    };
                    let ghost o0 = out@;
                    let ghost entv = entry@;
                    proof {
                        assert(entv =~= row_entry(csv)->0);
                    }
                    out.push(entry);
                    proof {
                        assert(out@.map_values(|f: FileEntry| f@) =~= o0.map_values(
                            |f: FileEntry| f@,
                        ).push(entv)) by {
                            assert(out@ =~= o0.push(out@[o0.len() as int]));
                        }
                    }
                }
            }
        }
        proof {
            assert(mode as int == table_step(
                table_fold(lv, i as int).0,
                table_fold(lv, i as int).1,
                lv[i as int],
            ).0);
            assert(out@.map_values(|f: FileEntry| f@) =~= table_step(
                table_fold(lv, i as int).0,
                table_fold(lv, i as int).1,
                lv[i as int],
            ).1);
        }
        i = i + 1;
    }
    out
}

} // verus!
