//! The IR wire format: a JSON array of module objects.
//!
//! This module is the serialization boundary of the whole system. The writer
//! emits one canonical, compact form: objects with the known fields in a
//! fixed order, strings with a minimal escape set (`\"`, `\\`, `\n`, `\r`,
//! `\t`, and `\u00XX` for the remaining control characters), no whitespace.
//! The reader accepts that form with arbitrary JSON blanks between tokens,
//! and rejects everything else: a payload that is not an array, an object
//! missing a field or holding one of the wrong shape, and an enum field
//! holding an unrecognized token.

use vstd::prelude::*;

use crate::text::{is_ws, is_ws_char, chars_eq_str, str_to_chars, push_char, chars_to_string};
use crate::types::{
    c4_token, health_token, status_token, C4Level, DocV, FileV, HealthStatus, ModuleDoc,
    PatternStatus, RelV, Relationship, FileEntry, docs_view,
};

verus! {

// ---------------------------------------------------------------------------
// Characters
// ---------------------------------------------------------------------------

/// The decimal digit characters.
pub open spec fn digit_char(d: nat) -> char {
    if d == 0 {
        '0'
    } else if d == 1 {
        '1'
    } else if d == 2 {
        '2'
    } else if d == 3 {
        '3'
    } else if d == 4 {
        '4'
    } else if d == 5 {
        '5'
    } else if d == 6 {
        '6'
    } else if d == 7 {
        '7'
    } else if d == 8 {
        '8'
    } else {
        '9'
    }
}

/// The lower-case hexadecimal digit characters.
pub open spec fn hex_char(d: nat) -> char {
    if d < 10 {
        digit_char(d)
    } else if d == 10 {
        'a'
    } else if d == 11 {
        'b'
    } else if d == 12 {
        'c'
    } else if d == 13 {
        'd'
    } else if d == 14 {
        'e'
    } else {
        'f'
    }
}

/// The value of a lower-case hexadecimal digit character, or -1.
pub open spec fn hex_val(c: char) -> int {
    if c == '0' {
        0
    } else if c == '1' {
        1
    } else if c == '2' {
        2
    } else if c == '3' {
        3
    } else if c == '4' {
        4
    } else if c == '5' {
        5
    } else if c == '6' {
        6
    } else if c == '7' {
        7
    } else if c == '8' {
        8
    } else if c == '9' {
        9
    } else if c == 'a' {
        10
    } else if c == 'b' {
        11
    } else if c == 'c' {
        12
    } else if c == 'd' {
        13
    } else if c == 'e' {
        14
    } else if c == 'f' {
        15
    } else {
        -1
    }
}

/// The control character with code point `n` (below 32).
pub open spec fn ctl_char(n: nat) -> char {
    if n == 0 {
        '\u{0}'
    } else if n == 1 {
        '\u{1}'
    } else if n == 2 {
        '\u{2}'
    } else if n == 3 {
        '\u{3}'
    } else if n == 4 {
        '\u{4}'
    } else if n == 5 {
        '\u{5}'
    } else if n == 6 {
        '\u{6}'
    } else if n == 7 {
        '\u{7}'
    } else if n == 8 {
        '\u{8}'
    } else if n == 9 {
        '\t'
    } else if n == 10 {
        '\n'
    } else if n == 11 {
        '\u{b}'
    } else if n == 12 {
        '\u{c}'
    } else if n == 13 {
        '\r'
    } else if n == 14 {
        '\u{e}'
    } else if n == 15 {
        '\u{f}'
    } else if n == 16 {
        '\u{10}'
    } else if n == 17 {
        '\u{11}'
    } else if n == 18 {
        '\u{12}'
    } else if n == 19 {
        '\u{13}'
    } else if n == 20 {
        '\u{14}'
    } else if n == 21 {
        '\u{15}'
    } else if n == 22 {
        '\u{16}'
    } else if n == 23 {
        '\u{17}'
    } else if n == 24 {
        '\u{18}'
    } else if n == 25 {
        '\u{19}'
    } else if n == 26 {
        '\u{1a}'
    } else if n == 27 {
        '\u{1b}'
    } else if n == 28 {
        '\u{1c}'
    } else if n == 29 {
        '\u{1d}'
    } else if n == 30 {
        '\u{1e}'
    } else {
        '\u{1f}'
    }
}

/// The code point of `ctl_char(n)` is `n` again.
pub proof fn lemma_ctl_char_val(n: nat)
    requires
        n < 32,
    ensures
        ctl_char(n) as int == n,
{
}

// ---------------------------------------------------------------------------
// Writer, in the model
// ---------------------------------------------------------------------------

/// The escape of one character inside a JSON string.
pub open spec fn esc_char(c: char) -> Seq<char> {
    if c == '"' {
        seq!['\\', '"']
    } else if c == '\\' {
        seq!['\\', '\\']
    } else if c == '\n' {
        seq!['\\', 'n']
    } else if c == '\r' {
        seq!['\\', 'r']
    } else if c == '\t' {
        seq!['\\', 't']
    } else if (c as int) < 32 {
        seq!['\\', 'u', '0', '0', hex_char(((c as int) / 16) as nat), hex_char(
            ((c as int) % 16) as nat,
        )]
    } else {
        seq![c]
    }
}

/// The escape of a whole string body.
pub open spec fn esc_str(s: Seq<char>) -> Seq<char>
    decreases s.len(),
{
    if s.len() == 0 {
        Seq::empty()
    } else {
        esc_char(s[0]) + esc_str(s.drop_first())
    }
}

/// A JSON string: quote, escaped body, quote.
#[verifier::opaque]
pub open spec fn ser_str(s: Seq<char>) -> Seq<char> {
    seq!['"'] + esc_str(s) + seq!['"']
}

/// A key followed by a colon.
#[verifier::opaque]
pub open spec fn ser_key(k: Seq<char>) -> Seq<char> {
    ser_str(k) + seq![':']
}

/// An optional string: `null` or a JSON string.
pub open spec fn ser_opt_str(s: Option<Seq<char>>) -> Seq<char> {
    match s {
        None => "null"@,
        Some(v) => ser_str(v),
    }
}

/// One relationship object.
#[verifier::opaque]
pub open spec fn ser_rel(r: RelV) -> Seq<char> {
    seq!['{'] + ser_key("target"@) + ser_str(r.target) + seq![','] + ser_key("label"@) + ser_str(
        r.label,
    ) + seq![','] + ser_key("protocol"@) + ser_str(r.protocol) + seq!['}']
}

/// One file-catalog entry object.
#[verifier::opaque]
pub open spec fn ser_file(f: FileV) -> Seq<char> {
    seq!['{'] + ser_key("name"@) + ser_str(f.name) + seq![','] + ser_key("pattern"@) + ser_str(
        f.pattern,
    ) + seq![','] + ser_key("pattern_status"@) + ser_str(status_token(f.pattern_status)) + seq![
        ',',
    ] + ser_key("purpose"@) + ser_str(f.purpose) + seq![','] + ser_key("health"@) + ser_str(
        health_token(f.health),
    ) + seq!['}']
}

/// The body of an array: items joined by commas.
pub open spec fn ser_rels_body(rs: Seq<RelV>) -> Seq<char>
    decreases rs.len(),
{
    if rs.len() == 0 {
        Seq::empty()
    } else if rs.len() == 1 {
        ser_rel(rs[0])
    } else {
        ser_rel(rs[0]) + seq![','] + ser_rels_body(rs.drop_first())
    }
}

/// A relationship array.
pub open spec fn ser_rels(rs: Seq<RelV>) -> Seq<char> {
    seq!['['] + ser_rels_body(rs) + seq![']']
}

/// The body of a file array: items joined by commas.
pub open spec fn ser_files_body(fs: Seq<FileV>) -> Seq<char>
    decreases fs.len(),
{
    if fs.len() == 0 {
        Seq::empty()
    } else if fs.len() == 1 {
        ser_file(fs[0])
    } else {
        ser_file(fs[0]) + seq![','] + ser_files_body(fs.drop_first())
    }
}

/// A file array.
pub open spec fn ser_files(fs: Seq<FileV>) -> Seq<char> {
    seq!['['] + ser_files_body(fs) + seq![']']
}

/// The first third of a module object: path, content and source file.
#[verifier::opaque]
pub open spec fn ser_doc_1(d: DocV) -> Seq<char> {
    seq!['{'] + ser_key("module_path"@) + ser_str(d.mod_path) + seq![','] + ser_key("content"@)
        + ser_str(d.content) + seq![','] + ser_key("source_file"@) + ser_str(d.source_file) + seq![
        ',',
    ]
}

/// The middle third of a module object: level, pattern and status.
#[verifier::opaque]
pub open spec fn ser_doc_2(d: DocV) -> Seq<char> {
    ser_key("c4_level"@) + ser_str(c4_token(d.c4_level)) + seq![','] + ser_key("pattern"@)
        + ser_str(d.pattern) + seq![','] + ser_key("pattern_status"@) + ser_str(
        status_token(d.pattern_status),
    ) + seq![',']
}

/// The last third of a module object: description, parent, edges, catalog.
#[verifier::opaque]
pub open spec fn ser_doc_3(d: DocV) -> Seq<char> {
    ser_key("description"@) + ser_str(d.description) + seq![','] + ser_key("parent_container"@)
        + ser_opt_str(d.parent_container) + seq![','] + ser_key("relationships"@) + ser_rels(
        d.relationships,
    ) + seq![','] + ser_key("files"@) + ser_files(d.files) + seq!['}']
}

/// One module object, fields in canonical order.
pub open spec fn ser_doc(d: DocV) -> Seq<char> {
    ser_doc_1(d) + ser_doc_2(d) + ser_doc_3(d)
}

/// The body of the top-level array.
pub open spec fn ser_docs_body(ds: Seq<DocV>) -> Seq<char>
    decreases ds.len(),
{
    if ds.len() == 0 {
        Seq::empty()
    } else if ds.len() == 1 {
        ser_doc(ds[0])
    } else {
        ser_doc(ds[0]) + seq![','] + ser_docs_body(ds.drop_first())
    }
}

/// The whole serialized IR: an array of module objects.
pub open spec fn ser_docs(ds: Seq<DocV>) -> Seq<char> {
    seq!['['] + ser_docs_body(ds) + seq![']']
}

// ---------------------------------------------------------------------------
// Reader, in the model
// ---------------------------------------------------------------------------

/// Drop leading JSON blanks.
pub open spec fn skip_ws(s: Seq<char>) -> Seq<char>
    decreases s.len(),
{
    if s.len() > 0 && is_ws(s[0]) {
        skip_ws(s.drop_first())
    } else {
        s
    }
}

/// Expect one punctuation character, blanks allowed before it.
pub open spec fn p_tok(s: Seq<char>, c: char) -> Option<Seq<char>> {
    let t = skip_ws(s);
    if t.len() > 0 && t[0] == c {
        Some(t.drop_first())
    } else {
        None
    }
}

/// The unescaped meaning of a single-letter escape.
pub open spec fn unesc(e: char) -> char {
    if e == '"' {
        '"'
    } else if e == '\\' {
        '\\'
    } else if e == 'n' {
        '\n'
    } else if e == 'r' {
        '\r'
    } else {
        '\t'
    }
}

/// Parse a string body up to its closing quote.
pub open spec fn p_str_body(s: Seq<char>) -> Option<(Seq<char>, Seq<char>)>
    decreases s.len(),
{
    if s.len() == 0 {
        None
    } else if s[0] == '"' {
        Some((Seq::empty(), s.drop_first()))
    } else if s[0] == '\\' {
        if s.len() < 2 {
            None
        } else if s[1] == '"' || s[1] == '\\' || s[1] == 'n' || s[1] == 'r' || s[1] == 't' {
            match p_str_body(s.skip(2)) {
                Some((v, r)) => Some((seq![unesc(s[1])] + v, r)),
                None => None,
            }
        } else if s[1] == 'u' {
            if s.len() < 6 {
                None
            } else if s[2] == '0' && s[3] == '0' && (s[4] == '0' || s[4] == '1') && 0 <= hex_val(
                s[5],
            ) {
                match p_str_body(s.skip(6)) {
                    Some((v, r)) => Some(
                        (seq![ctl_char((hex_val(s[4]) * 16 + hex_val(s[5])) as nat)] + v, r),
                    ),
                    None => None,
                }
            } else {
                None
            }
        } else {
            None
        }
    } else {
        match p_str_body(s.drop_first()) {
            Some((v, r)) => Some((seq![s[0]] + v, r)),
            None => None,
        }
    }
}

/// Parse a JSON string, blanks allowed before it.
pub open spec fn p_string(s: Seq<char>) -> Option<(Seq<char>, Seq<char>)> {
    let t = skip_ws(s);
    if t.len() > 0 && t[0] == '"' {
        p_str_body(t.drop_first())
    } else {
        None
    }
}

/// Parse one expected key followed by its colon.
pub open spec fn p_key(s: Seq<char>, key: Seq<char>) -> Option<Seq<char>> {
    match p_string(s) {
        Some((k, r)) => if k == key {
            p_tok(r, ':')
        } else {
            None
        },
        None => None,
    }
}

/// Parse a C4 level token; an unrecognized token is rejected.
pub open spec fn p_level(s: Seq<char>) -> Option<(C4Level, Seq<char>)> {
    match p_string(s) {
        Some((k, r)) => if k == "container"@ {
            Some((C4Level::Container, r))
        } else if k == "component"@ {
            Some((C4Level::Component, r))
        } else if k == "unknown"@ {
            Some((C4Level::Unknown, r))
        } else {
            None
        },
        None => None,
    }
}

/// Parse a pattern-status token; an unrecognized token is rejected.
pub open spec fn p_status(s: Seq<char>) -> Option<(PatternStatus, Seq<char>)> {
    match p_string(s) {
        Some((k, r)) => if k == "planned"@ {
            Some((PatternStatus::Planned, r))
        } else if k == "verified"@ {
            Some((PatternStatus::Verified, r))
        } else {
            None
        },
        None => None,
    }
}

/// Parse a health token; an unrecognized token is rejected.
pub open spec fn p_health(s: Seq<char>) -> Option<(HealthStatus, Seq<char>)> {
    match p_string(s) {
        Some((k, r)) => if k == "planned"@ {
            Some((HealthStatus::Planned, r))
        } else if k == "active"@ {
            Some((HealthStatus::Active, r))
        } else if k == "stable"@ {
            Some((HealthStatus::Stable, r))
        } else {
            None
        },
        None => None,
    }
}

/// Parse `null` or a JSON string.
pub open spec fn p_opt_str(s: Seq<char>) -> Option<(Option<Seq<char>>, Seq<char>)> {
    let t = skip_ws(s);
    if t.len() >= 4 && t.subrange(0, 4) == "null"@ {
        Some((None, t.skip(4)))
    } else {
        match p_string(s) {
            Some((v, r)) => Some((Some(v), r)),
            None => None,
        }
    }
}

/// Parse one relationship object.
pub open spec fn p_rel(s: Seq<char>) -> Option<(RelV, Seq<char>)> {
    match p_tok(s, '{') {
        Some(r0) => match p_key(r0, "target"@) {
            Some(r1) => match p_string(r1) {
                Some((target, r2)) => match p_tok(r2, ',') {
                    Some(r3) => match p_key(r3, "label"@) {
                        Some(r4) => match p_string(r4) {
                            Some((label, r5)) => match p_tok(r5, ',') {
                                Some(r6) => match p_key(r6, "protocol"@) {
                                    Some(r7) => match p_string(r7) {
                                        Some((protocol, r8)) => match p_tok(r8, '}') {
                                            Some(r9) => Some(
                                                (RelV { target, label, protocol }, r9),
                                            ),
                                            None => None,
                                        },
                                        None => None,
                                    },
                                    None => None,
                                },
                                None => None,
                            },
                            None => None,
                        },
                        None => None,
                    },
                    None => None,
                },
                None => None,
            },
            None => None,
        },
        None => None,
    }
}

/// Parse the rest of a relationship array after its first item is due.
pub open spec fn p_rels_tail(s: Seq<char>) -> Option<(Seq<RelV>, Seq<char>)>
    decreases s.len(),
{
    match p_rel(s) {
        Some((v, r)) => {
            let t = skip_ws(r);
            if t.len() > 0 && t[0] == ',' {
                if t.drop_first().len() < s.len() {
                    match p_rels_tail(t.drop_first()) {
                        Some((vs, r2)) => Some((seq![v] + vs, r2)),
                        None => None,
                    }
                } else {
                    None
                }
            } else if t.len() > 0 && t[0] == ']' {
                Some((seq![v], t.drop_first()))
            } else {
                None
            }
        },
        None => None,
    }
}

/// Parse a relationship array.
pub open spec fn p_rels(s: Seq<char>) -> Option<(Seq<RelV>, Seq<char>)> {
    match p_tok(s, '[') {
        Some(r0) => {
            let t = skip_ws(r0);
            if t.len() > 0 && t[0] == ']' {
                Some((Seq::empty(), t.drop_first()))
            } else {
                p_rels_tail(r0)
            }
        },
        None => None,
    }
}

/// Parse one file-catalog entry object.
pub open spec fn p_file(s: Seq<char>) -> Option<(FileV, Seq<char>)> {
    match p_tok(s, '{') {
        Some(r0) => match p_key(r0, "name"@) {
            Some(r1) => match p_string(r1) {
                Some((name, r2)) => match p_tok(r2, ',') {
                    Some(r3) => match p_key(r3, "pattern"@) {
                        Some(r4) => match p_string(r4) {
                            Some((pattern, r5)) => match p_tok(r5, ',') {
                                Some(r6) => match p_key(r6, "pattern_status"@) {
                                    Some(r7) => match p_status(r7) {
                                        Some((pattern_status, r8)) => match p_tok(r8, ',') {
                                            Some(r9) => match p_key(r9, "purpose"@) {
                                                Some(r10) => match p_string(r10) {
                                                    Some((purpose, r11)) => match p_tok(r11, ',') {
                                                        Some(r12) => match p_key(r12, "health"@) {
                                                            Some(r13) => match p_health(r13) {
                                                                Some((health, r14)) => match p_tok(
                                                                    r14,
                                                                    '}',
                                                                ) {
                                                                    Some(r15) => Some(
                                                                        (
                                                                            FileV {
                                                                                name,
                                                                                pattern,
                                                                                pattern_status,
                                                                                purpose,
                                                                                health,
                                                                            },
                                                                            r15,
                                                                        ),
                                                                    ),
                                                                    None => None,
                                                                },
                                                                None => None,
                                                            },
                                                            None => None,
                                                        },
                                                        None => None,
                                                    },
                                                    None => None,
                                                },
                                                None => None,
                                            },
                                            None => None,
                                        },
                                        None => None,
                                    },
                                    None => None,
                                },
                                None => None,
                            },
                            None => None,
                        },
                        None => None,
                    },
                    None => None,
                },
                None => None,
            },
            None => None,
        },
        None => None,
    }
}

/// Parse the rest of a file array after its first item is due.
pub open spec fn p_files_tail(s: Seq<char>) -> Option<(Seq<FileV>, Seq<char>)>
    decreases s.len(),
{
    match p_file(s) {
        Some((v, r)) => {
            let t = skip_ws(r);
            if t.len() > 0 && t[0] == ',' {
                if t.drop_first().len() < s.len() {
                    match p_files_tail(t.drop_first()) {
                        Some((vs, r2)) => Some((seq![v] + vs, r2)),
                        None => None,
                    }
                } else {
                    None
                }
            } else if t.len() > 0 && t[0] == ']' {
                Some((seq![v], t.drop_first()))
            } else {
                None
            }
        },
        None => None,
    }
}

/// Parse a file array.
pub open spec fn p_files(s: Seq<char>) -> Option<(Seq<FileV>, Seq<char>)> {
    match p_tok(s, '[') {
        Some(r0) => {
            let t = skip_ws(r0);
            if t.len() > 0 && t[0] == ']' {
                Some((Seq::empty(), t.drop_first()))
            } else {
                p_files_tail(r0)
            }
        },
        None => None,
    }
}

/// Parse one module object, fields in canonical order.
pub open spec fn p_doc(s: Seq<char>) -> Option<(DocV, Seq<char>)> {
    match p_tok(s, '{') {
        Some(r0) => match p_key(r0, "module_path"@) {
            Some(r1) => match p_string(r1) {
                Some((mod_path, r2)) => match p_tok(r2, ',') {
                    Some(r3) => match p_key(r3, "content"@) {
                        Some(r4) => match p_string(r4) {
                            Some((content, r5)) => match p_tok(r5, ',') {
                                Some(r6) => match p_key(r6, "source_file"@) {
                                    Some(r7) => match p_string(r7) {
                                        Some((source_file, r8)) => match p_tok(r8, ',') {
                                            Some(r9) => match p_key(r9, "c4_level"@) {
                                                Some(r10) => match p_level(r10) {
                                                    Some((c4_level, r11)) => p_doc_rest(
                                                        mod_path,
                                                        content,
                                                        source_file,
                                                        c4_level,
                                                        r11,
                                                    ),
                                                    None => None,
                                                },
                                                None => None,
                                            },
                                            None => None,
                                        },
                                        None => None,
                                    },
                                    None => None,
                                },
                                None => None,
                            },
                            None => None,
                        },
                        None => None,
                    },
                    None => None,
                },
                None => None,
            },
            None => None,
        },
        None => None,
    }
}

/// The second half of a module object, from `pattern` on.
pub open spec fn p_doc_rest(
    mod_path: Seq<char>,
    content: Seq<char>,
    source_file: Seq<char>,
    c4_level: C4Level,
    r11: Seq<char>,
) -> Option<(DocV, Seq<char>)> {
    match p_tok(r11, ',') {
        Some(r12) => match p_key(r12, "pattern"@) {
            Some(r13) => match p_string(r13) {
                Some((pattern, r14)) => match p_tok(r14, ',') {
                    Some(r15) => match p_key(r15, "pattern_status"@) {
                        Some(r16) => match p_status(r16) {
                            Some((pattern_status, r17)) => match p_tok(r17, ',') {
                                Some(r18) => match p_key(r18, "description"@) {
                                    Some(r19) => match p_string(r19) {
                                        Some((description, r20)) => match p_tok(r20, ',') {
                                            Some(r21) => match p_key(r21, "parent_container"@) {
                                                Some(r22) => match p_opt_str(r22) {
                                                    Some((parent_container, r23)) => match p_tok(
                                                        r23,
                                                        ',',
                                                    ) {
                                                        Some(r24) => match p_key(
                                                            r24,
                                                            "relationships"@,
                                                        ) {
                                                            Some(r25) => match p_rels(r25) {
                                                                Some(
                                                                    (relationships, r26),
                                                                ) => match p_tok(r26, ',') {
                                                                    Some(r27) => match p_key(
                                                                        r27,
                                                                        "files"@,
                                                                    ) {
                                                                        Some(r28) => match p_files(
                                                                            r28,
                                                                        ) {
                                                                            Some(
                                                                                (files, r29),
                                                                            ) => match p_tok(
                                                                                r29,
                                                                                '}',
                                                                            ) {
                                                                                Some(r30) => Some(
                                                                                    (
                                                                                        DocV {
                                                                                            mod_path,
                                                                                            content,
                                                                                            source_file,
                                                                                            c4_level,
                                                                                            pattern,
                                                                                            pattern_status,
                                                                                            description,
                                                                                            parent_container,
                                                                                            relationships,
                                                                                            files,
                                                                                        },
                                                                                        r30,
                                                                                    ),
                                                                                ),
                                                                                None => None,
                                                                            },
                                                                            None => None,
                                                                        },
                                                                        None => None,
                                                                    },
                                                                    None => None,
                                                                },
                                                                None => None,
                                                            },
                                                            None => None,
                                                        },
                                                        None => None,
                                                    },
                                                    None => None,
                                                },
                                                None => None,
                                            },
                                            None => None,
                                        },
                                        None => None,
                                    },
                                    None => None,
                                },
                                None => None,
                            },
                            None => None,
                        },
                        None => None,
                    },
                    None => None,
                },
                None => None,
            },
            None => None,
        },
        None => None,
    }
}

/// Parse the rest of the top-level array after its first item is due.
pub open spec fn p_docs_tail(s: Seq<char>) -> Option<(Seq<DocV>, Seq<char>)>
    decreases s.len(),
{
    match p_doc(s) {
        Some((v, r)) => {
            let t = skip_ws(r);
            if t.len() > 0 && t[0] == ',' {
                if t.drop_first().len() < s.len() {
                    match p_docs_tail(t.drop_first()) {
                        Some((vs, r2)) => Some((seq![v] + vs, r2)),
                        None => None,
                    }
                } else {
                    None
                }
            } else if t.len() > 0 && t[0] == ']' {
                Some((seq![v], t.drop_first()))
            } else {
                None
            }
        },
        None => None,
    }
}

/// Parse the top-level array.
pub open spec fn p_docs(s: Seq<char>) -> Option<(Seq<DocV>, Seq<char>)> {
    match p_tok(s, '[') {
        Some(r0) => {
            let t = skip_ws(r0);
            if t.len() > 0 && t[0] == ']' {
                Some((Seq::empty(), t.drop_first()))
            } else {
                p_docs_tail(r0)
            }
        },
        None => None,
    }
}

/// The whole reader: a top-level array followed by blanks only.
pub open spec fn parse_ir(s: Seq<char>) -> Option<Seq<DocV>> {
    match p_docs(s) {
        Some((ds, r)) => if skip_ws(r).len() == 0 {
            Some(ds)
        } else {
            None
        },
        None => None,
    }
}

// ---------------------------------------------------------------------------
// Writer
// ---------------------------------------------------------------------------

/// Escaping distributes over concatenation.
proof fn lemma_esc_app(a: Seq<char>, b: Seq<char>)
    ensures
        esc_str(a + b) == esc_str(a) + esc_str(b),
    decreases a.len(),
{
    if a.len() == 0 {
        assert(a + b =~= b);
        assert(esc_str(a) + esc_str(b) =~= esc_str(b));
    } else {
        assert((a + b).len() > 0);
        assert((a + b)[0] == a[0]);
        assert((a + b).drop_first() =~= a.drop_first() + b);
        lemma_esc_app(a.drop_first(), b);
        assert(esc_char(a[0]) + (esc_str(a.drop_first()) + esc_str(b)) =~= (esc_char(a[0])
            + esc_str(a.drop_first())) + esc_str(b));
    }
}

/// The hexadecimal digit character of a value below 16.
fn hex_char_exec(d: u32) -> (r: char)
    requires
        d < 16,
    ensures
        r == hex_char(d as nat),
{
    if d == 0 {
        '0'
    } else if d == 1 {
        '1'
    } else if d == 2 {
        '2'
    } else if d == 3 {
        '3'
    } else if d == 4 {
        '4'
    } else if d == 5 {
        '5'
    } else if d == 6 {
        '6'
    } else if d == 7 {
        '7'
    } else if d == 8 {
        '8'
    } else if d == 9 {
        '9'
    } else if d == 10 {
        'a'
    } else if d == 11 {
        'b'
    } else if d == 12 {
        'c'
    } else if d == 13 {
        'd'
    } else if d == 14 {
        'e'
    } else {
        'f'
    }
}

/// Append the escape of one character.
fn write_esc_char(out: &mut String, c: char)
    ensures
        final(out)@ == old(out)@ + esc_char(c),
{
    if c == '"' {
        push_char(out, '\\');
        push_char(out, '"');
        assert(final(out)@ =~= old(out)@ + esc_char(c));
    } else if c == '\\' {
        push_char(out, '\\');
        push_char(out, '\\');
        assert(final(out)@ =~= old(out)@ + esc_char(c));
    } else if c == '\n' {
        push_char(out, '\\');
        push_char(out, 'n');
        assert(final(out)@ =~= old(out)@ + esc_char(c));
    } else if c == '\r' {
        push_char(out, '\\');
        push_char(out, 'r');
        assert(final(out)@ =~= old(out)@ + esc_char(c));
    } else if c == '\t' {
        push_char(out, '\\');
        push_char(out, 't');
        assert(final(out)@ =~= old(out)@ + esc_char(c));
    } else {
        let u = c as u32;
        assert(u as int == c as int);
        if u < 32 {
            push_char(out, '\\');
            push_char(out, 'u');
            push_char(out, '0');
            push_char(out, '0');
            push_char(out, hex_char_exec(u / 16));
            push_char(out, hex_char_exec(u % 16));
            assert(final(out)@ =~= old(out)@ + esc_char(c));
        } else {
            push_char(out, c);
            assert(final(out)@ =~= old(out)@ + esc_char(c));
        }
    }
}

/// Append a JSON string: quote, escaped body, quote.
fn write_json_str(out: &mut String, s: &str)
    ensures
        final(out)@ == old(out)@ + ser_str(s@),
{
    let cs = str_to_chars(s);
    push_char(out, '"');
    let ghost base = out@;
    let mut i: usize = 0;
    proof {
        assert(s@.subrange(0, 0) =~= Seq::<char>::empty());
    }
    while i < cs.len()
        invariant
            cs@ == s@,
            i <= cs@.len(),
            out@ == base + esc_str(s@.subrange(0, i as int)),
        decreases cs@.len() - i,
    {
        write_esc_char(out, cs[i]);
        proof {
            assert(s@.subrange(0, i + 1 as int) =~= s@.subrange(0, i as int) + seq![s@[i as int]]);
            lemma_esc_app(s@.subrange(0, i as int), seq![s@[i as int]]);
            assert(esc_str(seq![s@[i as int]]) == esc_char(s@[i as int])) by {
                let x = s@[i as int];
                assert(seq![x].drop_first() =~= Seq::<char>::empty());
                assert(seq![x][0] == x);
                assert(esc_str(seq![x]) == esc_char(x) + esc_str(Seq::<char>::empty()));
                assert(esc_char(x) + Seq::<char>::empty() =~= esc_char(x));
            }
            assert(out@ =~= base + esc_str(s@.subrange(0, i + 1 as int)));
        }
        i = i + 1;
    }
    push_char(out, '"');
    proof {
        reveal(ser_str);
        assert(s@.subrange(0, s@.len() as int) =~= s@);
        assert(final(out)@ =~= old(out)@ + ser_str(s@));
    }
}

/// Append a key and its colon.
fn write_key(out: &mut String, k: &str)
    ensures
        final(out)@ == old(out)@ + ser_key(k@),
{
    write_json_str(out, k);
    push_char(out, ':');
    proof {
        reveal(ser_key);
        assert(final(out)@ =~= old(out)@ + ser_key(k@));
    }
}

/// Append `null` or a JSON string.
fn write_opt_str(out: &mut String, s: &Option<String>)
    ensures
        final(out)@ == old(out)@ + ser_opt_str(match s {
            Some(v) => Some(v@),
            None => None,
        }),
{
    match s {
        None => {
            out.append("null");
        },
        Some(v) => {
            write_json_str(out, v.as_str());
        },
    }
}

/// Append one relationship object.
fn write_rel(out: &mut String, r: &Relationship)
    ensures
        final(out)@ == old(out)@ + ser_rel(r@),
{
    push_char(out, '{');
    write_key(out, "target");
    write_json_str(out, r.target.as_str());
    push_char(out, ',');
    write_key(out, "label");
    write_json_str(out, r.label.as_str());
    push_char(out, ',');
    write_key(out, "protocol");
    write_json_str(out, r.protocol.as_str());
    push_char(out, '}');
    proof {
        reveal(ser_rel);
        assert(final(out)@ =~= old(out)@ + ser_rel(r@));
    }
}

/// Append one file-catalog entry object.
#[verifier::rlimit(100)]
fn write_file(out: &mut String, f: &FileEntry)
    ensures
        final(out)@ == old(out)@ + ser_file(f@),
{
    push_char(out, '{');
    write_key(out, "name");
    write_json_str(out, f.name.as_str());
    push_char(out, ',');
    write_key(out, "pattern");
    write_json_str(out, f.pattern.as_str());
    push_char(out, ',');
    write_key(out, "pattern_status");
    let st = f.pattern_status.token();
    write_json_str(out, st.as_str());
    push_char(out, ',');
    write_key(out, "purpose");
    write_json_str(out, f.purpose.as_str());
    push_char(out, ',');
    write_key(out, "health");
    let h = f.health.token();
    write_json_str(out, h.as_str());
    push_char(out, '}');
    proof {
        reveal(ser_file);
        assert(final(out)@ =~= old(out)@ + ser_file(f@));
    }
}

/// Joining one more item onto a non-empty array body appends a comma first.
proof fn lemma_rels_body_push(s: Seq<RelV>, x: RelV)
    ensures
        ser_rels_body(s.push(x)) == if s.len() == 0 {
            ser_rel(x)
        } else {
            ser_rels_body(s) + seq![','] + ser_rel(x)
        },
    decreases s.len(),
{
    let p = s.push(x);
    if s.len() == 0 {
        assert(p.len() == 1);
        assert(p[0] == x);
    } else {
        assert(p.len() >= 2);
        assert(p[0] == s[0]);
        assert(p.drop_first() =~= s.drop_first().push(x));
        lemma_rels_body_push(s.drop_first(), x);
        if s.len() == 1 {
            assert(s.drop_first().len() == 0);
            assert(ser_rels_body(p) =~= ser_rels_body(s) + seq![','] + ser_rel(x));
        } else {
            assert(ser_rels_body(p) =~= ser_rels_body(s) + seq![','] + ser_rel(x));
        }
    }
}

/// Joining one more file entry onto a non-empty array body.
proof fn lemma_files_body_push(s: Seq<FileV>, x: FileV)
    ensures
        ser_files_body(s.push(x)) == if s.len() == 0 {
            ser_file(x)
        } else {
            ser_files_body(s) + seq![','] + ser_file(x)
        },
    decreases s.len(),
{
    let p = s.push(x);
    if s.len() == 0 {
        assert(p.len() == 1);
        assert(p[0] == x);
    } else {
        assert(p.len() >= 2);
        assert(p[0] == s[0]);
        assert(p.drop_first() =~= s.drop_first().push(x));
        lemma_files_body_push(s.drop_first(), x);
        assert(ser_files_body(p) =~= ser_files_body(s) + seq![','] + ser_file(x));
    }
}

/// Joining one more document onto a non-empty array body.
#[verifier::rlimit(60)]
proof fn lemma_docs_body_push(s: Seq<DocV>, x: DocV)
    ensures
        ser_docs_body(s.push(x)) == if s.len() == 0 {
            ser_doc(x)
        } else {
            ser_docs_body(s) + seq![','] + ser_doc(x)
        },
    decreases s.len(),
{
    let p = s.push(x);
    if s.len() == 0 {
        assert(p.len() == 1);
        assert(p[0] == x);
    } else {
        assert(p.len() >= 2);
        assert(p[0] == s[0]);
        assert(p.drop_first() =~= s.drop_first().push(x));
        lemma_docs_body_push(s.drop_first(), x);
        assert(ser_docs_body(p) =~= ser_docs_body(s) + seq![','] + ser_doc(x));
    }
}

/// Append a relationship array.
fn write_rels(out: &mut String, rs: &Vec<Relationship>)
    ensures
        final(out)@ == old(out)@ + ser_rels(rs@.map_values(|r: Relationship| r@)),
{
    let ghost rsv = rs@.map_values(|r: Relationship| r@);
    push_char(out, '[');
    let ghost base = out@;
    let mut i: usize = 0;
    proof {
        assert(rsv.subrange(0, 0) =~= Seq::<RelV>::empty());
    }
    while i < rs.len()
        invariant
            rsv == rs@.map_values(|r: Relationship| r@),
            rsv.len() == rs@.len(),
            i <= rs@.len(),
            out@ == base + ser_rels_body(rsv.subrange(0, i as int)),
        decreases rs@.len() - i,
    {
        if i > 0 {
            push_char(out, ',');
        }
        write_rel(out, &rs[i]);
        proof {
            assert(rsv[i as int] == rs@[i as int]@);
            assert(rsv.subrange(0, i + 1 as int) =~= rsv.subrange(0, i as int).push(
                rsv[i as int],
            ));
            lemma_rels_body_push(rsv.subrange(0, i as int), rsv[i as int]);
            assert(out@ =~= base + ser_rels_body(rsv.subrange(0, i + 1 as int)));
        }
        i = i + 1;
    }
    push_char(out, ']');
    proof {
        assert(rsv.subrange(0, rsv.len() as int) =~= rsv);
        assert(final(out)@ =~= old(out)@ + ser_rels(rsv));
    }
}

/// Append a file array.
fn write_files(out: &mut String, fs: &Vec<FileEntry>)
    ensures
        final(out)@ == old(out)@ + ser_files(fs@.map_values(|f: FileEntry| f@)),
{
    let ghost fsv = fs@.map_values(|f: FileEntry| f@);
    push_char(out, '[');
    let ghost base = out@;
    let mut i: usize = 0;
    proof {
        assert(fsv.subrange(0, 0) =~= Seq::<FileV>::empty());
    }
    while i < fs.len()
        invariant
            fsv == fs@.map_values(|f: FileEntry| f@),
            fsv.len() == fs@.len(),
            i <= fs@.len(),
            out@ == base + ser_files_body(fsv.subrange(0, i as int)),
        decreases fs@.len() - i,
    {
        if i > 0 {
            push_char(out, ',');
        }
        write_file(out, &fs[i]);
        proof {
            assert(fsv[i as int] == fs@[i as int]@);
            assert(fsv.subrange(0, i + 1 as int) =~= fsv.subrange(0, i as int).push(
                fsv[i as int],
            ));
            lemma_files_body_push(fsv.subrange(0, i as int), fsv[i as int]);
            assert(out@ =~= base + ser_files_body(fsv.subrange(0, i + 1 as int)));
        }
        i = i + 1;
    }
    push_char(out, ']');
    proof {
        assert(fsv.subrange(0, fsv.len() as int) =~= fsv);
        assert(final(out)@ =~= old(out)@ + ser_files(fsv));
    }
}

/// Append one module object.
#[verifier::rlimit(100)]
fn write_doc(out: &mut String, d: &ModuleDoc)
    ensures
        final(out)@ == old(out)@ + ser_doc(d@),
{
    push_char(out, '{');
    write_key(out, "module_path");
    write_json_str(out, d.mod_path.as_str());
    push_char(out, ',');
    write_key(out, "content");
    write_json_str(out, d.content.as_str());
    push_char(out, ',');
    write_key(out, "source_file");
    write_json_str(out, d.source_file.as_str());
    push_char(out, ',');
    let ghost b1 = out@;
    proof {
        reveal(ser_doc_1);
        assert(b1 =~= old(out)@ + ser_doc_1(d@));
    }
    write_key(out, "c4_level");
    let lv = d.c4_level.token();
    write_json_str(out, lv.as_str());
    push_char(out, ',');
    write_key(out, "pattern");
    write_json_str(out, d.pattern.as_str());
    push_char(out, ',');
    write_key(out, "pattern_status");
    let st = d.pattern_status.token();
    write_json_str(out, st.as_str());
    push_char(out, ',');
    let ghost b2 = out@;
    proof {
        reveal(ser_doc_2);
        assert(b2 =~= b1 + ser_doc_2(d@));
    }
    write_key(out, "description");
    write_json_str(out, d.description.as_str());
    push_char(out, ',');
    write_key(out, "parent_container");
    write_opt_str(out, &d.parent_container);
    push_char(out, ',');
    write_key(out, "relationships");
    write_rels(out, &d.relationships);
    push_char(out, ',');
    write_key(out, "files");
    write_files(out, &d.files);
    push_char(out, '}');
    proof {
        reveal(ser_doc_3);
        assert(final(out)@ =~= b2 + ser_doc_3(d@));
        assert(((old(out)@ + ser_doc_1(d@)) + ser_doc_2(d@)) + ser_doc_3(d@) =~= old(out)@ + (
        ser_doc_1(d@) + ser_doc_2(d@) + ser_doc_3(d@)));
    }
}

/// Serialize a `ModuleDoc` list to its canonical JSON IR text.
///
/// This is the portable intermediate representation that bridges language
/// adapters and every consumer of the IR.
#[verifier::rlimit(60)]
pub fn serialize(docs: &Vec<ModuleDoc>) -> (r: String)
    ensures
        r@ == ser_docs(docs_view(docs@)),
{
    let ghost dsv = docs_view(docs@);
    let mut out = String::new();
    push_char(&mut out, '[');
    let ghost base = out@;
    let mut i: usize = 0;
    proof {
        assert(dsv.subrange(0, 0) =~= Seq::<DocV>::empty());
    }
    while i < docs.len()
        invariant
            dsv == docs_view(docs@),
            dsv.len() == docs@.len(),
            i <= docs@.len(),
            out@ == base + ser_docs_body(dsv.subrange(0, i as int)),
        decreases docs@.len() - i,
    {
        if i > 0 {
            push_char(&mut out, ',');
        }
        write_doc(&mut out, &docs[i]);
        proof {
            assert(dsv[i as int] == docs@[i as int]@);
            assert(dsv.subrange(0, i + 1 as int) =~= dsv.subrange(0, i as int).push(
                dsv[i as int],
            ));
            lemma_docs_body_push(dsv.subrange(0, i as int), dsv[i as int]);
            assert(out@ =~= base + ser_docs_body(dsv.subrange(0, i + 1 as int)));
        }
        i = i + 1;
    }
    push_char(&mut out, ']');
    proof {
        assert(dsv.subrange(0, dsv.len() as int) =~= dsv);
        assert(out@ =~= ser_docs(dsv));
    }
    out
}

// ---------------------------------------------------------------------------
// Reader
// ---------------------------------------------------------------------------

/// Where the first `k` characters are blanks and the next is not,
/// `skip_ws` drops exactly `k`.
proof fn lemma_skip_ws_at(s: Seq<char>, k: int)
    requires
        0 <= k <= s.len(),
        forall|i: int| 0 <= i < k ==> is_ws(s[i]),
        k < s.len() ==> !is_ws(s[k]),
    ensures
        skip_ws(s) == s.skip(k),
    decreases k,
{
    if k == 0 {
        if s.len() > 0 && is_ws(s[0]) {
            assert(false);
        }
        assert(s.skip(0) =~= s);
    } else {
        assert(is_ws(s[0]));
        let t = s.drop_first();
        assert(forall|i: int| 0 <= i < k - 1 ==> t[i] == s[i + 1] && is_ws(t[i]));
        if k < s.len() {
            assert(t[k - 1] == s[k]);
        }
        lemma_skip_ws_at(t, k - 1);
        assert(t.skip(k - 1) =~= s.skip(k));
    }
}

/// Advance past JSON blanks.
fn e_skip_ws(v: &[char], i: usize) -> (j: usize)
    requires
        i <= v@.len(),
    ensures
        i <= j <= v@.len(),
        v@.skip(j as int) == skip_ws(v@.skip(i as int)),
        j < v@.len() ==> !is_ws(v@[j as int]),
{
    let mut j = i;
    while j < v.len() && is_ws_char(v[j])
        invariant
            i <= j <= v@.len(),
            forall|k: int| i <= k < j ==> is_ws(v@[k]),
        decreases v@.len() - j,
    {
        j = j + 1;
    }
    proof {
        let s = v@.skip(i as int);
        assert(forall|k: int| 0 <= k < j - i ==> s[k] == v@[k + i] && is_ws(s[k]));
        if (j as int) < v@.len() {
            assert(s[j - i] == v@[j as int]);
        }
        lemma_skip_ws_at(s, j - i);
        assert(s.skip(j - i) =~= v@.skip(j as int));
    }
    j
}

/// Expect one punctuation character.
fn e_tok(v: &[char], i: usize, c: char) -> (r: Option<usize>)
    requires
        i <= v@.len(),
    ensures
        match p_tok(v@.skip(i as int), c) {
            Some(rest) => r is Some && i < r->0 && r->0 <= v@.len() && v@.skip(r->0 as int)
                == rest,
            None => r is None,
        },
        !is_ws(c) ==> r is Some == p_tok(v@.skip(i as int), c) is Some,
{
    let j = e_skip_ws(v, i);
    let ghost t = skip_ws(v@.skip(i as int));
    if j < v.len() && v[j] == c {
        proof {
            assert(t.len() == v@.len() - j);
            assert(t[0] == v@[j as int]);
            assert(t.drop_first() =~= v@.skip(j + 1 as int));
        }
        Some(j + 1)
    } else {
        proof {
            if j < v.len() {
                assert(t[0] == v@[j as int]);
            }
        }
        None
    }
}

/// The value of a lower-case hexadecimal digit character.
fn hex_val_exec(c: char) -> (r: Option<u32>)
    ensures
        match r {
            Some(x) => hex_val(c) == x as int && x < 16,
            None => hex_val(c) == -1,
        },
{
    if c == '0' {
        Some(0)
    } else if c == '1' {
        Some(1)
    } else if c == '2' {
        Some(2)
    } else if c == '3' {
        Some(3)
    } else if c == '4' {
        Some(4)
    } else if c == '5' {
        Some(5)
    } else if c == '6' {
        Some(6)
    } else if c == '7' {
        Some(7)
    } else if c == '8' {
        Some(8)
    } else if c == '9' {
        Some(9)
    } else if c == 'a' {
        Some(10)
    } else if c == 'b' {
        Some(11)
    } else if c == 'c' {
        Some(12)
    } else if c == 'd' {
        Some(13)
    } else if c == 'e' {
        Some(14)
    } else if c == 'f' {
        Some(15)
    } else {
        None
    }
}

/// The control character with code point `n`.
fn ctl_char_exec(n: u32) -> (r: char)
    requires
        n < 32,
    ensures
        r == ctl_char(n as nat),
{
    if n == 0 {
        '\u{0}'
    } else if n == 1 {
        '\u{1}'
    } else if n == 2 {
        '\u{2}'
    } else if n == 3 {
        '\u{3}'
    } else if n == 4 {
        '\u{4}'
    } else if n == 5 {
        '\u{5}'
    } else if n == 6 {
        '\u{6}'
    } else if n == 7 {
        '\u{7}'
    } else if n == 8 {
        '\u{8}'
    } else if n == 9 {
        '\t'
    } else if n == 10 {
        '\n'
    } else if n == 11 {
        '\u{b}'
    } else if n == 12 {
        '\u{c}'
    } else if n == 13 {
        '\r'
    } else if n == 14 {
        '\u{e}'
    } else if n == 15 {
        '\u{f}'
    } else if n == 16 {
        '\u{10}'
    } else if n == 17 {
        '\u{11}'
    } else if n == 18 {
        '\u{12}'
    } else if n == 19 {
        '\u{13}'
    } else if n == 20 {
        '\u{14}'
    } else if n == 21 {
        '\u{15}'
    } else if n == 22 {
        '\u{16}'
    } else if n == 23 {
        '\u{17}'
    } else if n == 24 {
        '\u{18}'
    } else if n == 25 {
        '\u{19}'
    } else if n == 26 {
        '\u{1a}'
    } else if n == 27 {
        '\u{1b}'
    } else if n == 28 {
        '\u{1c}'
    } else if n == 29 {
        '\u{1d}'
    } else if n == 30 {
        '\u{1e}'
    } else {
        '\u{1f}'
    }
}

/// The running string parse, stated over the original input suffix.
pub open spec fn body_rel(orig: Seq<char>, acc: Seq<char>, cur: Seq<char>) -> bool {
    p_str_body(orig) == match p_str_body(cur) {
        Some((w, rest)) => Some((acc + w, rest)),
        None => None,
    }
}

/// Parse a JSON string.
#[verifier::loop_isolation(false)]
fn e_string(v: &[char], i: usize) -> (r: Option<(Vec<char>, usize)>)
    requires
        i <= v@.len(),
    ensures
        match (p_string(v@.skip(i as int)), r) {
            (Some(p), Some(rv)) => rv.0@ == p.0 && i < rv.1 && rv.1 <= v@.len() && v@.skip(
                rv.1 as int,
            ) == p.1,
            (None, None) => true,
            _ => false,
        },
{
    let j = e_skip_ws(v, i);
    let ghost t = skip_ws(v@.skip(i as int));
    if j >= v.len() || v[j] != '"' {
        proof {
            if j < v.len() {
                assert(t[0] == v@[j as int]);
            }
        }
        return None;
    }
    proof {
        assert(t[0] == v@[j as int]);
        assert(t.drop_first() =~= v@.skip(j + 1 as int));
    }
    let ghost orig = v@.skip(j + 1 as int);
    let mut acc: Vec<char> = Vec::new();
    let mut k: usize = j + 1;
    proof {
        assert(acc@ + Seq::<char>::empty() =~= acc@);
    }
    while k < v.len()
        invariant
            j + 1 <= k <= v@.len(),
            body_rel(orig, acc@, v@.skip(k as int)),
        decreases v@.len() - k,
    {
        let ghost cur = v@.skip(k as int);
        proof {
            assert(cur[0] == v@[k as int]);
        }
        let c = v[k];
        if c == '"' {
            proof {
                assert(cur.drop_first() =~= v@.skip(k + 1 as int));
                assert(acc@ + Seq::<char>::empty() =~= acc@);
            }
            return Some((acc, k + 1));
        } else if c == '\\' {
            if k + 1 >= v.len() {
                proof {
                    assert(cur.len() < 2);
                }
                return None;
            }
            proof {
                assert(cur[1] == v@[k + 1]);
            }
            let e = v[k + 1];
            if e == '"' || e == '\\' || e == 'n' || e == 'r' || e == 't' {
                let u = if e == '"' {
                    '"'
                } else if e == '\\' {
                    '\\'
                } else if e == 'n' {
                    '\n'
                } else if e == 'r' {
                    '\r'
                } else {
                    '\t'
                };
                let ghost acc0 = acc@;
                acc.push(u);
                proof {
                    assert(cur.skip(2) =~= v@.skip(k + 2 as int));
                    assert forall|w: Seq<char>| true implies acc0 + (seq![unesc(cur[1])] + w)
                        =~= acc@ + w by {
                        assert(acc@ =~= acc0 + seq![unesc(cur[1])]);
                    };
                }
                k = k + 2;
            } else if e == 'u' {
                if v.len() - k < 6 {
                    proof {
                        assert(cur.len() < 6);
                    }
                    return None;
                }
                proof {
                    assert(cur[2] == v@[k + 2]);
                    assert(cur[3] == v@[k + 3]);
                    assert(cur[4] == v@[k + 4]);
                    assert(cur[5] == v@[k + 5]);
                }
                if !(v[k + 2] == '0' && v[k + 3] == '0' && (v[k + 4] == '0' || v[k + 4] == '1')) {
                    return None;
                }
                let hv = hex_val_exec(v[k + 5]);
                match hv {
                    None => {
                        return None;
                    },
                    Some(lo) => {
                        let hi: u32 = if v[k + 4] == '0' {
                            0
                        } else {
                            1
                        };
                        let u = ctl_char_exec(hi * 16 + lo);
                        let ghost acc0 = acc@;
                        acc.push(u);
                        proof {
                            assert(hex_val(cur[4]) == hi as int);
                            assert(cur.skip(6) =~= v@.skip(k + 6 as int));
                            assert forall|w: Seq<char>| true implies acc0 + (seq![
                                ctl_char((hex_val(cur[4]) * 16 + hex_val(cur[5])) as nat),
                            ] + w) =~= acc@ + w by {
                                assert(acc@ =~= acc0 + seq![
                                    ctl_char((hex_val(cur[4]) * 16 + hex_val(cur[5])) as nat),
                                ]);
                            };
                        }
                        k = k + 6;
                    },
                }
            } else {
                return None;
            }
        } else {
            let ghost acc0 = acc@;
            acc.push(c);
            proof {
                assert(cur.drop_first() =~= v@.skip(k + 1 as int));
                assert forall|w: Seq<char>| true implies acc0 + (seq![cur[0]] + w) =~= acc@
                    + w by {
                    assert(acc@ =~= acc0 + seq![cur[0]]);
                };
            }
            k = k + 1;
        }
    }
    proof {
        assert(v@.skip(k as int).len() == 0);
    }
    None
}

/// Parse one expected key and its colon.
fn e_key(v: &[char], i: usize, key: &str) -> (r: Option<usize>)
    requires
        i <= v@.len(),
    ensures
        match p_key(v@.skip(i as int), key@) {
            Some(rest) => r is Some && i < r->0 && r->0 <= v@.len() && v@.skip(r->0 as int)
                == rest,
            None => r is None,
        },
{
    match e_string(v, i) {
        None => None,
        Some((k, j)) => {
            if chars_eq_str(k.as_slice(), key) {
                e_tok(v, j, ':')
            } else {
                None
            }
        },
    }
}

/// Parse a C4 level token.
fn e_level(v: &[char], i: usize) -> (r: Option<(C4Level, usize)>)
    requires
        i <= v@.len(),
    ensures
        match (p_level(v@.skip(i as int)), r) {
            (Some(p), Some(rv)) => rv.0 == p.0 && i < rv.1 && rv.1 <= v@.len() && v@.skip(
                rv.1 as int,
            ) == p.1,
            (None, None) => true,
            _ => false,
        },
{
    match e_string(v, i) {
        None => None,
        Some((k, j)) => {
            if chars_eq_str(k.as_slice(), "container") {
                Some((C4Level::Container, j))
            } else if chars_eq_str(k.as_slice(), "component") {
                Some((C4Level::Component, j))
            } else if chars_eq_str(k.as_slice(), "unknown") {
                Some((C4Level::Unknown, j))
            } else {
                None
            }
        },
    }
}

/// Parse a pattern-status token.
fn e_status(v: &[char], i: usize) -> (r: Option<(PatternStatus, usize)>)
    requires
        i <= v@.len(),
    ensures
        match (p_status(v@.skip(i as int)), r) {
            (Some(p), Some(rv)) => rv.0 == p.0 && i < rv.1 && rv.1 <= v@.len() && v@.skip(
                rv.1 as int,
            ) == p.1,
            (None, None) => true,
            _ => false,
        },
{
    match e_string(v, i) {
        None => None,
        Some((k, j)) => {
            if chars_eq_str(k.as_slice(), "planned") {
                Some((PatternStatus::Planned, j))
            } else if chars_eq_str(k.as_slice(), "verified") {
                Some((PatternStatus::Verified, j))
            } else {
                None
            }
        },
    }
}

/// Parse a health token.
fn e_health(v: &[char], i: usize) -> (r: Option<(HealthStatus, usize)>)
    requires
        i <= v@.len(),
    ensures
        match (p_health(v@.skip(i as int)), r) {
            (Some(p), Some(rv)) => rv.0 == p.0 && i < rv.1 && rv.1 <= v@.len() && v@.skip(
                rv.1 as int,
            ) == p.1,
            (None, None) => true,
            _ => false,
        },
{
    match e_string(v, i) {
        None => None,
        Some((k, j)) => {
            if chars_eq_str(k.as_slice(), "planned") {
                Some((HealthStatus::Planned, j))
            } else if chars_eq_str(k.as_slice(), "active") {
                Some((HealthStatus::Active, j))
            } else if chars_eq_str(k.as_slice(), "stable") {
                Some((HealthStatus::Stable, j))
            } else {
                None
            }
        },
    }
}

/// Parse `null` or a JSON string.
fn e_opt_str(v: &[char], i: usize) -> (r: Option<(Option<String>, usize)>)
    requires
        i <= v@.len(),
    ensures
        match (p_opt_str(v@.skip(i as int)), r) {
            (Some(p), Some(rv)) => (match (rv.0, p.0) {
                (Some(ov), Some(pv)) => ov@ == pv,
                (None, None) => true,
                _ => false,
            }) && i <= rv.1 && rv.1 <= v@.len() && v@.skip(rv.1 as int) == p.1,
            (None, None) => true,
            _ => false,
        },
{
    let j = e_skip_ws(v, i);
    let ghost t = skip_ws(v@.skip(i as int));
    if v.len() - j >= 4 && v[j] == 'n' && v[j + 1] == 'u' && v[j + 2] == 'l' && v[j + 3] == 'l' {
        proof {
            reveal_strlit("null");
            assert(t.subrange(0, 4) =~= "null"@) by {
                assert(t[0] == v@[j as int]);
                assert(t[1] == v@[j + 1]);
                assert(t[2] == v@[j + 2]);
                assert(t[3] == v@[j + 3]);
            }
            assert(t.skip(4) =~= v@.skip(j + 4 as int));
        }
        Some((None, j + 4))
    } else {
        proof {
            reveal_strlit("null");
            if t.len() >= 4 && t.subrange(0, 4) == "null"@ {
                assert(t[0] == v@[j as int] && t[1] == v@[j + 1] && t[2] == v@[j + 2] && t[3]
                    == v@[j + 3]);
                assert(t.subrange(0, 4)[0] == 'n' && t.subrange(0, 4)[1] == 'u' && t.subrange(
                    0,
                    4,
                )[2] == 'l' && t.subrange(0, 4)[3] == 'l');
                assert(false);
            }
        }
        match e_string(v, i) {
            None => None,
            Some((s, j2)) => {
                let out = chars_to_string(s.as_slice());
                Some((Some(out), j2))
            },
        }
    }
}

/// Parse one relationship object.
fn e_rel(v: &[char], i: usize) -> (r: Option<(Relationship, usize)>)
    requires
        i <= v@.len(),
    ensures
        match (p_rel(v@.skip(i as int)), r) {
            (Some(p), Some(rv)) => rv.0@ == p.0 && i < rv.1 && rv.1 <= v@.len() && v@.skip(
                rv.1 as int,
            ) == p.1,
            (None, None) => true,
            _ => false,
        },
{
    let r0 = match e_tok(v, i, '{') {
        Some(x) => x,
        None => {
            return None;
        },
    };
    let r1 = match e_key(v, r0, "target") {
        Some(x) => x,
        None => {
            return None;
        },
    };
    let (target, r2) = match e_string(v, r1) {
        Some(x) => x,
        None => {
            return None;
        },
    };
    let r3 = match e_tok(v, r2, ',') {
        Some(x) => x,
        None => {
            return None;
        },
    };
    let r4 = match e_key(v, r3, "label") {
        Some(x) => x,
        None => {
            return None;
        },
    };
    let (label, r5) = match e_string(v, r4) {
        Some(x) => x,
        None => {
            return None;
        },
    };
    let r6 = match e_tok(v, r5, ',') {
        Some(x) => x,
        None => {
            return None;
        },
    };
    let r7 = match e_key(v, r6, "protocol") {
        Some(x) => x,
        None => {
            return None;
        },
    };
    let (protocol, r8) = match e_string(v, r7) {
        Some(x) => x,
        None => {
            return None;
        },
    };
    let r9 = match e_tok(v, r8, '}') {
        Some(x) => x,
        None => {
            return None;
        },
    };
    let rel = Relationship {
        target: chars_to_string(target.as_slice()),
        label: chars_to_string(label.as_slice()),
        protocol: chars_to_string(protocol.as_slice()),
    };
    proof {
        let p = p_rel(v@.skip(i as int));
        assert(p is Some);
        assert(rel@ =~= p->0 .0);
    }
    Some((rel, r9))
}

/// The running list parse for relationships.
pub open spec fn rels_rel(orig: Seq<char>, acc: Seq<RelV>, cur: Seq<char>) -> bool {
    p_rels_tail(orig) == match p_rels_tail(cur) {
        Some((vs, rest)) => Some((acc + vs, rest)),
        None => None,
    }
}

/// Parse a relationship array.
#[verifier::loop_isolation(false)]
fn e_rels(v: &[char], i: usize) -> (r: Option<(Vec<Relationship>, usize)>)
    requires
        i <= v@.len(),
    ensures
        match (p_rels(v@.skip(i as int)), r) {
            (Some(p), Some(rv)) => rv.0@.map_values(|x: Relationship| x@) == p.0 && i < rv.1
                && rv.1 <= v@.len() && v@.skip(rv.1 as int) == p.1,
            (None, None) => true,
            _ => false,
        },
{
    let r0 = match e_tok(v, i, '[') {
        Some(x) => x,
        None => {
            return None;
        },
    };
    let j1 = e_skip_ws(v, r0);
    let ghost t0 = skip_ws(v@.skip(r0 as int));
    if j1 < v.len() && v[j1] == ']' {
        proof {
            assert(t0[0] == v@[j1 as int]);
            assert(t0.drop_first() =~= v@.skip(j1 + 1 as int));
        }
        let out: Vec<Relationship> = Vec::new();
        proof {
            assert(out@.map_values(|x: Relationship| x@) =~= Seq::<RelV>::empty());
        }
        return Some((out, j1 + 1));
    }
    proof {
        if t0.len() > 0 {
            assert(t0[0] == v@[j1 as int]);
        }
    }
    let ghost orig = v@.skip(r0 as int);
    let mut out: Vec<Relationship> = Vec::new();
    let mut k: usize = r0;
    proof {
        assert(out@.map_values(|x: Relationship| x@) =~= Seq::<RelV>::empty());
        assert forall|vs: Seq<RelV>| true implies Seq::<RelV>::empty() + vs =~= vs by {};
    }
    loop
        invariant
            r0 <= k <= v@.len(),
            rels_rel(orig, out@.map_values(|x: Relationship| x@), v@.skip(k as int)),
        decreases v@.len() - k,
    {
        let ghost cur = v@.skip(k as int);
        let ghost accv = out@.map_values(|x: Relationship| x@);
        let (item, k2) = match e_rel(v, k) {
            Some(x) => x,
            None => {
                return None;
            },
        };
        let j3 = e_skip_ws(v, k2);
        let ghost t = skip_ws(v@.skip(k2 as int));
        if j3 >= v.len() {
            proof {
                assert(t.len() == 0);
            }
            return None;
        }
        proof {
            assert(t[0] == v@[j3 as int]);
        }
        let ghost a0 = out@;
        out.push(item);
        proof {
            assert(out@.map_values(|x: Relationship| x@) =~= accv.push(item@)) by {
                assert(out@ =~= a0.push(item));
            }
            assert forall|vs: Seq<RelV>| true implies accv + (seq![item@] + vs) =~= accv.push(
                item@,
            ) + vs by {};
        }
        if v[j3] == ',' {
            proof {
                assert(t.drop_first() =~= v@.skip(j3 + 1 as int));
                assert(t.drop_first().len() < cur.len());
            }
            k = j3 + 1;
        } else if v[j3] == ']' {
            proof {
                assert(t.drop_first() =~= v@.skip(j3 + 1 as int));
                assert(p_rels_tail(cur) == Some::<(Seq<RelV>, Seq<char>)>(
                    (seq![item@], v@.skip(j3 + 1 as int)),
                ));
                assert(accv + seq![item@] =~= accv.push(item@));
            }
            return Some((out, j3 + 1));
        } else {
            return None;
        }
    }
}

/// Parse one file-catalog entry object.
fn e_file(v: &[char], i: usize) -> (r: Option<(FileEntry, usize)>)
    requires
        i <= v@.len(),
    ensures
        match (p_file(v@.skip(i as int)), r) {
            (Some(p), Some(rv)) => rv.0@ == p.0 && i < rv.1 && rv.1 <= v@.len() && v@.skip(
                rv.1 as int,
            ) == p.1,
            (None, None) => true,
            _ => false,
        },
{
    let r0 = match e_tok(v, i, '{') {
        Some(x) => x,
        None => {
            return None;
        },
    };
    let r1 = match e_key(v, r0, "name") {
        Some(x) => x,
        None => {
            return None;
        },
    };
    let (name, r2) = match e_string(v, r1) {
        Some(x) => x,
        None => {
            return None;
        },
    };
    let r3 = match e_tok(v, r2, ',') {
        Some(x) => x,
        None => {
            return None;
        },
    };
    let r4 = match e_key(v, r3, "pattern") {
        Some(x) => x,
        None => {
            return None;
        },
    };
    let (pattern, r5) = match e_string(v, r4) {
        Some(x) => x,
        None => {
            return None;
        },
    };
    let r6 = match e_tok(v, r5, ',') {
        Some(x) => x,
        None => {
            return None;
        },
    };
    let r7 = match e_key(v, r6, "pattern_status") {
        Some(x) => x,
        None => {
            return None;
        },
    };
    let (pattern_status, r8) = match e_status(v, r7) {
        Some(x) => x,
        None => {
            return None;
        },
    };
    let r9 = match e_tok(v, r8, ',') {
        Some(x) => x,
        None => {
            return None;
        },
    };
    let r10 = match e_key(v, r9, "purpose") {
        Some(x) => x,
        None => {
            return None;
        },
    };
    let (purpose, r11) = match e_string(v, r10) {
        Some(x) => x,
        None => {
            return None;
        },
    };
    let r12 = match e_tok(v, r11, ',') {
        Some(x) => x,
        None => {
            return None;
        },
    };
    let r13 = match e_key(v, r12, "health") {
        Some(x) => x,
        None => {
            return None;
        },
    };
    let (health, r14) = match e_health(v, r13) {
        Some(x) => x,
        None => {
            return None;
        },
    };
    let r15 = match e_tok(v, r14, '}') {
        Some(x) => x,
        None => {
            return None;
        },
    };
    let fe = FileEntry {
        name: chars_to_string(name.as_slice()),
        pattern: chars_to_string(pattern.as_slice()),
        pattern_status,
        purpose: chars_to_string(purpose.as_slice()),
        health,
    };
    proof {
        let p = p_file(v@.skip(i as int));
        assert(p is Some);
        assert(fe@ =~= p->0 .0);
    }
    Some((fe, r15))
}

/// The running list parse for file entries.
pub open spec fn files_rel(orig: Seq<char>, acc: Seq<FileV>, cur: Seq<char>) -> bool {
    p_files_tail(orig) == match p_files_tail(cur) {
        Some((vs, rest)) => Some((acc + vs, rest)),
        None => None,
    }
}

/// Parse a file array.
#[verifier::loop_isolation(false)]
fn e_files(v: &[char], i: usize) -> (r: Option<(Vec<FileEntry>, usize)>)
    requires
        i <= v@.len(),
    ensures
        match (p_files(v@.skip(i as int)), r) {
            (Some(p), Some(rv)) => rv.0@.map_values(|x: FileEntry| x@) == p.0 && i < rv.1 && rv.1
                <= v@.len() && v@.skip(rv.1 as int) == p.1,
            (None, None) => true,
            _ => false,
        },
{
    let r0 = match e_tok(v, i, '[') {
        Some(x) => x,
        None => {
            return None;
        },
    };
    let j1 = e_skip_ws(v, r0);
    let ghost t0 = skip_ws(v@.skip(r0 as int));
    if j1 < v.len() && v[j1] == ']' {
        proof {
            assert(t0[0] == v@[j1 as int]);
            assert(t0.drop_first() =~= v@.skip(j1 + 1 as int));
        }
        let out: Vec<FileEntry> = Vec::new();
        proof {
            assert(out@.map_values(|x: FileEntry| x@) =~= Seq::<FileV>::empty());
        }
        return Some((out, j1 + 1));
    }
    proof {
        if t0.len() > 0 {
            assert(t0[0] == v@[j1 as int]);
        }
    }
    let ghost orig = v@.skip(r0 as int);
    let mut out: Vec<FileEntry> = Vec::new();
    let mut k: usize = r0;
    proof {
        assert(out@.map_values(|x: FileEntry| x@) =~= Seq::<FileV>::empty());
        assert forall|vs: Seq<FileV>| true implies Seq::<FileV>::empty() + vs =~= vs by {};
    }
    loop
        invariant
            r0 <= k <= v@.len(),
            files_rel(orig, out@.map_values(|x: FileEntry| x@), v@.skip(k as int)),
        decreases v@.len() - k,
    {
        let ghost cur = v@.skip(k as int);
        let ghost accv = out@.map_values(|x: FileEntry| x@);
        let (item, k2) = match e_file(v, k) {
            Some(x) => x,
            None => {
                return None;
            },
        };
        let j3 = e_skip_ws(v, k2);
        let ghost t = skip_ws(v@.skip(k2 as int));
        if j3 >= v.len() {
            proof {
                assert(t.len() == 0);
            }
            return None;
        }
        proof {
            assert(t[0] == v@[j3 as int]);
        }
        let ghost a0 = out@;
        out.push(item);
        proof {
            assert(out@.map_values(|x: FileEntry| x@) =~= accv.push(item@)) by {
                assert(out@ =~= a0.push(item));
            }
            assert forall|vs: Seq<FileV>| true implies accv + (seq![item@] + vs) =~= accv.push(
                item@,
            ) + vs by {};
        }
        if v[j3] == ',' {
            proof {
                assert(t.drop_first() =~= v@.skip(j3 + 1 as int));
                assert(t.drop_first().len() < cur.len());
            }
            k = j3 + 1;
        } else if v[j3] == ']' {
            proof {
                assert(t.drop_first() =~= v@.skip(j3 + 1 as int));
                assert(p_files_tail(cur) == Some::<(Seq<FileV>, Seq<char>)>(
                    (seq![item@], v@.skip(j3 + 1 as int)),
                ));
                assert(accv + seq![item@] =~= accv.push(item@));
            }
            return Some((out, j3 + 1));
        } else {
            return None;
        }
    }
}

/// Parse the second half of a module object, from `pattern` on.
#[verifier::rlimit(100)]
fn e_doc_rest(
    v: &[char],
    mod_path: String,
    content: String,
    source_file: String,
    c4_level: C4Level,
    i11: usize,
) -> (r: Option<(ModuleDoc, usize)>)
    requires
        i11 <= v@.len(),
    ensures
        match (p_doc_rest(mod_path@, content@, source_file@, c4_level, v@.skip(i11 as int)), r) {
            (Some(p), Some(rv)) => rv.0@ == p.0 && i11 <= rv.1 && rv.1 <= v@.len() && v@.skip(
                rv.1 as int,
            ) == p.1,
            (None, None) => true,
            _ => false,
        },
{
    let r12 = match e_tok(v, i11, ',') {
        Some(x) => x,
        None => {
            return None;
        },
    };
    let r13 = match e_key(v, r12, "pattern") {
        Some(x) => x,
        None => {
            return None;
        },
    };
    let (pattern, r14) = match e_string(v, r13) {
        Some(x) => x,
        None => {
            return None;
        },
    };
    let r15 = match e_tok(v, r14, ',') {
        Some(x) => x,
        None => {
            return None;
        },
    };
    let r16 = match e_key(v, r15, "pattern_status") {
        Some(x) => x,
        None => {
            return None;
        },
    };
    let (pattern_status, r17) = match e_status(v, r16) {
        Some(x) => x,
        None => {
            return None;
        },
    };
    let r18 = match e_tok(v, r17, ',') {
        Some(x) => x,
        None => {
            return None;
        },
    };
    let r19 = match e_key(v, r18, "description") {
        Some(x) => x,
        None => {
            return None;
        },
    };
    let (description, r20) = match e_string(v, r19) {
        Some(x) => x,
        None => {
            return None;
        },
    };
    let r21 = match e_tok(v, r20, ',') {
        Some(x) => x,
        None => {
            return None;
        },
    };
    let r22 = match e_key(v, r21, "parent_container") {
        Some(x) => x,
        None => {
            return None;
        },
    };
    let (parent_container, r23) = match e_opt_str(v, r22) {
        Some(x) => x,
        None => {
            return None;
        },
    };
    let r24 = match e_tok(v, r23, ',') {
        Some(x) => x,
        None => {
            return None;
        },
    };
    let r25 = match e_key(v, r24, "relationships") {
        Some(x) => x,
        None => {
            return None;
        },
    };
    let (relationships, r26) = match e_rels(v, r25) {
        Some(x) => x,
        None => {
            return None;
        },
    };
    let r27 = match e_tok(v, r26, ',') {
        Some(x) => x,
        None => {
            return None;
        },
    };
    let r28 = match e_key(v, r27, "files") {
        Some(x) => x,
        None => {
            return None;
        },
    };
    let (files, r29) = match e_files(v, r28) {
        Some(x) => x,
        None => {
            return None;
        },
    };
    let r30 = match e_tok(v, r29, '}') {
        Some(x) => x,
        None => {
            return None;
        },
    };
    let d = ModuleDoc {
        mod_path,
        content,
        source_file,
        c4_level,
        pattern: chars_to_string(pattern.as_slice()),
        pattern_status,
        description: chars_to_string(description.as_slice()),
        parent_container,
        relationships,
        files,
    };
    proof {
        let p = p_doc_rest(
            d.mod_path@,
            d.content@,
            d.source_file@,
            d.c4_level,
            v@.skip(i11 as int),
        );
        assert(p is Some);
        assert(d@ =~= p->0 .0);
    }
    Some((d, r30))
}

/// Parse one module object.
#[verifier::rlimit(100)]
fn e_doc(v: &[char], i: usize) -> (r: Option<(ModuleDoc, usize)>)
    requires
        i <= v@.len(),
    ensures
        match (p_doc(v@.skip(i as int)), r) {
            (Some(p), Some(rv)) => rv.0@ == p.0 && i < rv.1 && rv.1 <= v@.len() && v@.skip(
                rv.1 as int,
            ) == p.1,
            (None, None) => true,
            _ => false,
        },
{
    let r0 = match e_tok(v, i, '{') {
        Some(x) => x,
        None => {
            return None;
        },
    };
    let r1 = match e_key(v, r0, "module_path") {
        Some(x) => x,
        None => {
            return None;
        },
    };
    let (mod_path, r2) = match e_string(v, r1) {
        Some(x) => x,
        None => {
            return None;
        },
    };
    let r3 = match e_tok(v, r2, ',') {
        Some(x) => x,
        None => {
            return None;
        },
    };
    let r4 = match e_key(v, r3, "content") {
        Some(x) => x,
        None => {
            return None;
        },
    };
    let (content, r5) = match e_string(v, r4) {
        Some(x) => x,
        None => {
            return None;
        },
    };
    let r6 = match e_tok(v, r5, ',') {
        Some(x) => x,
        None => {
            return None;
        },
    };
    let r7 = match e_key(v, r6, "source_file") {
        Some(x) => x,
        None => {
            return None;
        },
    };
    let (source_file, r8) = match e_string(v, r7) {
        Some(x) => x,
        None => {
            return None;
        },
    };
    let r9 = match e_tok(v, r8, ',') {
        Some(x) => x,
        None => {
            return None;
        },
    };
    let r10 = match e_key(v, r9, "c4_level") {
        Some(x) => x,
        None => {
            return None;
        },
    };
    let (c4_level, r11) = match e_level(v, r10) {
        Some(x) => x,
        None => {
            return None;
        },
    };
    let mp = chars_to_string(mod_path.as_slice());
    let ct = chars_to_string(content.as_slice());
    let sf = chars_to_string(source_file.as_slice());
    let res = e_doc_rest(v, mp, ct, sf, c4_level, r11);
    proof {
        let pd = p_doc(v@.skip(i as int));
        let pr = p_doc_rest(mp@, ct@, sf@, c4_level, v@.skip(r11 as int));
        assert(pd == pr);
        if pr is Some {
            assert(res is Some);
        }
    }
    res
}

/// The running list parse for documents.
pub open spec fn docs_tail_rel(orig: Seq<char>, acc: Seq<DocV>, cur: Seq<char>) -> bool {
    p_docs_tail(orig) == match p_docs_tail(cur) {
        Some((vs, rest)) => Some((acc + vs, rest)),
        None => None,
    }
}

/// Parse the top-level array.
#[verifier::loop_isolation(false)]
#[verifier::rlimit(100)]
fn e_docs(v: &[char], i: usize) -> (r: Option<(Vec<ModuleDoc>, usize)>)
    requires
        i <= v@.len(),
    ensures
        match (p_docs(v@.skip(i as int)), r) {
            (Some(p), Some(rv)) => docs_view(rv.0@) == p.0 && i < rv.1 && rv.1 <= v@.len()
                && v@.skip(rv.1 as int) == p.1,
            (None, None) => true,
            _ => false,
        },
{
    let r0 = match e_tok(v, i, '[') {
        Some(x) => x,
        None => {
            return None;
        },
    };
    let j1 = e_skip_ws(v, r0);
    let ghost t0 = skip_ws(v@.skip(r0 as int));
    if j1 < v.len() && v[j1] == ']' {
        proof {
            assert(t0[0] == v@[j1 as int]);
            assert(t0.drop_first() =~= v@.skip(j1 + 1 as int));
        }
        let out: Vec<ModuleDoc> = Vec::new();
        proof {
            assert(docs_view(out@) =~= Seq::<DocV>::empty());
        }
        return Some((out, j1 + 1));
    }
    proof {
        if t0.len() > 0 {
            assert(t0[0] == v@[j1 as int]);
        }
    }
    let ghost orig = v@.skip(r0 as int);
    let mut out: Vec<ModuleDoc> = Vec::new();
    let mut k: usize = r0;
    proof {
        assert(docs_view(out@) =~= Seq::<DocV>::empty());
        assert forall|vs: Seq<DocV>| true implies Seq::<DocV>::empty() + vs =~= vs by {};
    }
    loop
        invariant
            r0 <= k <= v@.len(),
            docs_tail_rel(orig, docs_view(out@), v@.skip(k as int)),
        decreases v@.len() - k,
    {
        let ghost cur = v@.skip(k as int);
        let ghost accv = docs_view(out@);
        let (item, k2) = match e_doc(v, k) {
            Some(x) => x,
            None => {
                return None;
            },
        };
        let j3 = e_skip_ws(v, k2);
        let ghost t = skip_ws(v@.skip(k2 as int));
        if j3 >= v.len() {
            proof {
                assert(t.len() == 0);
            }
            return None;
        }
        proof {
            assert(t[0] == v@[j3 as int]);
        }
        let ghost a0 = out@;
        out.push(item);
        proof {
            assert(docs_view(out@) =~= accv.push(item@)) by {
                assert(out@ =~= a0.push(item));
            }
            assert forall|vs: Seq<DocV>| true implies accv + (seq![item@] + vs) =~= accv.push(
                item@,
            ) + vs by {};
        }
        if v[j3] == ',' {
            proof {
                assert(t.drop_first() =~= v@.skip(j3 + 1 as int));
                assert(t.drop_first().len() < cur.len());
            }
            k = j3 + 1;
        } else if v[j3] == ']' {
            proof {
                assert(t.drop_first() =~= v@.skip(j3 + 1 as int));
                assert(p_docs_tail(cur) == Some::<(Seq<DocV>, Seq<char>)>(
                    (seq![item@], v@.skip(j3 + 1 as int)),
                ));
                assert(accv + seq![item@] =~= accv.push(item@));
            }
            return Some((out, j3 + 1));
        } else {
            return None;
        }
    }
}

/// The message returned for a payload the reader rejects.
pub open spec fn invalid_ir_msg() -> Seq<char> {
    "invalid IR: the payload does not match the module schema"@
}

/// Deserialize JSON IR into a `ModuleDoc` list.
///
/// Succeeds exactly on payloads that `parse_ir` accepts: an array of module
/// objects with every field present, in canonical order and of the right
/// shape. Anything else is rejected with a message, never a panic.
pub fn deserialize(json: &str) -> (r: Result<Vec<ModuleDoc>, String>)
    ensures
        match parse_ir(json@) {
            Some(ds) => r is Ok && docs_view(r->Ok_0@) == ds,
            None => r is Err && r->Err_0@ == invalid_ir_msg(),
        },
{
    let v = str_to_chars(json);
    proof {
        assert(v@.skip(0) =~= json@);
    }
    match e_docs(v.as_slice(), 0) {
        Some((docs, j)) => {
            let j2 = e_skip_ws(v.as_slice(), j);
            if j2 == v.len() {
                proof {
                    assert(skip_ws(v@.skip(j as int)).len() == 0);
                }
                Ok(docs)
            } else {
                proof {
                    assert(skip_ws(v@.skip(j as int)).len() > 0);
                }
                Err(String::from_str("invalid IR: the payload does not match the module schema"))
            }
        },
        None => Err(String::from_str("invalid IR: the payload does not match the module schema")),
    }
}

/// Validate JSON IR without keeping the result.
///
/// Returns `Ok(())` exactly when the payload conforms to the module schema.
pub fn validate(json: &str) -> (r: Result<(), String>)
    ensures
        match parse_ir(json@) {
            Some(ds) => r is Ok,
            None => r is Err && r->Err_0@ == invalid_ir_msg(),
        },
{
    match deserialize(json) {
        Ok(_) => Ok(()),
        Err(e) => Err(e),
    }
}

// ---------------------------------------------------------------------------
// Round trip
// ---------------------------------------------------------------------------

/// Skipping blanks leaves a blank-free head untouched.
proof fn lemma_ws_nop(s: Seq<char>)
    requires
        s.len() > 0,
        !is_ws(s[0]),
    ensures
        skip_ws(s) == s,
{
}

/// A punctuation token at the head is consumed exactly.
proof fn lemma_tok_rt(c: char, rest: Seq<char>)
    requires
        !is_ws(c),
    ensures
        p_tok(seq![c] + rest, c) == Some(rest),
    decreases 0nat,
{
    let s = seq![c] + rest;
    assert(s[0] == c);
    lemma_ws_nop(s);
    assert(s.drop_first() =~= rest);
}

/// Every character's code point is non-negative.
proof fn lemma_char_nonneg(c: char)
    ensures
        c as int >= 0,
{
}

/// A serialized string body parses back to the string it came from.
proof fn lemma_str_body_rt(s: Seq<char>, rest: Seq<char>)
    ensures
        p_str_body(esc_str(s) + (seq!['"'] + rest)) == Some((s, rest)),
    decreases s.len(),
{
    let whole = esc_str(s) + (seq!['"'] + rest);
    if s.len() == 0 {
        assert(whole =~= seq!['"'] + rest);
        assert(whole[0] == '"');
        assert(whole.drop_first() =~= rest);
        assert(Seq::<char>::empty() =~= s);
    } else {
        let c = s[0];
        let tail = esc_str(s.drop_first()) + (seq!['"'] + rest);
        assert(whole =~= esc_char(c) + tail) by {
            lemma_esc_app(seq![c], s.drop_first());
            assert(s =~= seq![c] + s.drop_first());
            assert(esc_str(seq![c]) == esc_char(c) + esc_str(Seq::<char>::empty())) by {
                assert(seq![c].drop_first() =~= Seq::<char>::empty());
                assert(seq![c][0] == c);
            }
            assert(esc_char(c) + esc_str(Seq::<char>::empty()) =~= esc_char(c));
        }
        lemma_str_body_rt(s.drop_first(), rest);
        if c == '"' {
            assert(whole[0] == '\\' && whole[1] == '"');
            assert(whole.skip(2) =~= tail);
            assert(seq![unesc('"')] + s.drop_first() =~= s);
        } else if c == '\\' {
            assert(whole[0] == '\\' && whole[1] == '\\');
            assert(whole.skip(2) =~= tail);
            assert(seq![unesc('\\')] + s.drop_first() =~= s);
        } else if c == '\n' {
            assert(whole[0] == '\\' && whole[1] == 'n');
            assert(whole.skip(2) =~= tail);
            assert(seq![unesc('n')] + s.drop_first() =~= s);
        } else if c == '\r' {
            assert(whole[0] == '\\' && whole[1] == 'r');
            assert(whole.skip(2) =~= tail);
            assert(seq![unesc('r')] + s.drop_first() =~= s);
        } else if c == '\t' {
            assert(whole[0] == '\\' && whole[1] == 't');
            assert(whole.skip(2) =~= tail);
            assert(seq![unesc('t')] + s.drop_first() =~= s);
        } else if (c as int) < 32 {
            let ci = c as int;
            assert(ci < 32);
            lemma_char_nonneg(c);
            assert(ci >= 0);
            let hi = (ci / 16) as nat;
            let lo = (ci % 16) as nat;
            assert(ci / 16 >= 0 && ci / 16 <= 1 && 0 <= ci % 16 < 16 && (ci / 16) * 16 + ci % 16
                == ci) by (nonlinear_arith)
                requires
                    0 <= ci < 32,
            ;
            assert(whole[0] == '\\' && whole[1] == 'u' && whole[2] == '0' && whole[3] == '0');
            assert(whole[4] == hex_char(hi) && whole[5] == hex_char(lo));
            assert(whole.skip(6) =~= tail);
            assert(hi <= 1);
            assert(hex_char(hi) == '0' || hex_char(hi) == '1');
            assert(hex_val(hex_char(hi)) == hi as int);
            assert(hex_val(hex_char(lo)) == lo as int);
            assert((hex_val(whole[4]) * 16 + hex_val(whole[5])) as nat == c as nat);
            assert(ctl_char(c as nat) == c) by {
                lemma_ctl_char_val(c as nat);
                assert(ctl_char(c as nat) as int == c as int);
            }
            assert(seq![c] + s.drop_first() =~= s);
        } else {
            assert(whole[0] == c);
            assert(c != '"' && c != '\\');
            assert(whole.drop_first() =~= tail);
            assert(seq![c] + s.drop_first() =~= s);
        }
    }
}

/// A serialized string parses back to the string it came from.
proof fn lemma_string_rt(s: Seq<char>, rest: Seq<char>)
    ensures
        p_string(ser_str(s) + rest) == Some((s, rest)),
{
    reveal(ser_str);
    let whole = ser_str(s) + rest;
    assert(whole[0] == '"');
    lemma_ws_nop(whole);
    assert(whole.drop_first() =~= esc_str(s) + (seq!['"'] + rest));
    lemma_str_body_rt(s, rest);
}

/// A serialized key parses back, leaving what follows the colon.
proof fn lemma_key_rt(k: Seq<char>, rest: Seq<char>)
    ensures
        p_key(ser_key(k) + rest, k) == Some(rest),
{
    reveal(ser_key);
    let whole = ser_key(k) + rest;
    assert(whole =~= ser_str(k) + (seq![':'] + rest));
    lemma_string_rt(k, seq![':'] + rest);
    lemma_tok_rt(':', rest);
}

/// A serialized C4 level token parses back to the same level.
proof fn lemma_level_rt(l: C4Level, rest: Seq<char>)
    ensures
        p_level(ser_str(c4_token(l)) + rest) == Some((l, rest)),
{
    lemma_string_rt(c4_token(l), rest);
    reveal_strlit("container");
    reveal_strlit("component");
    reveal_strlit("unknown");
    match l {
        C4Level::Container => {
        },
        C4Level::Component => {
            assert("component"@ != "container"@) by {
                assert("component"@[2] == 'm' && "container"@[2] == 'n');
            }
        },
        C4Level::Unknown => {
            assert("unknown"@.len() != "container"@.len());
            assert("unknown"@.len() != "component"@.len());
        },
    }
}

/// A serialized pattern-status token parses back to the same status.
proof fn lemma_status_rt(st: PatternStatus, rest: Seq<char>)
    ensures
        p_status(ser_str(status_token(st)) + rest) == Some((st, rest)),
{
    lemma_string_rt(status_token(st), rest);
    reveal_strlit("planned");
    reveal_strlit("verified");
    match st {
        PatternStatus::Planned => {
        },
        PatternStatus::Verified => {
            assert("verified"@.len() != "planned"@.len());
        },
    }
}

/// A serialized health token parses back to the same maturity.
proof fn lemma_health_rt(h: HealthStatus, rest: Seq<char>)
    ensures
        p_health(ser_str(health_token(h)) + rest) == Some((h, rest)),
{
    lemma_string_rt(health_token(h), rest);
    reveal_strlit("planned");
    reveal_strlit("active");
    reveal_strlit("stable");
    match h {
        HealthStatus::Planned => {
        },
        HealthStatus::Active => {
            assert("active"@.len() != "planned"@.len());
        },
        HealthStatus::Stable => {
            assert("stable"@ != "planned"@) by {
                assert("stable"@.len() != "planned"@.len());
            }
            assert("stable"@ != "active"@) by {
                assert("stable"@[0] == 's' && "active"@[0] == 'a');
            }
        },
    }
}

/// A serialized optional string parses back to the same option.
proof fn lemma_opt_str_rt(o: Option<Seq<char>>, rest: Seq<char>)
    ensures
        p_opt_str(ser_opt_str(o) + rest) == Some((o, rest)),
{
    reveal_strlit("null");
    reveal(ser_str);
    let whole = ser_opt_str(o) + rest;
    match o {
        None => {
            assert(whole[0] == 'n');
            lemma_ws_nop(whole);
            assert(whole.len() >= 4);
            assert(whole.subrange(0, 4) =~= "null"@) by {
                assert(whole[0] == 'n' && whole[1] == 'u' && whole[2] == 'l' && whole[3] == 'l');
            }
            assert(whole.skip(4) =~= rest);
        },
        Some(v) => {
            assert(whole[0] == '"');
            lemma_ws_nop(whole);
            if whole.len() >= 4 && whole.subrange(0, 4) == "null"@ {
                assert(whole.subrange(0, 4)[0] == 'n');
                assert(false);
            }
            lemma_string_rt(v, rest);
        },
    }
}

/// A serialized relationship parses back to the same edge.
#[verifier::rlimit(100)]
proof fn lemma_rel_rt(r: RelV, rest: Seq<char>)
    ensures
        p_rel(ser_rel(r) + rest) == Some((r, rest)),
{
    reveal(ser_rel);
    let whole = ser_rel(r) + rest;
    let t1 = ser_key("target"@) + ser_str(r.target) + seq![','] + ser_key("label"@) + ser_str(
        r.label,
    ) + seq![','] + ser_key("protocol"@) + ser_str(r.protocol) + seq!['}'] + rest;
    assert(whole =~= seq!['{'] + t1);
    lemma_tok_rt('{', t1);
    let t2 = ser_str(r.target) + seq![','] + ser_key("label"@) + ser_str(r.label) + seq![',']
        + ser_key("protocol"@) + ser_str(r.protocol) + seq!['}'] + rest;
    assert(t1 =~= ser_key("target"@) + t2);
    lemma_key_rt("target"@, t2);
    let t3 = seq![','] + ser_key("label"@) + ser_str(r.label) + seq![','] + ser_key("protocol"@)
        + ser_str(r.protocol) + seq!['}'] + rest;
    assert(t2 =~= ser_str(r.target) + t3);
    lemma_string_rt(r.target, t3);
    let t4 = ser_key("label"@) + ser_str(r.label) + seq![','] + ser_key("protocol"@) + ser_str(
        r.protocol,
    ) + seq!['}'] + rest;
    assert(t3 =~= seq![','] + t4);
    lemma_tok_rt(',', t4);
    let t5 = ser_str(r.label) + seq![','] + ser_key("protocol"@) + ser_str(r.protocol) + seq!['}']
        + rest;
    assert(t4 =~= ser_key("label"@) + t5);
    lemma_key_rt("label"@, t5);
    let t6 = seq![','] + ser_key("protocol"@) + ser_str(r.protocol) + seq!['}'] + rest;
    assert(t5 =~= ser_str(r.label) + t6);
    lemma_string_rt(r.label, t6);
    let t7 = ser_key("protocol"@) + ser_str(r.protocol) + seq!['}'] + rest;
    assert(t6 =~= seq![','] + t7);
    lemma_tok_rt(',', t7);
    let t8 = ser_str(r.protocol) + seq!['}'] + rest;
    assert(t7 =~= ser_key("protocol"@) + t8);
    lemma_key_rt("protocol"@, t8);
    let t9 = seq!['}'] + rest;
    assert(t8 =~= ser_str(r.protocol) + t9);
    lemma_string_rt(r.protocol, t9);
    lemma_tok_rt('}', rest);
}

/// A serialized file entry parses back to the same row.
#[verifier::rlimit(100)]
proof fn lemma_file_rt(f: FileV, rest: Seq<char>)
    ensures
        p_file(ser_file(f) + rest) == Some((f, rest)),
{
    reveal(ser_file);
    let z15 = rest;
    let z14 = seq!['}'] + z15;
    let z13 = ser_str(health_token(f.health)) + z14;
    let z12 = ser_key("health"@) + z13;
    let z11 = seq![','] + z12;
    let z10 = ser_str(f.purpose) + z11;
    let z9 = ser_key("purpose"@) + z10;
    let z8 = seq![','] + z9;
    let z7 = ser_str(status_token(f.pattern_status)) + z8;
    let z6 = ser_key("pattern_status"@) + z7;
    let z5 = seq![','] + z6;
    let z4 = ser_str(f.pattern) + z5;
    let z3 = ser_key("pattern"@) + z4;
    let z2 = seq![','] + z3;
    let z1 = ser_str(f.name) + z2;
    let z0 = ser_key("name"@) + z1;
    assert(ser_file(f) + rest =~= seq!['{'] + z0);
    lemma_tok_rt('{', z0);
    lemma_key_rt("name"@, z1);
    lemma_string_rt(f.name, z2);
    lemma_tok_rt(',', z3);
    lemma_key_rt("pattern"@, z4);
    lemma_string_rt(f.pattern, z5);
    lemma_tok_rt(',', z6);
    lemma_key_rt("pattern_status"@, z7);
    lemma_status_rt(f.pattern_status, z8);
    lemma_tok_rt(',', z9);
    lemma_key_rt("purpose"@, z10);
    lemma_string_rt(f.purpose, z11);
    lemma_tok_rt(',', z12);
    lemma_key_rt("health"@, z13);
    lemma_health_rt(f.health, z14);
    lemma_tok_rt('}', z15);
}

/// A serialized relationship starts with an opening brace.
proof fn lemma_ser_rel_head(r: RelV)
    ensures
        ser_rel(r).len() > 0,
        ser_rel(r)[0] == '{',
{
    reveal(ser_rel);
    assert(ser_rel(r)[0] == '{') by {
        assert(ser_rel(r) =~= seq!['{'] + (ser_key("target"@) + ser_str(r.target) + seq![',']
            + ser_key("label"@) + ser_str(r.label) + seq![','] + ser_key("protocol"@) + ser_str(
            r.protocol,
        ) + seq!['}']));
    }
}

/// A serialized file entry starts with an opening brace.
proof fn lemma_ser_file_head(f: FileV)
    ensures
        ser_file(f).len() > 0,
        ser_file(f)[0] == '{',
{
    reveal(ser_file);
    assert(ser_file(f)[0] == '{') by {
        assert(ser_file(f) =~= seq!['{'] + (ser_key("name"@) + ser_str(f.name) + seq![',']
            + ser_key("pattern"@) + ser_str(f.pattern) + seq![','] + ser_key("pattern_status"@)
            + ser_str(status_token(f.pattern_status)) + seq![','] + ser_key("purpose"@) + ser_str(
            f.purpose,
        ) + seq![','] + ser_key("health"@) + ser_str(health_token(f.health)) + seq!['}']));
    }
}

/// A serialized relationship list body parses back item for item.
proof fn lemma_rels_tail_rt(rs: Seq<RelV>, rest: Seq<char>)
    requires
        rs.len() > 0,
    ensures
        p_rels_tail(ser_rels_body(rs) + (seq![']'] + rest)) == Some((rs, rest)),
    decreases rs.len(),
{
    let whole = ser_rels_body(rs) + (seq![']'] + rest);
    if rs.len() == 1 {
        assert(whole =~= ser_rel(rs[0]) + (seq![']'] + rest));
        lemma_rel_rt(rs[0], seq![']'] + rest);
        let t = skip_ws(seq![']'] + rest);
        lemma_ws_nop(seq![']'] + rest);
        assert((seq![']'] + rest)[0] == ']');
        assert((seq![']'] + rest).drop_first() =~= rest);
        assert(seq![rs[0]] =~= rs);
    } else {
        let tail = ser_rels_body(rs.drop_first()) + (seq![']'] + rest);
        assert(whole =~= ser_rel(rs[0]) + (seq![','] + tail));
        lemma_rel_rt(rs[0], seq![','] + tail);
        lemma_ws_nop(seq![','] + tail);
        assert((seq![','] + tail)[0] == ',');
        assert((seq![','] + tail).drop_first() =~= tail);
        assert(tail.len() < whole.len()) by {
            lemma_ser_rel_head(rs[0]);
        }
        lemma_rels_tail_rt(rs.drop_first(), rest);
        assert(seq![rs[0]] + rs.drop_first() =~= rs);
    }
}

/// A serialized relationship array parses back to the same list.
proof fn lemma_rels_rt(rs: Seq<RelV>, rest: Seq<char>)
    ensures
        p_rels(ser_rels(rs) + rest) == Some((rs, rest)),
{
    let whole = ser_rels(rs) + rest;
    let body = ser_rels_body(rs) + (seq![']'] + rest);
    assert(whole =~= seq!['['] + body);
    lemma_tok_rt('[', body);
    if rs.len() == 0 {
        assert(body =~= seq![']'] + rest);
        lemma_ws_nop(body);
        assert(body[0] == ']');
        assert(body.drop_first() =~= rest);
        assert(Seq::<RelV>::empty() =~= rs);
    } else {
        lemma_ser_rel_head(rs[0]);
        assert(body[0] == '{') by {
            assert(ser_rels_body(rs)[0] == ser_rel(rs[0])[0]);
        }
        lemma_ws_nop(body);
        lemma_rels_tail_rt(rs, rest);
    }
}

/// A serialized file list body parses back item for item.
proof fn lemma_files_tail_rt(fs: Seq<FileV>, rest: Seq<char>)
    requires
        fs.len() > 0,
    ensures
        p_files_tail(ser_files_body(fs) + (seq![']'] + rest)) == Some((fs, rest)),
    decreases fs.len(),
{
    let whole = ser_files_body(fs) + (seq![']'] + rest);
    if fs.len() == 1 {
        assert(whole =~= ser_file(fs[0]) + (seq![']'] + rest));
        lemma_file_rt(fs[0], seq![']'] + rest);
        lemma_ws_nop(seq![']'] + rest);
        assert((seq![']'] + rest)[0] == ']');
        assert((seq![']'] + rest).drop_first() =~= rest);
        assert(seq![fs[0]] =~= fs);
    } else {
        let tail = ser_files_body(fs.drop_first()) + (seq![']'] + rest);
        assert(whole =~= ser_file(fs[0]) + (seq![','] + tail));
        lemma_file_rt(fs[0], seq![','] + tail);
        lemma_ws_nop(seq![','] + tail);
        assert((seq![','] + tail)[0] == ',');
        assert((seq![','] + tail).drop_first() =~= tail);
        assert(tail.len() < whole.len()) by {
            lemma_ser_file_head(fs[0]);
        }
        lemma_files_tail_rt(fs.drop_first(), rest);
        assert(seq![fs[0]] + fs.drop_first() =~= fs);
    }
}

/// A serialized file array parses back to the same list.
proof fn lemma_files_rt(fs: Seq<FileV>, rest: Seq<char>)
    ensures
        p_files(ser_files(fs) + rest) == Some((fs, rest)),
{
    let whole = ser_files(fs) + rest;
    let body = ser_files_body(fs) + (seq![']'] + rest);
    assert(whole =~= seq!['['] + body);
    lemma_tok_rt('[', body);
    if fs.len() == 0 {
        assert(body =~= seq![']'] + rest);
        lemma_ws_nop(body);
        assert(body[0] == ']');
        assert(body.drop_first() =~= rest);
        assert(Seq::<FileV>::empty() =~= fs);
    } else {
        lemma_ser_file_head(fs[0]);
        assert(body[0] == '{') by {
            assert(ser_files_body(fs)[0] == ser_file(fs[0])[0]);
        }
        lemma_ws_nop(body);
        lemma_files_tail_rt(fs, rest);
    }
}

/// A serialized module object parses back to the same document.
#[verifier::rlimit(100)]
proof fn lemma_doc_rt(d: DocV, rest: Seq<char>)
    ensures
        p_doc(ser_doc(d) + rest) == Some((d, rest)),
{
    reveal(ser_doc_1);
    reveal(ser_doc_2);
    let back = ser_doc_3(d) + rest;
    let z12 = seq![','] + (ser_key("pattern"@) + (ser_str(d.pattern) + (seq![','] + (ser_key(
        "pattern_status"@,
    ) + (ser_str(status_token(d.pattern_status)) + (seq![','] + back))))));
    let z11 = ser_str(c4_token(d.c4_level)) + z12;
    let z10 = ser_key("c4_level"@) + z11;
    let z9 = seq![','] + z10;
    let z8 = ser_str(d.source_file) + z9;
    let z7 = ser_key("source_file"@) + z8;
    let z6 = seq![','] + z7;
    let z5 = ser_str(d.content) + z6;
    let z4 = ser_key("content"@) + z5;
    let z3 = seq![','] + z4;
    let z2 = ser_str(d.mod_path) + z3;
    let z1 = ser_key("module_path"@) + z2;
    assert(ser_doc(d) + rest =~= seq!['{'] + z1);
    lemma_tok_rt('{', z1);
    lemma_key_rt("module_path"@, z2);
    lemma_string_rt(d.mod_path, z3);
    lemma_tok_rt(',', z4);
    lemma_key_rt("content"@, z5);
    lemma_string_rt(d.content, z6);
    lemma_tok_rt(',', z7);
    lemma_key_rt("source_file"@, z8);
    lemma_string_rt(d.source_file, z9);
    lemma_tok_rt(',', z10);
    lemma_key_rt("c4_level"@, z11);
    lemma_level_rt(d.c4_level, z12);
    lemma_doc_rest_rt(d, rest, z12);
}

/// The second half of a serialized module object parses back.
#[verifier::rlimit(100)]
proof fn lemma_doc_rest_rt(d: DocV, rest: Seq<char>, u: Seq<char>)
    requires
        u == seq![','] + (ser_key("pattern"@) + (ser_str(d.pattern) + (seq![','] + (ser_key(
            "pattern_status"@,
        ) + (ser_str(status_token(d.pattern_status)) + (seq![','] + (ser_doc_3(d) + rest))))))),
    ensures
        p_doc_rest(d.mod_path, d.content, d.source_file, d.c4_level, u) == Some((d, rest)),
{
    reveal(ser_doc_3);
    let z18 = rest;
    let z17 = seq!['}'] + z18;
    let z16 = ser_files(d.files) + z17;
    let z15 = ser_key("files"@) + z16;
    let z14 = seq![','] + z15;
    let z13 = ser_rels(d.relationships) + z14;
    let z12 = ser_key("relationships"@) + z13;
    let z11 = seq![','] + z12;
    let z10 = ser_opt_str(d.parent_container) + z11;
    let z9 = ser_key("parent_container"@) + z10;
    let z8 = seq![','] + z9;
    let z7 = ser_str(d.description) + z8;
    let z6 = ser_key("description"@) + z7;
    let z5 = seq![','] + z6;
    let z4 = ser_str(status_token(d.pattern_status)) + z5;
    let z3 = ser_key("pattern_status"@) + z4;
    let z2 = seq![','] + z3;
    let z1 = ser_str(d.pattern) + z2;
    let z0 = ser_key("pattern"@) + z1;
    assert(u =~= seq![','] + z0);
    assert(seq![','] + z0 =~= u);
    lemma_tok_rt(',', z0);
    lemma_key_rt("pattern"@, z1);
    lemma_string_rt(d.pattern, z2);
    lemma_tok_rt(',', z3);
    lemma_key_rt("pattern_status"@, z4);
    lemma_status_rt(d.pattern_status, z5);
    lemma_tok_rt(',', z6);
    lemma_key_rt("description"@, z7);
    lemma_string_rt(d.description, z8);
    lemma_tok_rt(',', z9);
    lemma_key_rt("parent_container"@, z10);
    lemma_opt_str_rt(d.parent_container, z11);
    lemma_tok_rt(',', z12);
    lemma_key_rt("relationships"@, z13);
    lemma_rels_rt(d.relationships, z14);
    lemma_tok_rt(',', z15);
    lemma_key_rt("files"@, z16);
    lemma_files_rt(d.files, z17);
    lemma_tok_rt('}', z18);
}

/// A serialized module object starts with an opening brace.
proof fn lemma_ser_doc_head(d: DocV)
    ensures
        ser_doc(d).len() > 0,
        ser_doc(d)[0] == '{',
{
    reveal(ser_doc_1);
    assert(ser_doc_1(d)[0] == '{' && ser_doc_1(d).len() > 0) by {
        assert(ser_doc_1(d) =~= seq!['{'] + (ser_key("module_path"@) + ser_str(d.mod_path) + seq![
            ',',
        ] + ser_key("content"@) + ser_str(d.content) + seq![','] + ser_key("source_file"@)
            + ser_str(d.source_file) + seq![',']));
    }
    assert(ser_doc(d)[0] == ser_doc_1(d)[0]);
}

/// A serialized document list body parses back item for item.
proof fn lemma_docs_tail_rt(ds: Seq<DocV>, rest: Seq<char>)
    requires
        ds.len() > 0,
    ensures
        p_docs_tail(ser_docs_body(ds) + (seq![']'] + rest)) == Some((ds, rest)),
    decreases ds.len(),
{
    let whole = ser_docs_body(ds) + (seq![']'] + rest);
    if ds.len() == 1 {
        assert(whole =~= ser_doc(ds[0]) + (seq![']'] + rest));
        lemma_doc_rt(ds[0], seq![']'] + rest);
        lemma_ws_nop(seq![']'] + rest);
        assert((seq![']'] + rest)[0] == ']');
        assert((seq![']'] + rest).drop_first() =~= rest);
        assert(seq![ds[0]] =~= ds);
    } else {
        let tail = ser_docs_body(ds.drop_first()) + (seq![']'] + rest);
        assert(whole =~= ser_doc(ds[0]) + (seq![','] + tail));
        lemma_doc_rt(ds[0], seq![','] + tail);
        lemma_ws_nop(seq![','] + tail);
        assert((seq![','] + tail)[0] == ',');
        assert((seq![','] + tail).drop_first() =~= tail);
        assert(tail.len() < whole.len()) by {
            lemma_ser_doc_head(ds[0]);
        }
        lemma_docs_tail_rt(ds.drop_first(), rest);
        assert(seq![ds[0]] + ds.drop_first() =~= ds);
    }
}

/// Round-trip fidelity: any IR list, serialized to the wire format and read
/// back, is recovered element for element.
pub proof fn lemma_round_trip(ds: Seq<DocV>)
    ensures
        parse_ir(ser_docs(ds)) == Some(ds),
{
    let whole = ser_docs(ds);
    let body = ser_docs_body(ds) + (seq![']'] + Seq::<char>::empty());
    assert(whole =~= seq!['['] + body);
    lemma_tok_rt('[', body);
    if ds.len() == 0 {
        assert(body =~= seq![']'] + Seq::<char>::empty());
        lemma_ws_nop(body);
        assert(body[0] == ']');
        assert(body.drop_first() =~= Seq::<char>::empty());
        assert(Seq::<DocV>::empty() =~= ds);
    } else {
        lemma_ser_doc_head(ds[0]);
        assert(body[0] == '{') by {
            assert(ser_docs_body(ds)[0] == ser_doc(ds[0])[0]);
        }
        lemma_ws_nop(body);
        lemma_docs_tail_rt(ds, Seq::<char>::empty());
    }
}

} // verus!
