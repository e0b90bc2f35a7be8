//! Assembly of the IR from a source tree's files.
//!
//! The caller walks the tree and hands over every file as a `(path,
//! content)` pair; everything after that — picking out annotated module
//! entry files, extracting each field, deduplicating module paths and
//! sorting — is pure logic.

use vstd::prelude::*;

use crate::merge::{find_path, sort_by_path, sort_docs};
use crate::parser::{
    c4_level_of, description_of, extract_c4_level, extract_description, extract_file_table,
    extract_parent_container, extract_pattern, extract_pattern_status, extract_relationships,
    file_table_of, parent_of, pattern_of, pattern_status_of, rels_of,
};
use crate::path_resolver::{components, module_name_spec, path_to_module_name};
use crate::text::{
    chars_eq_str, chars_to_string, contains_lit, contains_seq, lines_of, matches_at, push_char,
    split_lines, split_pieces, split_sep, str_to_chars, trim_chars, trim_spec,
};
use crate::types::{DocV, ModuleDoc, docs_view};
use crate::validate::ends_with;

verus! {

/// A line that opens with an inner doc-comment marker, once trimmed.
pub open spec fn is_doc_line(l: Seq<char>) -> bool {
    matches_at(trim_spec(l), "//!"@, 0)
}

/// A blank line.
pub open spec fn is_blank_line(l: Seq<char>) -> bool {
    trim_spec(l).len() == 0
}

/// The annotation text carried by one doc-comment line.
pub open spec fn doc_body(l: Seq<char>) -> Seq<char> {
    let t = trim_spec(l);
    if t.len() == 3 {
        Seq::empty()
    } else if t.len() >= 4 && t[3] == ' ' {
        t.skip(4)
    } else {
        t.skip(3)
    }
}

/// The leading doc-comment bodies of the first `n` lines: reading stops at
/// the first line that is neither a doc comment nor blank.
pub open spec fn doc_bodies(lines: Seq<Seq<char>>, n: int) -> (bool, Seq<Seq<char>>)
    decreases n,
{
    if n <= 0 || n > lines.len() {
        (false, Seq::empty())
    } else {
        let prev = doc_bodies(lines, n - 1);
        if prev.0 {
            prev
        } else {
            let l = lines[n - 1];
            if is_doc_line(l) {
                (false, prev.1.push(doc_body(l)))
            } else if is_blank_line(l) {
                prev
            } else {
                (true, prev.1)
            }
        }
    }
}

/// Pieces joined with newlines.
pub open spec fn join_nl(ps: Seq<Seq<char>>) -> Seq<char>
    decreases ps.len(),
{
    if ps.len() == 0 {
        Seq::empty()
    } else if ps.len() == 1 {
        ps[0]
    } else {
        join_nl(ps.drop_last()) + seq!['\n'] + ps.last()
    }
}

/// What the doc-comment extraction yields for a file's content.
pub open spec fn doc_comments_of(s: Seq<char>) -> Option<Seq<char>> {
    let bs = doc_bodies(lines_of(s), lines_of(s).len() as int).1;
    if bs.len() == 0 {
        None
    } else {
        Some(join_nl(bs))
    }
}

/// Decide whether a trimmed line opens with the doc marker.
fn is_doc_line_exec(l: &[char]) -> (r: bool)
    ensures
        r == is_doc_line(l@),
{
    proof {
        reveal_strlit("//!");
    }
    let t = trim_chars(l);
    let ghost tv = trim_spec(l@);
    if t.len() >= 3 && t[0] == '/' && t[1] == '/' && t[2] == '!' {
        proof {
            assert(tv.subrange(0, 3) =~= "//!"@) by {
                assert("//!"@[0] == '/' && "//!"@[1] == '/' && "//!"@[2] == '!');
            }
        }
        true
    } else {
        proof {
            if matches_at(tv, "//!"@, 0) {
                assert(tv.subrange(0, 3)[0] == '/' && tv.subrange(0, 3)[1] == '/' && tv.subrange(
                    0,
                    3,
                )[2] == '!');
                assert(false);
            }
        }
        false
    }
}

/// Join character pieces with newlines.
#[verifier::loop_isolation(false)]
fn join_nl_exec(parts: &Vec<Vec<char>>) -> (r: String)
    ensures
        r@ == join_nl(parts@.map_values(|p: Vec<char>| p@)),
{
    let ghost pv = parts@.map_values(|p: Vec<char>| p@);
    let mut out = String::new();
    let mut i: usize = 0;
    proof {
        assert(pv.subrange(0, 0) =~= Seq::<Seq<char>>::empty());
        assert(out@ =~= join_nl(pv.subrange(0, 0)));
    }
    while i < parts.len()
        invariant
            i <= parts@.len(),
            out@ == join_nl(pv.subrange(0, i as int)),
        decreases parts@.len() - i,
    {
        proof {
            assert(pv[i as int] == parts@[i as int]@);
            assert(pv.subrange(0, i + 1).drop_last() =~= pv.subrange(0, i as int));
            assert(pv.subrange(0, i + 1).last() == pv[i as int]);
        }
        if i > 0 {
            push_char(&mut out, '\n');
        }
        let piece = chars_to_string(parts[i].as_slice());
        out.append(piece.as_str());
        proof {
            if i == 0 {
                assert(pv.subrange(0, 1).len() == 1);
                assert(out@ =~= join_nl(pv.subrange(0, 1)));
            } else {
                assert(out@ =~= join_nl(pv.subrange(0, i + 1)));
            }
        }
        i = i + 1;
    }
    proof {
        assert(pv.subrange(0, pv.len() as int) =~= pv);
    }
    out
}

/// Lift the leading `//!` block out of a file's text.
#[verifier::loop_isolation(false)]
pub fn extract_doc_comments(content: &str) -> (r: Option<String>)
    ensures
        match (doc_comments_of(content@), r) {
            (Some(d), Some(rv)) => rv@ == d,
            (None, None) => true,
            _ => false,
        },
{
    let c = str_to_chars(content);
    let lines = split_lines(c.as_slice());
    let ghost lv = lines_of(content@);
    let mut bodies: Vec<Vec<char>> = Vec::new();
    let mut stopped: bool = false;
    let mut i: usize = 0;
    proof {
        assert(bodies@.map_values(|p: Vec<char>| p@) =~= Seq::<Seq<char>>::empty());
    }
    while i < lines.len()
        invariant
            lines@.map_values(|l: Vec<char>| l@) == lv,
            lines@.len() == lv.len(),
            i <= lv.len(),
            stopped == doc_bodies(lv, i as int).0,
            bodies@.map_values(|p: Vec<char>| p@) == doc_bodies(lv, i as int).1,
        decreases lv.len() - i,
    {
        proof {
            assert(lv[i as int] == lines@[i as int]@);
        }
        if !stopped {
            if is_doc_line_exec(lines[i].as_slice()) {
                let t = trim_chars(lines[i].as_slice());
                let ghost tv = trim_spec(lv[i as int]);
                let body: Vec<char> = if t.len() == 3 {
                    Vec::new()
                } else if t.len() >= 4 && t[3] == ' ' {
                    crate::parser::slice_range_pub(t.as_slice(), 4, t.len())
                } else {
                    proof {
                        reveal_strlit("//!");
                        assert(tv.len() >= 3);
                    }
                    crate::parser::slice_range_pub(t.as_slice(), 3, t.len())
                };
                proof {
                    assert(body@ =~= doc_body(lv[i as int]));
                }
                let ghost b0 = bodies@;
                let ghost bv = body@;
                bodies.push(body);
                proof {
                    assert(bodies@.map_values(|p: Vec<char>| p@) =~= b0.map_values(
                        |p: Vec<char>| p@,
                    ).push(bv)) by {
                        assert(bodies@ =~= b0.push(bodies@[b0.len() as int]));
                    }
                }
            } else {
                let t = trim_chars(lines[i].as_slice());
                if t.len() > 0 {
                    stopped = true;
                }
            }
        }
        i = i + 1;
    }
    if bodies.len() == 0 {
        None
    } else {
        Some(join_nl_exec(&bodies))
    }
}

/// The IR entry a single file yields, if it is an annotated module entry.
pub open spec fn candidate_of(path: Seq<char>, content: Seq<char>, root: Seq<char>) -> Option<
    DocV,
> {
    let parts = split_sep(path, '/');
    let filename = parts.last();
    if crate::validate::name_in(components(path), "target"@) {
        None
    } else if !ends_with(filename, ".rs"@) {
        None
    } else {
        match doc_comments_of(content) {
            None => None,
            Some(doc) => if trim_spec(doc).len() == 0 {
                None
            } else {
                let standard = filename == "lib.rs"@ || filename == "mod.rs"@;
                if !standard && !(contains_seq(doc, "@c4 container"@) || contains_seq(
                    doc,
                    "@c4 component"@,
                )) {
                    None
                } else {
                    let mp = module_name_spec(path, root, filename);
                    Some(
                        DocV {
                            mod_path: mp,
                            content: doc,
                            source_file: path,
                            c4_level: c4_level_of(doc),
                            pattern: pattern_of(doc),
                            pattern_status: pattern_status_of(doc),
                            description: description_of(doc),
                            parent_container: parent_of(mp),
                            relationships: rels_of(lines_of(doc), lines_of(doc).len() as int),
                            files: file_table_of(doc),
                        },
                    )
                }
            },
        }
    }
}

/// The candidates of the first `n` files, first occurrence of each module
/// path kept.
pub open spec fn walk_fold(
    files: Seq<(Seq<char>, Seq<char>)>,
    root: Seq<char>,
    n: int,
) -> Seq<DocV>
    decreases n,
{
    if n <= 0 || n > files.len() {
        Seq::empty()
    } else {
        let prev = walk_fold(files, root, n - 1);
        match candidate_of(files[n - 1].0, files[n - 1].1, root) {
            Some(d) => if find_path(prev, d.mod_path) >= 0 {
                prev
            } else {
                prev.push(d)
            },
            None => prev,
        }
    }
}

/// The IR entry a single file yields, if any.
#[verifier::loop_isolation(false)]
#[verifier::rlimit(100)]
fn candidate_exec(path: &str, content: &str, root: &str) -> (r: Option<ModuleDoc>)
    ensures
        match (candidate_of(path@, content@, root@), r) {
            (Some(dv), Some(d)) => d@ == dv,
            (None, None) => true,
            _ => false,
        },
{
    let pc = str_to_chars(path);
    let comps = crate::path_resolver::components_exec_pub(pc.as_slice());
    let mut in_target: bool = false;
    let mut i: usize = 0;
    while i < comps.len()
        invariant
            comps@.map_values(|p: Vec<char>| p@) == components(path@),
            comps@.len() == components(path@).len(),
            i <= comps@.len(),
            in_target == (exists|j: int|
                0 <= j < i && #[trigger] components(path@)[j] == "target"@),
        decreases comps@.len() - i,
    {
        proof {
            assert(components(path@)[i as int] == comps@[i as int]@);
        }
        if chars_eq_str(comps[i].as_slice(), "target") {
            in_target = true;
        }
        i = i + 1;
    }
    if in_target {
        proof {
            assert(crate::validate::name_in(components(path@), "target"@));
        }
        return None;
    }
    proof {
        assert(!crate::validate::name_in(components(path@), "target"@));
    }
    let pieces = split_pieces(pc.as_slice(), '/');
    proof {
        crate::text::lemma_split_nonempty(path@, '/');
        assert(pieces@.map_values(|p: Vec<char>| p@).last() == pieces@[pieces@.len() - 1]@);
    }
    let filename = &pieces[pieces.len() - 1];
    if !crate::validate::ends_with_rs_pub(filename.as_slice()) {
        return None;
    }
    let doc = match extract_doc_comments(content) {
        None => {
            return None;
        },
        Some(d) => d,
    };
    let dc = str_to_chars(doc.as_str());
    let dt = trim_chars(dc.as_slice());
    if dt.len() == 0 {
        return None;
    }
    let standard = chars_eq_str(filename.as_slice(), "lib.rs") || chars_eq_str(
        filename.as_slice(),
        "mod.rs",
    );
    if !standard && !(contains_lit(dc.as_slice(), "@c4 container") || contains_lit(
        dc.as_slice(),
        "@c4 component",
    )) {
        return None;
    }
    let fname = chars_to_string(filename.as_slice());
    let mp = path_to_module_name(path, root, fname.as_str());
    let parent = extract_parent_container(mp.as_str());
    let d = ModuleDoc {
        mod_path: mp,
        content: doc.clone(),
        source_file: chars_to_string(pc.as_slice()),
        c4_level: extract_c4_level(doc.as_str()),
        pattern: extract_pattern(doc.as_str()),
        pattern_status: extract_pattern_status(doc.as_str()),
        description: extract_description(doc.as_str()),
        parent_container: parent,
        relationships: extract_relationships(doc.as_str()),
        files: extract_file_table(doc.as_str()),
    };
    proof {
        assert(d@ =~= candidate_of(path@, content@, root@)->0);
    }
    Some(d)
}

/// Assemble the IR from a source tree's files.
///
/// `files` holds every file of the tree as a `(path, content)` pair, in
/// walk order. Entry files (`lib.rs`, `mod.rs`) with a leading `//!` block
/// become modules; any other `.rs` file does too when its block carries a
/// `@c4` marker. The first file to claim a module path wins, and the
/// result is sorted by module path.
#[verifier::loop_isolation(false)]
#[verifier::rlimit(100)]
pub fn extract_all_docs(files: &Vec<(String, String)>, root: &str) -> (r: Vec<ModuleDoc>)
    ensures
        docs_view(r@) == sort_by_path(
            walk_fold(crate::check::tree_view(files@), root@, files@.len() as int),
        ),
{
    let ghost fv = crate::check::tree_view(files@);
    let mut acc: Vec<ModuleDoc> = Vec::new();
    let mut i: usize = 0;
    proof {
        assert(docs_view(acc@) =~= Seq::<DocV>::empty());
    }
    while i < files.len()
        invariant
            i <= files@.len(),
            fv.len() == files@.len(),
            docs_view(acc@) == walk_fold(fv, root@, i as int),
        decreases files@.len() - i,
    {
        proof {
            assert(fv[i as int] == (files@[i as int].0@, files@[i as int].1@));
        }
        match candidate_exec(files[i].0.as_str(), files[i].1.as_str(), root) {
            Some(d) => {
                let found = crate::merge::find_path_pub(&acc, &d.mod_path);
                match found {
                    Some(_) => {
                        proof {
                            assert(docs_view(acc@) =~= walk_fold(fv, root@, i + 1));
                        }
                    },
                    None => {
                        let ghost a0 = acc@;
                        let ghost dv = d@;
                        acc.push(d);
                        proof {
                            assert(docs_view(acc@) =~= docs_view(a0).push(dv)) by {
                                assert(acc@ =~= a0.push(acc@[a0.len() as int]));
                            }
                            assert(docs_view(acc@) =~= walk_fold(fv, root@, i + 1));
                        }
                    },
                }
            },
            None => {
                proof {
                    assert(docs_view(acc@) =~= walk_fold(fv, root@, i + 1));
                }
            },
        }
        i = i + 1;
    }
    sort_docs(acc)
}

} // verus!
