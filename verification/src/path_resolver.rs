//! Conversion of file paths to dot-notation module paths.

use vstd::prelude::*;

use crate::text::{
    chars_eq_str, chars_to_string, matches_at, push_char, split_pieces, split_sep, str_to_chars,
};
use crate::validate::{dir_of, ends_with};

verus! {

/// `s` starts with `prefix`.
pub open spec fn starts_with(s: Seq<char>, prefix: Seq<char>) -> bool {
    matches_at(s, prefix, 0)
}

/// The path made relative to `root`: the prefix and one following slash
/// removed where it applies, the path itself otherwise.
pub open spec fn relative_to(path: Seq<char>, root: Seq<char>) -> Seq<char> {
    if starts_with(path, root) {
        let rest = path.skip(root.len() as int);
        if rest.len() > 0 && rest[0] == '/' {
            rest.skip(1)
        } else {
            rest
        }
    } else {
        path
    }
}

/// The non-empty slash-separated components of a path.
pub open spec fn components(s: Seq<char>) -> Seq<Seq<char>> {
    split_sep(s, '/').filter(|p: Seq<char>| p.len() > 0)
}

/// Components joined with dots.
pub open spec fn join_dot(ps: Seq<Seq<char>>) -> Seq<char>
    decreases ps.len(),
{
    if ps.len() == 0 {
        Seq::empty()
    } else if ps.len() == 1 {
        ps[0]
    } else {
        join_dot(ps.drop_last()) + seq!['.'] + ps.last()
    }
}

/// The file name without a trailing `.rs`.
pub open spec fn module_stem(filename: Seq<char>) -> Seq<char> {
    if ends_with(filename, ".rs"@) {
        filename.subrange(0, filename.len() - 3)
    } else {
        filename
    }
}

/// What `path_to_module_name` returns: `_lib` for a crate root, the parent
/// components for a `mod.rs`, and the parent components plus the file stem
/// for a flat module file.
pub open spec fn module_name_spec(
    path: Seq<char>,
    root: Seq<char>,
    filename: Seq<char>,
) -> Seq<char> {
    let parts = components(dir_of(relative_to(path, root)));
    if filename == "lib.rs"@ {
        "_lib"@
    } else if filename == "mod.rs"@ {
        join_dot(parts)
    } else {
        let stem = module_stem(filename);
        if parts.len() == 0 {
            stem
        } else {
            join_dot(parts.push(stem))
        }
    }
}

/// Join a list of character pieces with dots.
#[verifier::loop_isolation(false)]
fn join_dot_exec(parts: &Vec<Vec<char>>) -> (r: String)
    ensures
        r@ == join_dot(parts@.map_values(|p: Vec<char>| p@)),
{
    let ghost pv = parts@.map_values(|p: Vec<char>| p@);
    let mut out = String::new();
    let mut i: usize = 0;
    proof {
        assert(pv.subrange(0, 0) =~= Seq::<Seq<char>>::empty());
        assert(out@ =~= join_dot(pv.subrange(0, 0)));
    }
    while i < parts.len()
        invariant
            i <= parts@.len(),
            out@ == join_dot(pv.subrange(0, i as int)),
        decreases parts@.len() - i,
    {
        proof {
            assert(pv[i as int] == parts@[i as int]@);
            assert(pv.subrange(0, i + 1).drop_last() =~= pv.subrange(0, i as int));
            assert(pv.subrange(0, i + 1).last() == pv[i as int]);
        }
        if i > 0 {
            push_char(&mut out, '.');
        }
        let piece = chars_to_string(parts[i].as_slice());
        out.append(piece.as_str());
        proof {
            if i == 0 {
                assert(pv.subrange(0, 1).len() == 1);
                assert(out@ =~= join_dot(pv.subrange(0, 1)));
            } else {
                assert(out@ =~= join_dot(pv.subrange(0, i + 1)));
            }
        }
        i = i + 1;
    }
    proof {
        assert(pv.subrange(0, pv.len() as int) =~= pv);
    }
    out
}

/// The non-empty slash components of a character sequence.
#[verifier::loop_isolation(false)]
pub fn components_exec_pub(s: &[char]) -> (r: Vec<Vec<char>>)
    ensures
        r@.map_values(|p: Vec<char>| p@) == components(s@),
{
    let pieces = split_pieces(s, '/');
    let ghost all = split_sep(s@, '/');
    let mut out: Vec<Vec<char>> = Vec::new();
    let mut i: usize = 0;
    proof {
        assert(all.subrange(0, 0) =~= Seq::<Seq<char>>::empty());
        assert(out@.map_values(|p: Vec<char>| p@) =~= all.subrange(0, 0).filter(
            |p: Seq<char>| p.len() > 0,
        ));
    }
    while i < pieces.len()
        invariant
            i <= pieces@.len(),
            pieces@.map_values(|p: Vec<char>| p@) == all,
            all.len() == pieces@.len(),
            out@.map_values(|p: Vec<char>| p@) == all.subrange(0, i as int).filter(
                |p: Seq<char>| p.len() > 0,
            ),
        decreases pieces@.len() - i,
    {
        proof {
            assert(all[i as int] == pieces@[i as int]@);
            assert(all.subrange(0, i + 1).drop_last() =~= all.subrange(0, i as int));
            assert(all.subrange(0, i + 1).last() == all[i as int]);
            reveal(Seq::filter);
        }
        if pieces[i].len() > 0 {
            let mut copy: Vec<char> = Vec::new();
            let mut t: usize = 0;
            while t < pieces[i].len()
                invariant
                    i < pieces@.len(),
                    t <= pieces@[i as int]@.len(),
                    copy@ == pieces@[i as int]@.subrange(0, t as int),
                decreases pieces@[i as int]@.len() - t,
            {
                copy.push(pieces[i][t]);
                assert(copy@ =~= pieces@[i as int]@.subrange(0, t + 1 as int));
                t = t + 1;
            }
            proof {
                assert(copy@ =~= pieces@[i as int]@);
            }
            let ghost o0 = out@;
            out.push(copy);
            proof {
                assert(out@.map_values(|p: Vec<char>| p@) =~= o0.map_values(|p: Vec<char>| p@)
                    .push(all[i as int])) by {
                    assert(out@ =~= o0.push(copy));
                }
                assert(out@.map_values(|p: Vec<char>| p@) =~= all.subrange(0, i + 1).filter(
                    |p: Seq<char>| p.len() > 0,
                ));
            }
        } else {
            proof {
                assert(out@.map_values(|p: Vec<char>| p@) =~= all.subrange(0, i + 1).filter(
                    |p: Seq<char>| p.len() > 0,
                ));
            }
        }
        i = i + 1;
    }
    proof {
        assert(all.subrange(0, all.len() as int) =~= all);
    }
    out
}

/// Convert a file path to a dot-notation module path.
///
/// A `mod.rs` names its directory chain; `lib.rs` names the crate root
/// `_lib`; any other `.rs` file is a flat module named by its stem under
/// its directory chain.
#[verifier::rlimit(100)]
pub fn path_to_module_name(path: &str, root: &str, filename: &str) -> (r: String)
    ensures
        r@ == module_name_spec(path@, root@, filename@),
{
    let pc = str_to_chars(path);
    let rc = str_to_chars(root);
    let fc = str_to_chars(filename);
    if chars_eq_str(fc.as_slice(), "lib.rs") {
        return String::from_str("_lib");
    }
    let rel: Vec<char> = if rc.len() <= pc.len() && crate::text::match_at(
        pc.as_slice(),
        rc.as_slice(),
        0,
    ) {
        let from = if rc.len() < pc.len() && pc[rc.len()] == '/' {
            rc.len() + 1
        } else {
            rc.len()
        };
        let mut v: Vec<char> = Vec::new();
        let mut t: usize = from;
        proof {
            let rest = pc@.skip(rc@.len() as int);
            if rest.len() > 0 && rest[0] == '/' {
                assert(rest[0] == pc@[rc@.len() as int]);
                assert(rest.skip(1) =~= pc@.skip(from as int));
            } else {
                assert(rest =~= pc@.skip(from as int));
            }
            assert(v@ =~= pc@.subrange(from as int, from as int));
        }
        while t < pc.len()
            invariant
                from <= t <= pc@.len(),
                v@ == pc@.subrange(from as int, t as int),
            decreases pc@.len() - t,
        {
            v.push(pc[t]);
            assert(v@ =~= pc@.subrange(from as int, t + 1 as int));
            t = t + 1;
        }
        proof {
            assert(pc@.subrange(from as int, pc@.len() as int) =~= pc@.skip(from as int));
            assert(v@ == relative_to(path@, root@));
        }
        v
    } else {
        proof {
            if starts_with(path@, root@) {
                assert(root@.len() <= path@.len());
            }
        }
        let mut v: Vec<char> = Vec::new();
        let mut t: usize = 0;
        while t < pc.len()
            invariant
                t <= pc@.len(),
                v@ == pc@.subrange(0, t as int),
            decreases pc@.len() - t,
        {
            v.push(pc[t]);
            assert(v@ =~= pc@.subrange(0, t + 1 as int));
            t = t + 1;
        }
        proof {
            assert(v@ =~= pc@);
        }
        v
    };
    let parent = crate::validate::dir_of_chars(rel.as_slice());
    let parts = components_exec_pub(parent.as_slice());
    if chars_eq_str(fc.as_slice(), "mod.rs") {
        return join_dot_exec(&parts);
    }
    let stem: Vec<char> = if crate::validate::ends_with_rs_pub(fc.as_slice()) {
        proof {
            reveal_strlit(".rs");
            assert(fc@.len() >= 3);
        }
        let mut v: Vec<char> = Vec::new();
        let mut t: usize = 0;
        while t < fc.len() - 3
            invariant
                fc@.len() >= 3,
                t <= fc@.len() - 3,
                v@ == fc@.subrange(0, t as int),
            decreases fc@.len() - 3 - t,
        {
            v.push(fc[t]);
            assert(v@ =~= fc@.subrange(0, t + 1 as int));
            t = t + 1;
        }
        v
    } else {
        let mut v: Vec<char> = Vec::new();
        let mut t: usize = 0;
        while t < fc.len()
            invariant
                t <= fc@.len(),
                v@ == fc@.subrange(0, t as int),
            decreases fc@.len() - t,
        {
            v.push(fc[t]);
            assert(v@ =~= fc@.subrange(0, t + 1 as int));
            t = t + 1;
        }
        proof {
            assert(v@ =~= fc@);
        }
        v
    };
    proof {
        reveal_strlit(".rs");
        assert(stem@ == module_stem(filename@));
    }
    if parts.len() == 0 {
        proof {
            assert(components(dir_of(relative_to(path@, root@))).len() == 0);
        }
        chars_to_string(stem.as_slice())
    } else {
        let mut all = parts;
        let ghost av = all@.map_values(|p: Vec<char>| p@);
        all.push(stem);
        proof {
            assert(all@.map_values(|p: Vec<char>| p@) =~= av.push(module_stem(filename@)));
        }
        join_dot_exec(&all)
    }
}

} // verus!
