//! Merge engine: reconciles IR sets emitted by independent adapters into one
//! consistent architecture graph.
//!
//! Sets are processed in input order. A module path seen again with the same
//! C4 level is replaced (last source wins); seen again with a different level
//! it fails the whole merge. The result is sorted by module path.

use vstd::prelude::*;

use crate::text::{chars_le, lex_le, lex_lt, str_to_chars};
use crate::types::{c4_token, C4Level, DocV, ModuleDoc};

verus! {

/// Error returned when merge meets conflicting module definitions.
#[derive(Debug)]
pub struct MergeError {
    pub mod_path: String,
    pub message: String,
}

/// A conflict, in the model: the path and the two clashing levels.
#[verifier::ext_equal]
pub ghost struct ConflictV {
    pub mod_path: Seq<char>,
    pub existing: C4Level,
    pub incoming: C4Level,
}

/// The text of a conflict error message.
pub open spec fn conflict_msg(existing: C4Level, incoming: C4Level) -> Seq<char> {
    "conflicting C4 levels: existing '"@ + c4_token(existing) + "' vs new '"@ + c4_token(incoming)
        + "'"@
}

/// Index of the first document with path `p` in `acc`, or -1.
pub open spec fn find_path(acc: Seq<DocV>, p: Seq<char>) -> int
    decreases acc.len(),
{
    if acc.len() == 0 {
        -1
    } else if acc[0].mod_path == p {
        0
    } else {
        let r = find_path(acc.drop_first(), p);
        if r == -1 {
            -1
        } else {
            r + 1
        }
    }
}

/// Insert `d`, replacing the entry that already carries its path if any.
pub open spec fn upsert(acc: Seq<DocV>, d: DocV) -> Seq<DocV> {
    let i = find_path(acc, d.mod_path);
    if i >= 0 {
        acc.update(i, d)
    } else {
        acc.push(d)
    }
}

/// Process documents in order over an accumulator, detecting level conflicts.
pub open spec fn merge_fold(acc: Seq<DocV>, rest: Seq<DocV>) -> Result<Seq<DocV>, ConflictV>
    decreases rest.len(),
{
    if rest.len() == 0 {
        Ok(acc)
    } else {
        let d = rest[0];
        let i = find_path(acc, d.mod_path);
        if i >= 0 && acc[i].c4_level != d.c4_level {
            Err(
                ConflictV {
                    mod_path: d.mod_path,
                    existing: acc[i].c4_level,
                    incoming: d.c4_level,
                },
            )
        } else {
            merge_fold(upsert(acc, d), rest.drop_first())
        }
    }
}

/// Insert a document into a path-sorted sequence, before the first entry
/// whose path is not below its own.
pub open spec fn insert_sorted(d: DocV, s: Seq<DocV>) -> Seq<DocV>
    decreases s.len(),
{
    if s.len() == 0 {
        seq![d]
    } else if lex_le(d.mod_path, s[0].mod_path) {
        seq![d] + s
    } else {
        seq![s[0]] + insert_sorted(d, s.drop_first())
    }
}

/// Sort a document sequence by module path (stable insertion order).
pub open spec fn sort_by_path(s: Seq<DocV>) -> Seq<DocV>
    decreases s.len(),
{
    if s.len() == 0 {
        Seq::empty()
    } else {
        insert_sorted(s.last(), sort_by_path(s.drop_last()))
    }
}

/// The view of a list of IR sets.
pub open spec fn sources_view(s: Seq<Vec<ModuleDoc>>) -> Seq<Seq<DocV>> {
    s.map_values(|x: Vec<ModuleDoc>| crate::types::docs_view(x@))
}

/// The whole merge, in the model: fold all sets in order, then sort.
pub open spec fn merge_spec(sources: Seq<Seq<DocV>>) -> Result<Seq<DocV>, ConflictV> {
    match merge_fold(Seq::empty(), sources.flatten()) {
        Ok(m) => Ok(sort_by_path(m)),
        Err(c) => Err(c),
    }
}

/// Folding a concatenation folds the parts in turn.
proof fn lemma_merge_fold_app(acc: Seq<DocV>, r1: Seq<DocV>, r2: Seq<DocV>)
    ensures
        merge_fold(acc, r1 + r2) == match merge_fold(acc, r1) {
            Ok(m) => merge_fold(m, r2),
            Err(c) => Err(c),
        },
    decreases r1.len(),
{
    if r1.len() == 0 {
        assert(r1 + r2 =~= r2);
        assert(merge_fold(acc, r1) == Ok::<Seq<DocV>, ConflictV>(acc));
    } else {
        let d = r1[0];
        assert((r1 + r2)[0] == d);
        assert((r1 + r2).len() > 0);
        let i = find_path(acc, d.mod_path);
        if i >= 0 && acc[i].c4_level != d.c4_level {
        } else {
            assert((r1 + r2).drop_first() =~= r1.drop_first() + r2);
            lemma_merge_fold_app(upsert(acc, d), r1.drop_first(), r2);
        }
    }
}

/// Where the first matching index is `k`, `insert_sorted` puts `d` there.
proof fn lemma_insert_sorted_at(d: DocV, s: Seq<DocV>, k: int)
    requires
        0 <= k <= s.len(),
        forall|j: int| 0 <= j < k ==> !lex_le(d.mod_path, #[trigger] s[j].mod_path),
        k < s.len() ==> lex_le(d.mod_path, s[k].mod_path),
    ensures
        insert_sorted(d, s) == s.subrange(0, k) + seq![d] + s.subrange(k, s.len() as int),
    decreases s.len(),
{
    if s.len() == 0 {
        assert(insert_sorted(d, s) =~= s.subrange(0, 0) + seq![d] + s.subrange(0, 0));
    } else if lex_le(d.mod_path, s[0].mod_path) {
        assert(k == 0);
        assert(seq![d] + s =~= s.subrange(0, 0) + seq![d] + s.subrange(0, s.len() as int));
    } else {
        assert(k >= 1);
        let t = s.drop_first();
        assert(forall|j: int| 0 <= j < k - 1 ==> t[j] == s[j + 1]);
        lemma_insert_sorted_at(d, t, k - 1);
        assert(seq![s[0]] + (t.subrange(0, k - 1) + seq![d] + t.subrange(k - 1, t.len() as int))
            =~= s.subrange(0, k) + seq![d] + s.subrange(k, s.len() as int));
    }
}

/// Find the first entry in `acc` that carries path `p`.
pub fn find_path_pub(acc: &Vec<ModuleDoc>, p: &String) -> (r: Option<usize>)
    ensures
        match r {
            Some(i) => i < acc@.len() && find_path(crate::types::docs_view(acc@), p@) == i as int,
            None => find_path(crate::types::docs_view(acc@), p@) == -1,
        },
{
    let ghost av = crate::types::docs_view(acc@);
    let mut i: usize = 0;
    while i < acc.len()
        invariant
            av == crate::types::docs_view(acc@),
            av.len() == acc@.len(),
            i <= acc@.len(),
            forall|j: int| 0 <= j < i ==> av[j].mod_path != p@,
        decreases acc@.len() - i,
    {
        assert(av[i as int] == acc@[i as int]@);
        if acc[i].mod_path == *p {
            proof {
                lemma_find_path_first(av, p@, i as int);
            }
            return Some(i);
        }
        i = i + 1;
    }
    proof {
        lemma_find_path_none(av, p@);
    }
    None
}

/// If every entry before `k` misses and `k` hits, `find_path` returns `k`.
proof fn lemma_find_path_first(acc: Seq<DocV>, p: Seq<char>, k: int)
    requires
        0 <= k < acc.len(),
        forall|j: int| 0 <= j < k ==> acc[j].mod_path != p,
        acc[k].mod_path == p,
    ensures
        find_path(acc, p) == k,
    decreases k,
{
    if k > 0 {
        let t = acc.drop_first();
        assert(forall|j: int| 0 <= j < k - 1 ==> t[j] == acc[j + 1]);
        assert(t[k - 1] == acc[k]);
        lemma_find_path_first(t, p, k - 1);
    }
}

/// If no entry carries `p`, `find_path` returns -1.
proof fn lemma_find_path_none(acc: Seq<DocV>, p: Seq<char>)
    requires
        forall|j: int| 0 <= j < acc.len() ==> acc[j].mod_path != p,
    ensures
        find_path(acc, p) == -1,
    decreases acc.len(),
{
    if acc.len() > 0 {
        lemma_find_path_none(acc.drop_first(), p);
    }
}

/// The position at which `insert_sorted` would place a path among `out`.
fn insert_pos(out: &Vec<ModuleDoc>, dp: &Vec<char>) -> (k: usize)
    ensures
        k <= out@.len(),
        forall|j: int|
            0 <= j < k ==> !lex_le(dp@, #[trigger] crate::types::docs_view(out@)[j].mod_path),
        k < out@.len() ==> lex_le(dp@, crate::types::docs_view(out@)[k as int].mod_path),
{
    let ghost ov = crate::types::docs_view(out@);
    let mut k: usize = 0;
    while k < out.len()
        invariant
            ov == crate::types::docs_view(out@),
            ov.len() == out@.len(),
            k <= out@.len(),
            forall|j: int| 0 <= j < k ==> !lex_le(dp@, #[trigger] ov[j].mod_path),
        decreases out@.len() - k,
    {
        assert(ov[k as int] == out@[k as int]@);
        let op = str_to_chars(out[k].mod_path.as_str());
        if chars_le(dp.as_slice(), op.as_slice()) {
            return k;
        }
        k = k + 1;
    }
    k
}

/// Sort a document vector by module path with insertion sort.
pub(crate) fn sort_docs(input: Vec<ModuleDoc>) -> (r: Vec<ModuleDoc>)
    ensures
        crate::types::docs_view(r@) == sort_by_path(crate::types::docs_view(input@)),
{
    let ghost full = crate::types::docs_view(input@);
    let mut rest = input;
    let mut out: Vec<ModuleDoc> = Vec::new();
    let ghost mut taken: int = 0;
    proof {
        assert(full.subrange(0, 0) =~= Seq::<DocV>::empty());
        assert(crate::types::docs_view(rest@) =~= full);
        assert(crate::types::docs_view(out@) =~= Seq::<DocV>::empty());
        assert(full.subrange(taken as int, full.len() as int) =~= full);
    }
    while rest.len() > 0
        invariant
            0 <= taken,
            taken + rest@.len() == full.len(),
            crate::types::docs_view(rest@) == full.subrange(taken, full.len() as int),
            crate::types::docs_view(out@) == sort_by_path(full.subrange(0, taken)),
        decreases rest@.len(),
    {
        let ghost rprev = rest@;
        let d = input_front(&mut rest);
        proof {
            assert(crate::types::docs_view(rprev)[0] == rprev[0]@);
            assert(d@ == full[taken]);
            lemma_view_tail(rprev, rest@, full, taken);
        }
        let ghost ov = crate::types::docs_view(out@);
        let dp = str_to_chars(d.mod_path.as_str());
        let k = insert_pos(&out, &dp);
        proof {
            lemma_insert_sorted_at(d@, ov, k as int);
        }
        out.insert(k, d);
        proof {
            assert(crate::types::docs_view(out@) =~= ov.subrange(0, k as int) + seq![d@]
                + ov.subrange(k as int, ov.len() as int));
            let pre = full.subrange(0, taken);
            let pre1 = full.subrange(0, taken + 1);
            assert(pre1.drop_last() =~= pre);
            assert(pre1.last() == full[taken]);
            assert(crate::types::docs_view(out@) == insert_sorted(d@, sort_by_path(pre)));
            taken = taken + 1;
        }
    }
    proof {
        assert(full.subrange(0, full.len() as int) =~= full);
    }
    out
}

/// Dropping the front of a vector drops the front of its view.
proof fn lemma_view_tail(prev: Seq<ModuleDoc>, now: Seq<ModuleDoc>, whole: Seq<DocV>, off: int)
    requires
        prev.len() > 0,
        now == prev.drop_first(),
        0 <= off,
        off + prev.len() == whole.len(),
        crate::types::docs_view(prev) == whole.subrange(off, whole.len() as int),
    ensures
        crate::types::docs_view(now) =~= whole.subrange(off + 1, whole.len() as int),
{
    let lhs = crate::types::docs_view(now);
    let rhs = whole.subrange(off + 1, whole.len() as int);
    assert(lhs.len() == rhs.len());
    assert forall|i: int| 0 <= i < lhs.len() implies lhs[i] == rhs[i] by {
        assert(lhs[i] == now[i]@);
        assert(now[i] == prev[i + 1]);
        assert(crate::types::docs_view(prev)[i + 1] == prev[i + 1]@);
        assert(crate::types::docs_view(prev)[i + 1] == whole[off + 1 + i]);
    };
}

/// Take the front document out of a vector.
fn input_front(v: &mut Vec<ModuleDoc>) -> (d: ModuleDoc)
    requires
        old(v)@.len() > 0,
    ensures
        d == old(v)@[0],
        final(v)@ == old(v)@.drop_first(),
{
    let d = v.remove(0);
    proof {
        assert(final(v)@ =~= old(v)@.drop_first());
    }
    d
}

/// What `merge_ir` promises: the executable result mirrors `merge_spec`.
pub open spec fn merge_post(srcs: Seq<Seq<DocV>>, r: Result<Vec<ModuleDoc>, MergeError>) -> bool {
    match merge_spec(srcs) {
        Ok(m) => r is Ok && crate::types::docs_view(r->Ok_0@) == m,
        Err(c) => r is Err && r->Err_0.mod_path@ == c.mod_path && r->Err_0.message@
            == conflict_msg(c.existing, c.incoming),
    }
}

/// Merge multiple IR sets into a single unified `ModuleDoc` list.
///
/// Modules with unique paths are included as they are; a duplicate path with
/// the same C4 level is replaced by the later source; a duplicate path with a
/// different C4 level fails the merge, naming the path and both levels. The
/// output is sorted lexicographically by module path.
#[verifier::loop_isolation(false)]
pub fn merge_ir(sources: Vec<Vec<ModuleDoc>>) -> (r: Result<Vec<ModuleDoc>, MergeError>)
    ensures
        merge_post(sources_view(sources@), r),
{
    let ghost srcs = sources_view(sources@);
    let ghost flat = srcs.flatten();
    let mut acc: Vec<ModuleDoc> = Vec::new();
    let mut remaining = sources;
    let ghost mut done: int = 0;
    proof {
        assert(srcs.subrange(0, 0).flatten() =~= Seq::<DocV>::empty());
        lemma_fold_prefix_empty();
        assert(crate::types::docs_view(acc@) =~= Seq::<DocV>::empty());
        assert(sources_view(remaining@)
            =~= srcs.subrange(0, srcs.len() as int));
    }
    while remaining.len() > 0
        invariant
            0 <= done <= srcs.len(),
            sources_view(remaining@)
                =~= srcs.subrange(done, srcs.len() as int),
            merge_fold(Seq::empty(), srcs.subrange(0, done).flatten()) == Ok::<
                Seq<DocV>,
                ConflictV,
            >(crate::types::docs_view(acc@)),
        decreases remaining@.len(),
    {
        let ghost remv = remaining@;
        proof {
            assert(sources_view(remv).len()
                == remv.len());
            assert(done < srcs.len());
        }
        let mut src = remaining.remove(0);
        let ghost sv = crate::types::docs_view(src@);
        let ghost mut used: int = 0;
        proof {
            assert(src == remv[0]);
            assert(sources_view(remv)[0]
                == crate::types::docs_view(remv[0]@));
            assert(sv == srcs[done]);
            assert(remaining@ =~= remv.drop_first());
            assert(sources_view(remaining@)
                =~= srcs.subrange(done + 1, srcs.len() as int)) by {
                let lhs = sources_view(remaining@);
                let prevm = sources_view(remv);
                assert forall|i: int| 0 <= i < lhs.len() implies lhs[i] == srcs[done + 1 + i] by {
                    assert(lhs[i] == crate::types::docs_view(remaining@[i]@));
                    assert(remaining@[i] == remv[i + 1]);
                    assert(prevm[i + 1] == crate::types::docs_view(remv[i + 1]@));
                    assert(prevm[i + 1] == srcs.subrange(done, srcs.len() as int)[i + 1]);
                };
            }
            assert(sv.subrange(0, 0) =~= Seq::<DocV>::empty());
            assert(srcs.subrange(0, done).flatten() + sv.subrange(0, 0) =~= srcs.subrange(
                0,
                done,
            ).flatten());
            assert(crate::types::docs_view(src@) =~= sv.subrange(used, sv.len() as int));
        }
        while src.len() > 0
            invariant
                0 <= done < srcs.len(),
                0 <= used <= sv.len(),
                sv == srcs[done],
                crate::types::docs_view(src@) =~= sv.subrange(used, sv.len() as int),
                merge_fold(
                    Seq::empty(),
                    srcs.subrange(0, done).flatten() + sv.subrange(0, used),
                ) == Ok::<Seq<DocV>, ConflictV>(crate::types::docs_view(acc@)),
            decreases src@.len(),
        {
            let ghost sprev = src@;
            let doc = input_front(&mut src);
            proof {
                assert(crate::types::docs_view(sprev)[0] == sprev[0]@);
                assert(crate::types::docs_view(sprev).len() == sprev.len());
                assert(used < sv.len());
                assert(crate::types::docs_view(sprev) == sv.subrange(used, sv.len() as int));
                assert(doc@ == sv[used]);
                lemma_view_tail(sprev, src@, sv, used);
            }
            let ghost av = crate::types::docs_view(acc@);
            let found = find_path_pub(&acc, &doc.mod_path);
            match found {
                Some(i) => {
                    assert(av[i as int] == acc@[i as int]@);
                    if !levels_equal(acc[i].c4_level, doc.c4_level) {
                        let msg = conflict_message(&acc[i].c4_level, &doc.c4_level);
                        let ghost d0 = doc@;
                        proof {
                            lemma_step_conflict(srcs, done, used, av, d0);
                            let fp = find_path(av, d0.mod_path);
                            assert(fp == i as int);
                            assert(av[fp].c4_level == acc@[i as int]@.c4_level);
                            assert(msg@ == conflict_msg(av[fp].c4_level, d0.c4_level));
                        }
                        let e = MergeError { mod_path: doc.mod_path, message: msg };
                        proof {
                            let ms = merge_spec(srcs);
                            assert(ms is Err);
                            assert(ms->Err_0.mod_path == d0.mod_path);
                            assert(ms->Err_0.existing == av[find_path(av, d0.mod_path)].c4_level);
                            assert(ms->Err_0.incoming == d0.c4_level);
                            assert(e.mod_path@ == d0.mod_path);
                            assert(e.message@ == conflict_msg(ms->Err_0.existing, ms->Err_0.incoming));
                            assert(merge_post(srcs, Err(e)));
                        }
                        return Err(e);
                    }
                    acc.set(i, doc);
                    proof {
                        assert(crate::types::docs_view(acc@) =~= upsert(av, sv[used]));
                        lemma_step_ok(srcs, done, used, av, sv[used]);
                    }
                },
                None => {
                    acc.push(doc);
                    proof {
                        assert(crate::types::docs_view(acc@) =~= upsert(av, sv[used]));
                        lemma_step_ok(srcs, done, used, av, sv[used]);
                    }
                },
            }
            proof {
                used = used + 1;
            }
        }
        proof {
            assert(sv.subrange(0, sv.len() as int) =~= sv);
            assert(srcs.subrange(0, done + 1).drop_last() =~= srcs.subrange(0, done));
            assert(srcs.subrange(0, done + 1).last() == srcs[done]);
            srcs.subrange(0, done + 1).lemma_flatten_and_flatten_alt_are_equivalent();
            srcs.subrange(0, done).lemma_flatten_and_flatten_alt_are_equivalent();
            assert(srcs.subrange(0, done + 1).flatten_alt() == srcs.subrange(
                0,
                done,
            ).flatten_alt() + srcs[done]);
            done = done + 1;
        }
    }
    proof {
        assert(sources_view(remaining@).len()
            == remaining@.len());
        assert(done == srcs.len());
        assert(srcs.subrange(0, srcs.len() as int) =~= srcs);
        assert(merge_fold(Seq::empty(), srcs.flatten()) == Ok::<Seq<DocV>, ConflictV>(
            crate::types::docs_view(acc@),
        ));
    }
    let sorted = sort_docs(acc);
    proof {
        assert(merge_post(srcs, Ok(sorted)));
    }
    Ok(sorted)
}

/// Starting from nothing, folding nothing yields nothing.
proof fn lemma_fold_prefix_empty()
    ensures
        merge_fold(Seq::empty(), Seq::<DocV>::empty()) == Ok::<Seq<DocV>, ConflictV>(
            Seq::<DocV>::empty(),
        ),
{
}

/// One non-conflicting step extends the folded prefix.
proof fn lemma_step_ok(srcs: Seq<Seq<DocV>>, done: int, used: int, av: Seq<DocV>, d: DocV)
    requires
        0 <= done < srcs.len(),
        0 <= used < srcs[done].len(),
        d == srcs[done][used],
        merge_fold(Seq::empty(), srcs.subrange(0, done).flatten() + srcs[done].subrange(0, used))
            == Ok::<Seq<DocV>, ConflictV>(av),
        !(find_path(av, d.mod_path) >= 0 && av[find_path(av, d.mod_path)].c4_level != d.c4_level),
    ensures
        merge_fold(
            Seq::empty(),
            srcs.subrange(0, done).flatten() + srcs[done].subrange(0, used + 1),
        ) == Ok::<Seq<DocV>, ConflictV>(upsert(av, d)),
{
    let pre = srcs.subrange(0, done).flatten() + srcs[done].subrange(0, used);
    let pre1 = srcs.subrange(0, done).flatten() + srcs[done].subrange(0, used + 1);
    assert(pre1 =~= pre + seq![d]);
    lemma_merge_fold_app(Seq::empty(), pre, seq![d]);
    assert(merge_fold(av, seq![d]) == Ok::<Seq<DocV>, ConflictV>(upsert(av, d))) by {
        assert(seq![d].len() == 1 && seq![d][0] == d);
        assert(seq![d].drop_first() =~= Seq::<DocV>::empty());
        assert(merge_fold(upsert(av, d), Seq::<DocV>::empty()) == Ok::<Seq<DocV>, ConflictV>(
            upsert(av, d),
        ));
    }
}

/// One conflicting step fails the whole fold with that conflict.
proof fn lemma_step_conflict(srcs: Seq<Seq<DocV>>, done: int, used: int, av: Seq<DocV>, d: DocV)
    requires
        0 <= done < srcs.len(),
        0 <= used < srcs[done].len(),
        d == srcs[done][used],
        merge_fold(Seq::empty(), srcs.subrange(0, done).flatten() + srcs[done].subrange(0, used))
            == Ok::<Seq<DocV>, ConflictV>(av),
        find_path(av, d.mod_path) >= 0,
        av[find_path(av, d.mod_path)].c4_level != d.c4_level,
    ensures
        merge_fold(Seq::empty(), srcs.flatten()) == Err::<Seq<DocV>, ConflictV>(
            ConflictV {
                mod_path: d.mod_path,
                existing: av[find_path(av, d.mod_path)].c4_level,
                incoming: d.c4_level,
            },
        ),
{
    let pre = srcs.subrange(0, done).flatten() + srcs[done].subrange(0, used);
    let all = srcs.flatten();
    let tail = suffix_after(srcs, done, used);
    assert(all =~= pre + tail) by {
        lemma_flatten_split(srcs, done, used);
    }
    lemma_merge_fold_app(Seq::empty(), pre, tail);
    assert(tail[0] == d);
    assert(merge_fold(av, tail) is Err);
}

/// Everything of `srcs` from position `used` of set `done` onward.
pub open spec fn suffix_after(srcs: Seq<Seq<DocV>>, done: int, used: int) -> Seq<DocV> {
    srcs[done].subrange(used, srcs[done].len() as int) + srcs.subrange(
        done + 1,
        srcs.len() as int,
    ).flatten()
}

/// The flattening splits around any interior position.
proof fn lemma_flatten_split(srcs: Seq<Seq<DocV>>, done: int, used: int)
    requires
        0 <= done < srcs.len(),
        0 <= used <= srcs[done].len(),
    ensures
        srcs.flatten() == (srcs.subrange(0, done).flatten() + srcs[done].subrange(0, used))
            + suffix_after(srcs, done, used),
    decreases done,
{
    if done == 0 {
        assert(srcs.flatten() == srcs[0] + srcs.drop_first().flatten()) by {
            assert(srcs == seq![srcs[0]] + srcs.drop_first());
            assert(srcs.drop_first() =~= srcs.subrange(1, srcs.len() as int));
            assert(srcs.flatten() =~= srcs[0] + srcs.subrange(1, srcs.len() as int).flatten());
        }
        assert(srcs.subrange(0, 0).flatten() =~= Seq::<DocV>::empty());
        assert(srcs[0] =~= srcs[0].subrange(0, used) + srcs[0].subrange(
            used,
            srcs[0].len() as int,
        ));
        assert(srcs.flatten() =~= (srcs.subrange(0, 0).flatten() + srcs[0].subrange(0, used))
            + suffix_after(srcs, 0, used));
    } else {
        let t = srcs.drop_first();
        lemma_flatten_split(t, done - 1, used);
        assert(t[done - 1] == srcs[done]);
        assert(srcs.flatten() =~= srcs[0] + t.flatten()) by {
            assert(t =~= srcs.subrange(1, srcs.len() as int));
            assert(srcs.flatten() =~= srcs[0] + srcs.subrange(1, srcs.len() as int).flatten());
        }
        assert(t.subrange(0, done - 1) =~= srcs.subrange(1, done));
        assert(t.subrange(done, t.len() as int) =~= srcs.subrange(done + 1, srcs.len() as int));
        assert(suffix_after(t, done - 1, used) =~= suffix_after(srcs, done, used));
        assert(srcs.subrange(0, done).flatten() =~= srcs[0] + srcs.subrange(1, done).flatten())
            by {
            assert(srcs.subrange(0, done)[0] == srcs[0]);
            assert(srcs.subrange(0, done).drop_first() =~= srcs.subrange(1, done));
            assert(srcs.subrange(0, done).flatten() =~= srcs.subrange(0, done)[0] + srcs.subrange(
                0,
                done,
            ).drop_first().flatten());
        }
        assert(srcs.flatten() =~= (srcs.subrange(0, done).flatten() + srcs[done].subrange(0, used))
            + suffix_after(srcs, done, used));
    }
}

/// Structural equality of two levels.
fn levels_equal(a: C4Level, b: C4Level) -> (r: bool)
    ensures
        r == (a == b),
{
    a == b
}

/// Build the conflict message named in the merge contract.
fn conflict_message(existing: &C4Level, incoming: &C4Level) -> (r: String)
    ensures
        r@ == conflict_msg(*existing, *incoming),
{
    let mut m = String::from_str("conflicting C4 levels: existing '");
    m.append(existing.token().as_str());
    m.append("' vs new '");
    m.append(incoming.token().as_str());
    m.append("'");
    m
}

/// Merge determinism: one fixed ordered list of IR sets has one merge result;
/// merging the same inputs twice yields identical output.
pub proof fn lemma_merge_deterministic(a: Seq<Seq<DocV>>, b: Seq<Seq<DocV>>)
    requires
        a == b,
    ensures
        merge_spec(a) == merge_spec(b),
{
}

/// Merge conflict detection: two sets that give one path two different C4
/// levels fail the merge, naming that path and both levels.
pub proof fn lemma_merge_conflict(d1: DocV, d2: DocV)
    requires
        d1.mod_path == d2.mod_path,
        d1.c4_level != d2.c4_level,
    ensures
        merge_spec(seq![seq![d1], seq![d2]]) == Err::<Seq<DocV>, ConflictV>(
            ConflictV { mod_path: d2.mod_path, existing: d1.c4_level, incoming: d2.c4_level },
        ),
{
    let srcs = seq![seq![d1], seq![d2]];
    let flat = srcs.flatten();
    assert(flat =~= seq![d1, d2]) by {
        assert(srcs.drop_first() =~= seq![seq![d2]]);
        assert(seq![seq![d2]].drop_first() =~= Seq::<Seq<DocV>>::empty());
        assert(srcs.flatten() =~= srcs[0] + srcs.drop_first().flatten());
        assert(seq![seq![d2]].flatten() =~= seq![d2] + Seq::<Seq<DocV>>::empty().flatten());
    }
    let acc0 = Seq::<DocV>::empty();
    assert(find_path(acc0, d1.mod_path) == -1);
    let acc1 = upsert(acc0, d1);
    assert(acc1 =~= seq![d1]);
    assert(flat.drop_first() =~= seq![d2]);
    assert(find_path(seq![d1], d2.mod_path) == 0);
    assert(merge_fold(seq![d1], seq![d2]) == Err::<Seq<DocV>, ConflictV>(
        ConflictV { mod_path: d2.mod_path, existing: d1.c4_level, incoming: d2.c4_level },
    )) by {
        assert(seq![d2][0] == d2);
        assert(seq![d1][0] == d1);
    }
    assert(merge_fold(acc0, flat) == merge_fold(seq![d1], seq![d2]));
}

/// Merge dedup, last wins: two sets that give one path the same C4 level keep
/// only the later document.
pub proof fn lemma_merge_last_wins(d1: DocV, d2: DocV)
    requires
        d1.mod_path == d2.mod_path,
        d1.c4_level == d2.c4_level,
    ensures
        merge_spec(seq![seq![d1], seq![d2]]) == Ok::<Seq<DocV>, ConflictV>(seq![d2]),
{
    let srcs = seq![seq![d1], seq![d2]];
    let flat = srcs.flatten();
    assert(flat =~= seq![d1, d2]) by {
        assert(srcs.drop_first() =~= seq![seq![d2]]);
        assert(seq![seq![d2]].drop_first() =~= Seq::<Seq<DocV>>::empty());
        assert(srcs.flatten() =~= srcs[0] + srcs.drop_first().flatten());
        assert(seq![seq![d2]].flatten() =~= seq![d2] + Seq::<Seq<DocV>>::empty().flatten());
    }
    let acc0 = Seq::<DocV>::empty();
    assert(find_path(acc0, d1.mod_path) == -1);
    let acc1 = upsert(acc0, d1);
    assert(acc1 =~= seq![d1]);
    assert(flat.drop_first() =~= seq![d2]);
    assert(find_path(seq![d1], d2.mod_path) == 0) by {
        assert(seq![d1][0] == d1);
    }
    assert(upsert(seq![d1], d2) =~= seq![d2]);
    assert(seq![d2].drop_first() =~= Seq::<DocV>::empty());
    assert(merge_fold(seq![d2], Seq::<DocV>::empty()) == Ok::<Seq<DocV>, ConflictV>(seq![d2]));
    assert(merge_fold(seq![d1], seq![d2]) == Ok::<Seq<DocV>, ConflictV>(seq![d2])) by {
        assert(seq![d2][0] == d2);
    }
    assert(merge_fold(acc0, flat) == Ok::<Seq<DocV>, ConflictV>(seq![d2]));
    assert(sort_by_path(seq![d2]) =~= seq![d2]) by {
        assert(seq![d2].drop_last() =~= Seq::<DocV>::empty());
        assert(sort_by_path(Seq::<DocV>::empty()) == Seq::<DocV>::empty());
        assert(insert_sorted(d2, Seq::<DocV>::empty()) == seq![d2]);
    }
}

} // verus!
