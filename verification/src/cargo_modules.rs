//! Import-graph reconciliation: declared relationships against the module
//! dependency graph that an external tool reports.
//!
//! The graph itself arrives as DOT text; parsing it and reconciling it with
//! the IR is pure logic. Running the external tool is left to the caller.

use vstd::prelude::*;

use crate::path_resolver::join_dot;
use crate::text::{
    chars_eq, chars_eq_str, chars_to_string, first_index, lines_of, push_char, split_lines,
    str_to_chars, trim_chars, trim_spec,
};
use crate::types::{DocV, ModuleDoc, RelV, docs_view};
use crate::validate::name_in;

verus! {

/// Import graph: module paths that exist, and directed dependencies.
#[derive(Debug, Clone)]
pub struct ImportGraph {
    pub nodes: Vec<String>,
    pub edges: Vec<(String, String)>,
}

/// The view of the edge list.
pub open spec fn edges_view(es: Seq<(String, String)>) -> Seq<(Seq<char>, Seq<char>)> {
    es.map_values(|e: (String, String)| (e.0@, e.1@))
}

impl Default for ImportGraph {
    /// The empty graph.
    fn default() -> (r: ImportGraph)
        ensures
            r.nodes@ == Seq::<String>::empty(),
            r.edges@ == Seq::<(String, String)>::empty(),
    {
        ImportGraph { nodes: Vec::new(), edges: Vec::new() }
    }
}

/// The dependencies of `m`: the targets of its outgoing edges, in order.
pub open spec fn deps_of(es: Seq<(Seq<char>, Seq<char>)>, m: Seq<char>) -> Seq<Seq<char>>
    decreases es.len(),
{
    if es.len() == 0 {
        Seq::empty()
    } else {
        deps_of(es.drop_last(), m) + if es.last().0 == m {
            seq![es.last().1]
        } else {
            Seq::empty()
        }
    }
}

impl ImportGraph {
    /// Whether a dependency from one module to another exists.
    pub fn has_dependency(&self, from: &str, to: &str) -> (r: bool)
        ensures
            r == (exists|i: int|
                0 <= i < self.edges@.len() && edges_view(self.edges@)[i] == (from@, to@)),
    {
        let ghost ev = edges_view(self.edges@);
        let mut i: usize = 0;
        while i < self.edges.len()
            invariant
                ev == edges_view(self.edges@),
                ev.len() == self.edges@.len(),
                i <= self.edges@.len(),
                forall|j: int| 0 <= j < i ==> ev[j] != (from@, to@),
            decreases self.edges@.len() - i,
        {
            assert(ev[i as int] == (self.edges@[i as int].0@, self.edges@[i as int].1@));
            let fc = str_to_chars(self.edges[i].0.as_str());
            let tc = str_to_chars(self.edges[i].1.as_str());
            if chars_eq_str(fc.as_slice(), from) && chars_eq_str(tc.as_slice(), to) {
                return true;
            }
            i = i + 1;
        }
        false
    }

    /// All dependencies of a module, in edge order.
    #[verifier::loop_isolation(false)]
    pub fn get_dependencies(&self, module: &str) -> (r: Vec<String>)
        ensures
            r@.map_values(|s: String| s@) == deps_of(edges_view(self.edges@), module@),
    {
        let ghost ev = edges_view(self.edges@);
        let mut out: Vec<String> = Vec::new();
        let mut i: usize = 0;
        proof {
            assert(ev.subrange(0, 0) =~= Seq::<(Seq<char>, Seq<char>)>::empty());
            assert(out@.map_values(|s: String| s@) =~= Seq::<Seq<char>>::empty());
        }
        while i < self.edges.len()
            invariant
                i <= self.edges@.len(),
                out@.map_values(|s: String| s@) == deps_of(ev.subrange(0, i as int), module@),
            decreases self.edges@.len() - i,
        {
            proof {
                assert(ev[i as int] == (self.edges@[i as int].0@, self.edges@[i as int].1@));
                assert(ev.subrange(0, i + 1).drop_last() =~= ev.subrange(0, i as int));
                assert(ev.subrange(0, i + 1).last() == ev[i as int]);
            }
            let fc = str_to_chars(self.edges[i].0.as_str());
            if chars_eq_str(fc.as_slice(), module) {
                let ghost o0 = out@;
                out.push(self.edges[i].1.clone());
                proof {
                    assert(out@.map_values(|s: String| s@) =~= o0.map_values(|s: String| s@).push(
                        ev[i as int].1,
                    )) by {
                        assert(out@ =~= o0.push(self.edges@[i as int].1));
                    }
                    assert(out@.map_values(|s: String| s@) =~= deps_of(
                        ev.subrange(0, i + 1),
                        module@,
                    ));
                }
            } else {
                proof {
                    assert(out@.map_values(|s: String| s@) =~= deps_of(
                        ev.subrange(0, i + 1),
                        module@,
                    ));
                }
            }
            i = i + 1;
        }
        proof {
            assert(ev.subrange(0, ev.len() as int) =~= ev);
        }
        out
    }
}

/// A warning about a relationship that mismatches the import graph.
#[derive(Debug, Clone)]
pub struct RelationshipWarning {
    pub module: String,
    pub target: String,
    pub kind: WarningKind,
}

/// The two kinds of mismatch.
#[derive(Debug, Clone, Copy, PartialEq, Eq, Structural)]
pub enum WarningKind {
    /// Declared relationship but no actual import found.
    NoImport,
    /// Import exists but no relationship declared.
    Undeclared,
}

/// Mathematical model of a `RelationshipWarning`.
#[verifier::ext_equal]
pub ghost struct WarningV {
    pub module: Seq<char>,
    pub target: Seq<char>,
    pub kind: WarningKind,
}

impl View for RelationshipWarning {
    type V = WarningV;

    open spec fn view(&self) -> WarningV {
        WarningV { module: self.module@, target: self.target@, kind: self.kind }
    }
}

/// A list with later duplicates removed.
pub open spec fn unique_seq(xs: Seq<Seq<char>>) -> Seq<Seq<char>>
    decreases xs.len(),
{
    if xs.len() == 0 {
        Seq::empty()
    } else {
        let prev = unique_seq(xs.drop_last());
        if name_in(prev, xs.last()) {
            prev
        } else {
            prev.push(xs.last())
        }
    }
}

/// The declared targets of a document, deduplicated in order.
pub open spec fn declared_of(d: DocV) -> Seq<Seq<char>> {
    unique_seq(d.relationships.map_values(|r: RelV| r.target))
}

/// The actual dependencies of a document's module, deduplicated in order.
pub open spec fn actual_of(es: Seq<(Seq<char>, Seq<char>)>, d: DocV) -> Seq<Seq<char>> {
    unique_seq(deps_of(es, d.mod_path))
}

/// Entries of `xs` that are not in `ys`, tagged with a warning kind.
pub open spec fn diff_warnings(
    xs: Seq<Seq<char>>,
    ys: Seq<Seq<char>>,
    m: Seq<char>,
    kind: WarningKind,
) -> Seq<WarningV>
    decreases xs.len(),
{
    if xs.len() == 0 {
        Seq::empty()
    } else {
        diff_warnings(xs.drop_last(), ys, m, kind) + if !name_in(ys, xs.last()) {
            seq![WarningV { module: m, target: xs.last(), kind: kind }]
        } else {
            Seq::empty()
        }
    }
}

/// The warnings of one document: declared-but-unimported, then
/// imported-but-undeclared.
pub open spec fn doc_warnings(es: Seq<(Seq<char>, Seq<char>)>, d: DocV) -> Seq<WarningV> {
    diff_warnings(declared_of(d), actual_of(es, d), d.mod_path, WarningKind::NoImport)
        + diff_warnings(actual_of(es, d), declared_of(d), d.mod_path, WarningKind::Undeclared)
}

/// All warnings of the first `n` documents.
pub open spec fn warnings_of(es: Seq<(Seq<char>, Seq<char>)>, docs: Seq<DocV>, n: int) -> Seq<
    WarningV,
>
    decreases n,
{
    if n <= 0 {
        Seq::empty()
    } else {
        warnings_of(es, docs, n - 1) + if n <= docs.len() {
            doc_warnings(es, docs[n - 1])
        } else {
            Seq::empty()
        }
    }
}

/// Deduplicate a list of names, keeping first occurrences.
#[verifier::loop_isolation(false)]
fn unique_exec(xs: &Vec<String>) -> (r: Vec<String>)
    ensures
        r@.map_values(|s: String| s@) == unique_seq(xs@.map_values(|s: String| s@)),
{
    let ghost xv = xs@.map_values(|s: String| s@);
    let mut out: Vec<String> = Vec::new();
    let mut i: usize = 0;
    proof {
        assert(xv.subrange(0, 0) =~= Seq::<Seq<char>>::empty());
        assert(out@.map_values(|s: String| s@) =~= Seq::<Seq<char>>::empty());
    }
    while i < xs.len()
        invariant
            i <= xs@.len(),
            out@.map_values(|s: String| s@) == unique_seq(xv.subrange(0, i as int)),
        decreases xs@.len() - i,
    {
        proof {
            assert(xv[i as int] == xs@[i as int]@);
            assert(xv.subrange(0, i + 1).drop_last() =~= xv.subrange(0, i as int));
            assert(xv.subrange(0, i + 1).last() == xv[i as int]);
        }
        let xc = str_to_chars(xs[i].as_str());
        if !crate::validate::name_in_pub(&out, xc.as_slice()) {
            let ghost o0 = out@;
            out.push(xs[i].clone());
            proof {
                assert(out@.map_values(|s: String| s@) =~= o0.map_values(|s: String| s@).push(
                    xv[i as int],
                )) by {
                    assert(out@ =~= o0.push(xs@[i as int]));
                }
                assert(out@.map_values(|s: String| s@) =~= unique_seq(xv.subrange(0, i + 1)));
            }
        } else {
            proof {
                assert(out@.map_values(|s: String| s@) =~= unique_seq(xv.subrange(0, i + 1)));
            }
        }
        i = i + 1;
    }
    proof {
        assert(xv.subrange(0, xv.len() as int) =~= xv);
    }
    out
}

/// Warnings of `xs \ ys`, appended to a warning list.
#[verifier::loop_isolation(false)]
fn push_diff_warnings(
    out: &mut Vec<RelationshipWarning>,
    xs: &Vec<String>,
    ys: &Vec<String>,
    module: &String,
    kind: WarningKind,
)
    ensures
        final(out)@.map_values(|w: RelationshipWarning| w@) == old(out)@.map_values(
            |w: RelationshipWarning| w@,
        ) + diff_warnings(
            xs@.map_values(|s: String| s@),
            ys@.map_values(|s: String| s@),
            module@,
            kind,
        ),
{
    let ghost base = out@.map_values(|w: RelationshipWarning| w@);
    let ghost xv = xs@.map_values(|s: String| s@);
    let ghost yv = ys@.map_values(|s: String| s@);
    let mut i: usize = 0;
    proof {
        assert(xv.subrange(0, 0) =~= Seq::<Seq<char>>::empty());
        assert(base + diff_warnings(xv.subrange(0, 0), yv, module@, kind) =~= base);
    }
    while i < xs.len()
        invariant
            i <= xs@.len(),
            out@.map_values(|w: RelationshipWarning| w@) == base + diff_warnings(
                xv.subrange(0, i as int),
                yv,
                module@,
                kind,
            ),
        decreases xs@.len() - i,
    {
        proof {
            assert(xv[i as int] == xs@[i as int]@);
            assert(xv.subrange(0, i + 1).drop_last() =~= xv.subrange(0, i as int));
            assert(xv.subrange(0, i + 1).last() == xv[i as int]);
        }
        let xc = str_to_chars(xs[i].as_str());
        if !crate::validate::name_in_pub(ys, xc.as_slice()) {
            let entry = RelationshipWarning {
                module: module.clone(),
                target: xs[i].clone(),
                kind,
            };
            let ghost o0 = out@;
            out.push(entry);
            proof {
                assert(out@.map_values(|w: RelationshipWarning| w@) =~= o0.map_values(
                    |w: RelationshipWarning| w@,
                ).push(WarningV { module: module@, target: xv[i as int], kind })) by {
                    assert(out@ =~= o0.push(entry));
                }
                assert(out@.map_values(|w: RelationshipWarning| w@) =~= base + diff_warnings(
                    xv.subrange(0, i + 1),
                    yv,
                    module@,
                    kind,
                ));
            }
        } else {
            proof {
                assert(out@.map_values(|w: RelationshipWarning| w@) =~= base + diff_warnings(
                    xv.subrange(0, i + 1),
                    yv,
                    module@,
                    kind,
                ));
            }
        }
        i = i + 1;
    }
    proof {
        assert(xv.subrange(0, xv.len() as int) =~= xv);
    }
}

/// Validate declared relationships against the actual import graph:
/// report every declared edge with no import, and every import with no
/// declared edge.
#[verifier::loop_isolation(false)]
#[verifier::rlimit(100)]
pub fn validate_relationships(docs: &Vec<ModuleDoc>, graph: &ImportGraph) -> (r: Vec<
    RelationshipWarning,
>)
    ensures
        r@.map_values(|w: RelationshipWarning| w@) == warnings_of(
            edges_view(graph.edges@),
            docs_view(docs@),
            docs@.len() as int,
        ),
{
    let ghost ev = edges_view(graph.edges@);
    let ghost dv = docs_view(docs@);
    let mut out: Vec<RelationshipWarning> = Vec::new();
    let mut i: usize = 0;
    proof {
        assert(out@.map_values(|w: RelationshipWarning| w@) =~= Seq::<WarningV>::empty());
    }
    while i < docs.len()
        invariant
            i <= docs@.len(),
            out@.map_values(|w: RelationshipWarning| w@) == warnings_of(ev, dv, i as int),
        decreases docs@.len() - i,
    {
        proof {
            assert(dv[i as int] == docs@[i as int]@);
        }
        let d = &docs[i];
        let mut declared_raw: Vec<String> = Vec::new();
        let mut t: usize = 0;
        proof {
            assert(declared_raw@.map_values(|s: String| s@) =~= dv[i as int].relationships
                .map_values(|r: RelV| r.target).subrange(0, 0));
        }
        while t < d.relationships.len()
            invariant
                t <= d.relationships@.len(),
                dv[i as int].relationships.len() == d.relationships@.len(),
                declared_raw@.map_values(|s: String| s@) == dv[i as int].relationships.map_values(
                    |r: RelV| r.target,
                ).subrange(0, t as int),
            decreases d.relationships@.len() - t,
        {
            let ghost tv = dv[i as int].relationships.map_values(|r: RelV| r.target);
            proof {
                assert(dv[i as int].relationships[t as int] == d.relationships@[t as int]@);
                assert(tv[t as int] == dv[i as int].relationships[t as int].target);
            }
            let ghost r0 = declared_raw@;
            declared_raw.push(d.relationships[t].target.clone());
            proof {
                assert(declared_raw@.map_values(|s: String| s@) =~= r0.map_values(|s: String| s@)
                    .push(tv[t as int])) by {
                    assert(declared_raw@ =~= r0.push(d.relationships@[t as int].target));
                }
                assert(declared_raw@.map_values(|s: String| s@) =~= tv.subrange(0, t + 1));
            }
            t = t + 1;
        }
        proof {
            let tv = dv[i as int].relationships.map_values(|r: RelV| r.target);
            assert(tv.subrange(0, tv.len() as int) =~= tv);
        }
        let declared = unique_exec(&declared_raw);
        let actual_raw = graph.get_dependencies(d.mod_path.as_str());
        let actual = unique_exec(&actual_raw);
        proof {
            assert(declared@.map_values(|s: String| s@) == declared_of(dv[i as int]));
            assert(actual@.map_values(|s: String| s@) == actual_of(ev, dv[i as int]));
        }
        push_diff_warnings(&mut out, &declared, &actual, &d.mod_path, WarningKind::NoImport);
        push_diff_warnings(&mut out, &actual, &declared, &d.mod_path, WarningKind::Undeclared);
        proof {
            assert(out@.map_values(|w: RelationshipWarning| w@) =~= warnings_of(ev, dv, i + 1));
        }
        i = i + 1;
    }
    out
}

/// The nodes that no document's module path covers.
pub open spec fn orphan_nodes_of(nodes: Seq<Seq<char>>, docs: Seq<DocV>) -> Seq<Seq<char>>
    decreases nodes.len(),
{
    if nodes.len() == 0 {
        Seq::empty()
    } else {
        orphan_nodes_of(nodes.drop_last(), docs) + if !(exists|i: int|
            0 <= i < docs.len() && (#[trigger] docs[i]).mod_path == nodes.last()) {
            seq![nodes.last()]
        } else {
            Seq::empty()
        }
    }
}

/// Detect orphaned modules: nodes of the import graph that no document in
/// the IR describes, in node order.
#[verifier::loop_isolation(false)]
pub fn detect_orphans(docs: &Vec<ModuleDoc>, graph: &ImportGraph) -> (r: Vec<String>)
    ensures
        r@.map_values(|s: String| s@) == orphan_nodes_of(
            graph.nodes@.map_values(|s: String| s@),
            docs_view(docs@),
        ),
{
    let ghost nv = graph.nodes@.map_values(|s: String| s@);
    let ghost dv = docs_view(docs@);
    let mut out: Vec<String> = Vec::new();
    let mut i: usize = 0;
    proof {
        assert(nv.subrange(0, 0) =~= Seq::<Seq<char>>::empty());
        assert(out@.map_values(|s: String| s@) =~= Seq::<Seq<char>>::empty());
    }
    while i < graph.nodes.len()
        invariant
            i <= graph.nodes@.len(),
            out@.map_values(|s: String| s@) == orphan_nodes_of(nv.subrange(0, i as int), dv),
        decreases graph.nodes@.len() - i,
    {
        proof {
            assert(nv[i as int] == graph.nodes@[i as int]@);
            assert(nv.subrange(0, i + 1).drop_last() =~= nv.subrange(0, i as int));
            assert(nv.subrange(0, i + 1).last() == nv[i as int]);
        }
        let nc = str_to_chars(graph.nodes[i].as_str());
        let mut documented: bool = false;
        let mut j: usize = 0;
        while j < docs.len()
            invariant
                j <= docs@.len(),
                i < graph.nodes@.len(),
                nc@ == nv[i as int],
                documented == (exists|k: int|
                    0 <= k < j && (#[trigger] dv[k]).mod_path == nv[i as int]),
            decreases docs@.len() - j,
        {
            proof {
                assert(dv[j as int] == docs@[j as int]@);
            }
            let mc = str_to_chars(docs[j].mod_path.as_str());
            if chars_eq(mc.as_slice(), nc.as_slice()) {
                documented = true;
            }
            j = j + 1;
        }
        if !documented {
            let ghost o0 = out@;
            out.push(graph.nodes[i].clone());
            proof {
                assert(out@.map_values(|s: String| s@) =~= o0.map_values(|s: String| s@).push(
                    nv[i as int],
                )) by {
                    assert(out@ =~= o0.push(graph.nodes@[i as int]));
                }
                assert(out@.map_values(|s: String| s@) =~= orphan_nodes_of(
                    nv.subrange(0, i + 1),
                    dv,
                ));
            }
        } else {
            proof {
                assert(out@.map_values(|s: String| s@) =~= orphan_nodes_of(
                    nv.subrange(0, i + 1),
                    dv,
                ));
            }
        }
        i = i + 1;
    }
    proof {
        assert(nv.subrange(0, nv.len() as int) =~= nv);
    }
    out
}

/// Index of the first adjacent pair `c1 c2`, or -1.
pub open spec fn first_pair(s: Seq<char>, c1: char, c2: char) -> int
    decreases s.len(),
{
    if s.len() < 2 {
        -1
    } else if s[0] == c1 && s[1] == c2 {
        0
    } else {
        let r = first_pair(s.drop_first(), c1, c2);
        if r == -1 {
            -1
        } else {
            r + 1
        }
    }
}

/// Index of the first `::` pair, or -1.
pub open spec fn first_sep2(s: Seq<char>) -> int {
    first_pair(s, ':', ':')
}

/// `s` split at every `::`, keeping empty pieces.
pub open spec fn split_sep2(s: Seq<char>) -> Seq<Seq<char>>
    decreases s.len(),
{
    let k = first_sep2(s);
    if 0 <= k && k + 2 <= s.len() {
        seq![s.subrange(0, k)] + split_sep2(s.skip(k + 2))
    } else {
        seq![s]
    }
}

/// The pieces joined back with dots.
pub open spec fn dotted(s: Seq<char>) -> Seq<char> {
    join_dot(split_sep2(s))
}

/// What `crate_path_to_module` returns: a top-level name unchanged, a
/// deeper path with the crate segment dropped and `::` turned into dots.
pub open spec fn crate_module_of(s: Seq<char>) -> Seq<char> {
    if split_sep2(s).len() <= 1 {
        s
    } else {
        join_dot(split_sep2(s).drop_first())
    }
}

proof fn lemma_first_pair_at(s: Seq<char>, c1: char, c2: char, k: int)
    requires
        0 <= k,
        k + 2 <= s.len(),
        s[k] == c1 && s[k + 1] == c2,
        forall|i: int| 0 <= i < k ==> !((#[trigger] s[i]) == c1 && s[i + 1] == c2),
    ensures
        first_pair(s, c1, c2) == k,
    decreases k,
{
    if k > 0 {
        let t = s.drop_first();
        assert(forall|i: int|
            0 <= i < k - 1 ==> (#[trigger] t[i]) == s[i + 1] && t[i + 1] == s[i + 2]);
        assert(t[k - 1] == s[k] && t[k] == s[k + 1]);
        lemma_first_pair_at(t, c1, c2, k - 1);
    }
}

proof fn lemma_first_pair_none(s: Seq<char>, c1: char, c2: char)
    requires
        forall|i: int|
            0 <= i && i + 2 <= s.len() ==> !((#[trigger] s[i]) == c1 && s[i + 1] == c2),
    ensures
        first_pair(s, c1, c2) == -1,
    decreases s.len(),
{
    if s.len() >= 2 {
        lemma_first_pair_none(s.drop_first(), c1, c2);
    }
}

/// Joining distributes over a leading piece.
proof fn lemma_join_dot_cons(a: Seq<char>, ps: Seq<Seq<char>>)
    requires
        ps.len() >= 1,
    ensures
        join_dot(seq![a] + ps) == a + seq!['.'] + join_dot(ps),
    decreases ps.len(),
{
    let whole = seq![a] + ps;
    if ps.len() == 1 {
        assert(whole.len() == 2);
        assert(whole.drop_last() =~= seq![a]);
        assert(whole.last() == ps[0]);
        assert(join_dot(seq![a]) == a);
        assert(join_dot(ps) == ps[0]);
    } else {
        assert(whole.drop_last() =~= seq![a] + ps.drop_last());
        assert(whole.last() == ps.last());
        lemma_join_dot_cons(a, ps.drop_last());
        assert((a + seq!['.'] + join_dot(ps.drop_last())) + seq!['.'] + ps.last() =~= a + seq!['.']
            + (join_dot(ps.drop_last()) + seq!['.'] + ps.last()));
    }
}

/// One ordinary character moves from the input to the joined output.
proof fn lemma_dotted_char(cur: Seq<char>)
    requires
        cur.len() > 0,
        !(cur.len() >= 2 && cur[0] == ':' && cur[1] == ':'),
    ensures
        dotted(cur) == seq![cur[0]] + dotted(cur.drop_first()),
{
    let t = cur.drop_first();
    let k = first_sep2(cur);
    let kt = first_sep2(t);
    assert(k == if kt == -1 {
        -1int
    } else {
        kt + 1
    });
    if 0 <= k && k + 2 <= cur.len() {
        assert(t.skip(kt + 2) =~= cur.skip(k + 2));
        lemma_split_sep2_nonempty(cur.skip(k + 2));
        lemma_join_dot_cons(cur.subrange(0, k), split_sep2(cur.skip(k + 2)));
        lemma_join_dot_cons(t.subrange(0, kt), split_sep2(t.skip(kt + 2)));
        assert(cur.subrange(0, k) =~= seq![cur[0]] + t.subrange(0, kt));
        assert(dotted(cur) =~= seq![cur[0]] + dotted(t)) by {
            assert((seq![cur[0]] + t.subrange(0, kt)) + seq!['.'] + join_dot(
                split_sep2(t.skip(kt + 2)),
            ) =~= seq![cur[0]] + (t.subrange(0, kt) + seq!['.'] + join_dot(
                split_sep2(t.skip(kt + 2)),
            )));
        }
    } else {
        assert(split_sep2(cur) =~= seq![cur]);
        assert(split_sep2(t) =~= seq![t]);
        assert(dotted(cur) == cur);
        assert(dotted(t) == t);
        assert(cur =~= seq![cur[0]] + t);
    }
}

/// A `::` pair at the head becomes one dot.
proof fn lemma_dotted_sep(cur: Seq<char>)
    requires
        cur.len() >= 2,
        cur[0] == ':',
        cur[1] == ':',
    ensures
        dotted(cur) == seq!['.'] + dotted(cur.skip(2)),
{
    assert(first_sep2(cur) == 0);
    assert(cur.subrange(0, 0) =~= Seq::<char>::empty());
    lemma_split_sep2_nonempty(cur.skip(2));
    lemma_join_dot_cons(Seq::<char>::empty(), split_sep2(cur.skip(2)));
    assert(Seq::<char>::empty() + seq!['.'] + join_dot(split_sep2(cur.skip(2))) =~= seq!['.']
        + dotted(cur.skip(2)));
}

proof fn lemma_split_sep2_nonempty(s: Seq<char>)
    ensures
        split_sep2(s).len() >= 1,
{
}

/// Rewrite the tail of a path: every `::` becomes a dot.
#[verifier::loop_isolation(false)]
fn dotted_exec(v: &[char], from: usize) -> (r: String)
    requires
        from <= v@.len(),
    ensures
        r@ == dotted(v@.skip(from as int)),
{
    let mut out = String::new();
    let mut j = from;
    let ghost orig = v@.skip(from as int);
    proof {
        assert(Seq::<char>::empty() + dotted(orig) =~= dotted(orig));
    }
    while j < v.len()
        invariant
            from <= j <= v@.len(),
            dotted(orig) == out@ + dotted(v@.skip(j as int)),
        decreases v@.len() - j,
    {
        let ghost cur = v@.skip(j as int);
        proof {
            assert(cur[0] == v@[j as int]);
            if cur.len() >= 2 {
                assert(cur[1] == v@[j + 1]);
            }
        }
        if j + 1 < v.len() && v[j] == ':' && v[j + 1] == ':' {
            push_char(&mut out, '.');
            proof {
                lemma_dotted_sep(cur);
                assert(cur.skip(2) =~= v@.skip(j + 2 as int));
                assert(dotted(orig) =~= out@ + dotted(v@.skip(j + 2 as int)));
            }
            j = j + 2;
        } else {
            push_char(&mut out, v[j]);
            proof {
                lemma_dotted_char(cur);
                assert(cur.drop_first() =~= v@.skip(j + 1 as int));
                assert(dotted(orig) =~= out@ + dotted(v@.skip(j + 1 as int)));
            }
            j = j + 1;
        }
    }
    proof {
        let fin = v@.skip(v@.len() as int);
        assert(fin.len() == 0);
        assert(first_sep2(fin) == -1);
        assert(split_sep2(fin) =~= seq![fin]);
        assert(dotted(fin) == fin);
        assert(out@ + fin =~= out@);
    }
    out
}

/// Convert an external tool's `::`-separated module path to dot notation:
/// the crate segment is dropped, the rest joined with dots; a bare crate
/// name stays as it is.
#[verifier::loop_isolation(false)]
pub fn crate_path_to_module(path: &str) -> (r: String)
    ensures
        r@ == crate_module_of(path@),
{
    let v = str_to_chars(path);
    let n = v.len();
    let mut k: usize = 0;
    while k < n && (n - k < 2 || !(v[k] == ':' && v[k + 1] == ':'))
        invariant
            k <= n,
            n == v@.len(),
            v@ == path@,
            forall|i: int|
                0 <= i < k && i + 1 < n ==> !((#[trigger] v@[i]) == ':' && v@[i + 1] == ':'),
        decreases n - k,
    {
        k = k + 1;
    }
    if k >= n || n - k < 2 {
        proof {
            lemma_first_pair_none(path@, ':', ':');
            assert(split_sep2(path@) =~= seq![path@]);
        }
        chars_to_string(v.as_slice())
    } else {
        proof {
            lemma_first_pair_at(path@, ':', ':', k as int);
            lemma_split_sep2_nonempty(path@.skip(k + 2));
            assert(split_sep2(path@) =~= seq![path@.subrange(0, k as int)] + split_sep2(
                path@.skip(k + 2),
            ));
            assert(split_sep2(path@).len() >= 2);
            assert(split_sep2(path@).drop_first() =~= split_sep2(path@.skip(k + 2)));
        }
        dotted_exec(v.as_slice(), k + 2)
    }
}

/// The text between the first pair of double quotes, when both exist.
pub open spec fn quoted_of(s: Seq<char>) -> Option<Seq<char>> {
    let i = first_index(s, '"');
    if i >= 0 {
        let j = first_index(s.skip(i + 1), '"');
        if j >= 0 {
            Some(s.subrange(i + 1, i + 1 + j))
        } else {
            None
        }
    } else {
        None
    }
}

/// Extract the content of the first quoted string.
///
/// Fails, naming the text, when no complete quoted string is present.
#[verifier::loop_isolation(false)]
pub fn extract_quoted(s: &str) -> (r: Result<String, String>)
    ensures
        match quoted_of(s@) {
            Some(q) => r is Ok && r->Ok_0@ == q,
            None => r is Err && r->Err_0@ == "Failed to extract quoted string from: "@ + s@,
        },
{
    let v = str_to_chars(s);
    let mut i: usize = 0;
    while i < v.len() && v[i] != '"'
        invariant
            i <= v@.len(),
            v@ == s@,
            forall|k: int| 0 <= k < i ==> v@[k] != '"',
        decreases v@.len() - i,
    {
        i = i + 1;
    }
    if i == v.len() {
        proof {
            crate::text::lemma_first_index_none(v@, '"');
        }
        let mut msg = String::from_str("Failed to extract quoted string from: ");
        msg.append(s);
        return Err(msg);
    }
    proof {
        crate::text::lemma_first_index_at(v@, '"', i as int);
    }
    let mut j: usize = i + 1;
    while j < v.len() && v[j] != '"'
        invariant
            i + 1 <= j <= v@.len(),
            v@ == s@,
            forall|k: int| i + 1 <= k < j ==> v@[k] != '"',
        decreases v@.len() - j,
    {
        j = j + 1;
    }
    let ghost rest = v@.skip(i + 1);
    proof {
        assert(forall|k: int| 0 <= k < j - i - 1 ==> rest[k] == v@[k + i + 1]);
    }
    if j == v.len() {
        proof {
            crate::text::lemma_first_index_none(rest, '"');
        }
        let mut msg = String::from_str("Failed to extract quoted string from: ");
        msg.append(s);
        return Err(msg);
    }
    proof {
        assert(rest[j - i - 1] == v@[j as int]);
        crate::text::lemma_first_index_at(rest, '"', j - i - 1);
    }
    let mut out: Vec<char> = Vec::new();
    let mut t: usize = i + 1;
    while t < j
        invariant
            i + 1 <= t <= j <= v@.len(),
            out@ == v@.subrange(i + 1, t as int),
        decreases j - t,
    {
        out.push(v[t]);
        assert(out@ =~= v@.subrange(i + 1, t + 1 as int));
        t = t + 1;
    }
    Ok(chars_to_string(out.as_slice()))
}

/// The failure message for a part with no complete quoted string.
pub open spec fn quote_err(part: Seq<char>) -> Seq<char> {
    "Failed to extract quoted string from: "@ + part
}

/// One more node, unless the graph already holds it.
pub open spec fn add_node(ns: Seq<Seq<char>>, x: Seq<char>) -> Seq<Seq<char>> {
    if name_in(ns, x) {
        ns
    } else {
        ns.push(x)
    }
}

/// The graph read from the first `n` DOT lines: every `"from" -> "to"`
/// edge, both endpoints converted to dot notation and collected as nodes.
/// The first line whose endpoint lacks a quoted name fails the parse.
pub open spec fn dot_fold(lines: Seq<Seq<char>>, n: int) -> Result<
    (Seq<Seq<char>>, Seq<(Seq<char>, Seq<char>)>),
    Seq<char>,
>
    decreases n,
{
    if n <= 0 || n > lines.len() {
        Ok((Seq::empty(), Seq::empty()))
    } else {
        match dot_fold(lines, n - 1) {
            Err(m) => Err(m),
            Ok((ns, es)) => {
                let t = trim_spec(lines[n - 1]);
                let k = first_pair(t, '-', '>');
                if !(0 <= k && k + 2 <= t.len()) {
                    Ok((ns, es))
                } else {
                    let fp = trim_spec(t.subrange(0, k));
                    let tp = trim_spec(t.skip(k + 2));
                    match quoted_of(fp) {
                        None => Err(quote_err(fp)),
                        Some(f) => match quoted_of(tp) {
                            None => Err(quote_err(tp)),
                            Some(to) => {
                                let fm = crate_module_of(f);
                                let tm = crate_module_of(to);
                                Ok((add_node(add_node(ns, fm), tm), es.push((fm, tm))))
                            },
                        },
                    }
                }
            },
        }
    }
}

/// A failed parse stays failed over any longer prefix.
proof fn lemma_dot_fold_err(lines: Seq<Seq<char>>, m: Seq<char>, k: int, n: int)
    requires
        0 <= k <= n <= lines.len(),
        dot_fold(lines, k) == Err::<(Seq<Seq<char>>, Seq<(Seq<char>, Seq<char>)>), Seq<char>>(m),
    ensures
        dot_fold(lines, n) == Err::<(Seq<Seq<char>>, Seq<(Seq<char>, Seq<char>)>), Seq<char>>(m),
    decreases n,
{
    if n > k {
        lemma_dot_fold_err(lines, m, k, n - 1);
    }
}

/// Parse DOT text from the external module tool into an import graph:
/// one `"from" -> "to"` edge per line, paths converted to dot notation.
#[verifier::loop_isolation(false)]
#[verifier::rlimit(100)]
pub fn parse_dot_output(dot: &str) -> (r: Result<ImportGraph, String>)
    ensures
        match (dot_fold(lines_of(dot@), lines_of(dot@).len() as int), r) {
            (Ok(g), Ok(rg)) => rg.nodes@.map_values(|s: String| s@) == g.0 && edges_view(rg.edges@)
                == g.1,
            (Err(m), Err(rm)) => rm@ == m,
            _ => false,
        },
{
    let c = str_to_chars(dot);
    let lines = split_lines(c.as_slice());
    let ghost lv = lines_of(dot@);
    let mut graph = ImportGraph::default();
    let mut i: usize = 0;
    proof {
        assert(graph.nodes@.map_values(|s: String| s@) =~= Seq::<Seq<char>>::empty());
        assert(edges_view(graph.edges@) =~= Seq::<(Seq<char>, Seq<char>)>::empty());
    }
    while i < lines.len()
        invariant
            lines@.map_values(|l: Vec<char>| l@) == lv,
            lines@.len() == lv.len(),
            i <= lv.len(),
            dot_fold(lv, i as int) == Ok::<(Seq<Seq<char>>, Seq<(Seq<char>, Seq<char>)>), Seq<
                char,
            >>(
                (graph.nodes@.map_values(|s: String| s@), edges_view(graph.edges@)),
            ),
        decreases lv.len() - i,
    {
        proof {
            assert(lv[i as int] == lines@[i as int]@);
        }
        let t = trim_chars(lines[i].as_slice());
        let ghost tv = trim_spec(lv[i as int]);
        let n = t.len();
        let mut k: usize = 0;
        while k < n && (n - k < 2 || !(t[k] == '-' && t[k + 1] == '>'))
            invariant
                k <= n,
                n == tv.len(),
                t@ == tv,
                forall|j: int|
                    0 <= j < k && j + 1 < n ==> !((#[trigger] tv[j]) == '-' && tv[j + 1] == '>'),
            decreases n - k,
        {
            k = k + 1;
        }
        if k >= n || n - k < 2 {
            proof {
                lemma_first_pair_none(tv, '-', '>');
            }
        } else {
            proof {
                lemma_first_pair_at(tv, '-', '>', k as int);
            }
            let fp_raw = crate::parser::slice_range_pub(t.as_slice(), 0, k);
            let fp = trim_chars(fp_raw.as_slice());
            let tp_raw = crate::parser::slice_range_pub(t.as_slice(), k + 2, n);
            let tp = trim_chars(tp_raw.as_slice());
            proof {
                assert(tp_raw@ =~= tv.skip(k + 2));
            }
            let fs = chars_to_string(fp.as_slice());
            let from = match extract_quoted(fs.as_str()) {
                Ok(x) => x,
                Err(e) => {
                    proof {
                        assert(dot_fold(lv, i + 1) == Err::<
                            (Seq<Seq<char>>, Seq<(Seq<char>, Seq<char>)>),
                            Seq<char>,
                        >(e@));
                        lemma_dot_fold_err(lv, e@, i + 1, lv.len() as int);
                    }
                    return Err(e);
                },
            };
            let ts = chars_to_string(tp.as_slice());
            let to = match extract_quoted(ts.as_str()) {
                Ok(x) => x,
                Err(e) => {
                    proof {
                        assert(dot_fold(lv, i + 1) == Err::<
                            (Seq<Seq<char>>, Seq<(Seq<char>, Seq<char>)>),
                            Seq<char>,
                        >(e@));
                        lemma_dot_fold_err(lv, e@, i + 1, lv.len() as int);
                    }
                    return Err(e);
                },
            };
            let fm = crate_path_to_module(from.as_str());
            let tm = crate_path_to_module(to.as_str());
            let ghost ns0 = graph.nodes@.map_values(|s: String| s@);
            let fc = str_to_chars(fm.as_str());
            if !crate::validate::name_in_pub(&graph.nodes, fc.as_slice()) {
                let ghost g0 = graph.nodes@;
                graph.nodes.push(fm.clone());
                proof {
                    assert(graph.nodes@.map_values(|s: String| s@) =~= ns0.push(fm@)) by {
                        assert(graph.nodes@ =~= g0.push(graph.nodes@[g0.len() as int]));
                    }
                    assert(graph.nodes@.map_values(|s: String| s@) =~= add_node(ns0, fm@));
                }
            } else {
                proof {
                    assert(graph.nodes@.map_values(|s: String| s@) =~= add_node(ns0, fm@));
                }
            }
            let ghost ns1 = graph.nodes@.map_values(|s: String| s@);
            let tc = str_to_chars(tm.as_str());
            if !crate::validate::name_in_pub(&graph.nodes, tc.as_slice()) {
                let ghost g0 = graph.nodes@;
                graph.nodes.push(tm.clone());
                proof {
                    assert(graph.nodes@.map_values(|s: String| s@) =~= ns1.push(tm@)) by {
                        assert(graph.nodes@ =~= g0.push(graph.nodes@[g0.len() as int]));
                    }
                    assert(graph.nodes@.map_values(|s: String| s@) =~= add_node(ns1, tm@));
                }
            } else {
                proof {
                    assert(graph.nodes@.map_values(|s: String| s@) =~= add_node(ns1, tm@));
                }
            }
            let ghost es0 = edges_view(graph.edges@);
            let ghost e0 = graph.edges@;
            graph.edges.push((fm, tm));
            proof {
                assert(edges_view(graph.edges@) =~= es0.push(
                    (graph.edges@[e0.len() as int].0@, graph.edges@[e0.len() as int].1@),
                )) by {
                    assert(graph.edges@ =~= e0.push(graph.edges@[e0.len() as int]));
                }
            }
        }
        i = i + 1;
    }
    Ok(graph)
}

} // verus!
