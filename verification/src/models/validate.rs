//! Project validation: schema, references, completeness and consistency of
//! the `.forja/` files.
use vstd::prelude::*;

use crate::error::{error_message, ForjaError};
use crate::frontmatter::{split_frontmatter, split_spec};
use crate::models::decision::DecisionFile;
use crate::models::spec::SpecFile;
use crate::models::track::{TrackFile, TrackItem};
use crate::models::vision::VisionFile;
use crate::seqs::{
    contains_str, flat_map, join, join_strs, key_list, lemma_flat_map_contains,
    lemma_flat_map_full, lemma_flat_map_take, strs,
};
use crate::sorting::Keyed;
use crate::text::{concat2, concat3, owned, push_str};

verus! {

/// How serious a validation finding is.
#[derive(Debug, Clone, Copy, PartialEq, Eq, Structural)]
pub enum Severity {
    Error,
    Warning,
}

/// One validation finding: the file (relative to `.forja/`) and a message.
#[derive(Debug, Clone)]
pub struct ValidationError {
    pub file: String,
    pub message: String,
    pub severity: Severity,
}

/// A finding as plain values: file, message, severity.
pub open spec fn err_view(e: ValidationError) -> (Seq<char>, Seq<char>, Severity) {
    (e.file@, e.message@, e.severity)
}

/// The plain values of a list of findings.
pub open spec fn errs_view(v: Seq<ValidationError>) -> Seq<(Seq<char>, Seq<char>, Severity)> {
    v.map_values(|e: ValidationError| err_view(e))
}

// ---------------------------------------------------------------------------
// The dependency graph of the specs
// ---------------------------------------------------------------------------

/// The node ids of the dependency graph: each spec's id, in order.
pub open spec fn graph_ids(specs: Seq<SpecFile>) -> Seq<Seq<char>> {
    specs.map_values(|s: SpecFile| s.frontmatter.id@)
}

/// The out-edges recorded for each spec: its `depends_on` ids followed by
/// its `blocked_by` ids.
pub open spec fn graph_deps(specs: Seq<SpecFile>) -> Seq<Seq<Seq<char>>> {
    specs.map_values(
        |s: SpecFile|
            s.frontmatter.depends_on@.map_values(|d: String| d@)
                + s.frontmatter.blocked_by@.map_values(|d: String| d@),
    )
}

/// The successors of `n` among the first `k` entries: those of the last of
/// them with id `n` (a later entry replaces an earlier one with the same id).
pub open spec fn succ_below(
    ids: Seq<Seq<char>>,
    deps: Seq<Seq<Seq<char>>>,
    n: Seq<char>,
    k: int,
) -> Seq<Seq<char>>
    decreases k,
{
    if k <= 0 {
        Seq::empty()
    } else if ids[k - 1] == n {
        deps[k - 1]
    } else {
        succ_below(ids, deps, n, k - 1)
    }
}

/// The successors of `n` in the graph; none when `n` is no spec's id.
pub open spec fn succ(ids: Seq<Seq<char>>, deps: Seq<Seq<Seq<char>>>, n: Seq<char>) -> Seq<
    Seq<char>,
> {
    succ_below(ids, deps, n, ids.len() as int)
}

/// The node after position `i` of `p` is a successor of the node there.
pub open spec fn walk_step(
    ids: Seq<Seq<char>>,
    deps: Seq<Seq<Seq<char>>>,
    p: Seq<Seq<char>>,
    i: int,
) -> bool {
    succ(ids, deps, p[i]).contains(p[i + 1])
}

/// Each node of `p` is followed by one of its successors.
pub open spec fn is_walk(ids: Seq<Seq<char>>, deps: Seq<Seq<Seq<char>>>, p: Seq<Seq<char>>) -> bool {
    forall|i: int| 0 <= i < p.len() - 1 ==> #[trigger] walk_step(ids, deps, p, i)
}

/// A walk whose last node occurs earlier in it: it closes a cycle.
pub open spec fn is_cycle_walk(
    ids: Seq<Seq<char>>,
    deps: Seq<Seq<Seq<char>>>,
    p: Seq<Seq<char>>,
) -> bool {
    &&& p.len() >= 2
    &&& is_walk(ids, deps, p)
    &&& exists|j: int| 0 <= j < p.len() - 1 && #[trigger] p[j] == p[p.len() - 1]
}

/// The graph has a cycle: a walk of at least one edge back to its start.
pub open spec fn has_dep_cycle(ids: Seq<Seq<char>>, deps: Seq<Seq<Seq<char>>>) -> bool {
    exists|p: Seq<Seq<char>>| p.len() >= 2 && is_walk(ids, deps, p) && p[0] == p[p.len() - 1]
}

/// Every node that occurs in the graph: ids and successors.
pub open spec fn all_nodes(ids: Seq<Seq<char>>, deps: Seq<Seq<Seq<char>>>) -> Seq<Seq<char>> {
    ids + flat_map(deps, |d: Seq<Seq<char>>| d)
}

/// The report of a circular dependency found along the walk `p`.
pub open spec fn cycle_report(p: Seq<Seq<char>>) -> (Seq<char>, Seq<char>, Severity) {
    (
        "specs/"@ + p[0] + ".md"@,
        "circular dependency detected: "@ + join(p, " -> "@),
        Severity::Error,
    )
}

/// `e` reports a walk of the graph from the spec it names; when `closed`,
/// the walk closes a cycle.
pub open spec fn is_walk_report(
    ids: Seq<Seq<char>>,
    deps: Seq<Seq<Seq<char>>>,
    e: (Seq<char>, Seq<char>, Severity),
    closed: bool,
) -> bool {
    exists|p: Seq<Seq<char>>|
        #![trigger cycle_report(p)]
        p.len() >= 2 && is_walk(ids, deps, p) && e == cycle_report(p) && (closed ==> is_cycle_walk(
            ids,
            deps,
            p,
        ))
}

proof fn lemma_succ_at(ids: Seq<Seq<char>>, deps: Seq<Seq<Seq<char>>>, n: Seq<char>, k: int, i: int)
    requires
        0 <= i < k <= ids.len(),
        ids[i] == n,
        forall|j: int| i < j < k ==> ids[j] != n,
    ensures
        succ_below(ids, deps, n, k) == deps[i],
    decreases k,
{
    if k - 1 > i {
        lemma_succ_at(ids, deps, n, k - 1, i);
    }
}

proof fn lemma_succ_none(ids: Seq<Seq<char>>, deps: Seq<Seq<Seq<char>>>, n: Seq<char>, k: int)
    requires
        0 <= k <= ids.len(),
        forall|j: int| 0 <= j < k ==> ids[j] != n,
    ensures
        succ_below(ids, deps, n, k) == Seq::<Seq<char>>::empty(),
    decreases k,
{
    if k > 0 {
        lemma_succ_none(ids, deps, n, k - 1);
    }
}

/// A closed walk ends where some earlier node of it stands: its tail from
/// there is a cycle.
proof fn lemma_cycle_walk_closes(ids: Seq<Seq<char>>, deps: Seq<Seq<Seq<char>>>, p: Seq<Seq<char>>)
    requires
        is_cycle_walk(ids, deps, p),
    ensures
        has_dep_cycle(ids, deps),
{
    let j = choose|j: int| 0 <= j < p.len() - 1 && #[trigger] p[j] == p[p.len() - 1];
    let q = p.subrange(j, p.len() as int);
    assert forall|i: int| 0 <= i < q.len() - 1 implies #[trigger] walk_step(ids, deps, q, i) by {
        assert(q[i] == p[j + i]);
        assert(q[i + 1] == p[j + i + 1]);
        assert(walk_step(ids, deps, p, j + i));
    }
    assert(q.len() >= 2 && is_walk(ids, deps, q) && q[0] == q[q.len() - 1]);
}

/// A visited node that is no longer on the search stack.
pub open spec fn finished(vis: Seq<Seq<char>>, stk: Seq<Seq<char>>, n: Seq<char>) -> bool {
    vis.contains(n) && !stk.contains(n)
}

/// Every finished node has a rank below `next`, and its successors are
/// finished with smaller ranks.
pub open spec fn ranked(
    ids: Seq<Seq<char>>,
    deps: Seq<Seq<Seq<char>>>,
    vis: Seq<Seq<char>>,
    stk: Seq<Seq<char>>,
    rank: Map<Seq<char>, int>,
    next: int,
) -> bool {
    forall|n: Seq<char>| #[trigger]
        finished(vis, stk, n) ==> {
            &&& rank.dom().contains(n)
            &&& 0 <= rank[n] < next
            &&& forall|m: Seq<char>| #[trigger]
                succ(ids, deps, n).contains(m) ==> finished(vis, stk, m) && rank[m] < rank[n]
        }
}

/// Along a walk from a finished node, every later node is finished with a
/// smaller rank.
proof fn lemma_rank_falls(
    ids: Seq<Seq<char>>,
    deps: Seq<Seq<Seq<char>>>,
    vis: Seq<Seq<char>>,
    stk: Seq<Seq<char>>,
    rank: Map<Seq<char>, int>,
    next: int,
    p: Seq<Seq<char>>,
    k: int,
)
    requires
        ranked(ids, deps, vis, stk, rank, next),
        is_walk(ids, deps, p),
        finished(vis, stk, p[0]),
        1 <= k < p.len(),
    ensures
        finished(vis, stk, p[k]),
        rank[p[k]] < rank[p[0]],
    decreases k,
{
    assert(walk_step(ids, deps, p, k - 1));
    if k > 1 {
        lemma_rank_falls(ids, deps, vis, stk, rank, next, p, k - 1);
    }
}

/// When every node with successors is finished and ranked, there is no
/// cycle: ranks would fall strictly all the way round.
proof fn lemma_ranked_acyclic(
    ids: Seq<Seq<char>>,
    deps: Seq<Seq<Seq<char>>>,
    vis: Seq<Seq<char>>,
    stk: Seq<Seq<char>>,
    rank: Map<Seq<char>, int>,
    next: int,
)
    requires
        ranked(ids, deps, vis, stk, rank, next),
        forall|k: int| 0 <= k < ids.len() ==> finished(vis, stk, #[trigger] ids[k]),
    ensures
        !has_dep_cycle(ids, deps),
{
    if has_dep_cycle(ids, deps) {
        let p = choose|p: Seq<Seq<char>>|
            p.len() >= 2 && is_walk(ids, deps, p) && p[0] == p[p.len() - 1];
        assert(walk_step(ids, deps, p, 0));
        // a node with a successor is some spec's id
        if forall|j: int| 0 <= j < ids.len() ==> ids[j] != p[0] {
            lemma_succ_none(ids, deps, p[0], ids.len() as int);
        }
        let j0 = choose|j: int| 0 <= j < ids.len() && ids[j] == p[0];
        assert(finished(vis, stk, ids[j0]));
        lemma_rank_falls(ids, deps, vis, stk, rank, next, p, p.len() - 1);
        assert(rank[p[p.len() - 1]] < rank[p[0]]);
    }
}

/// `vis` has no duplicates and lies within `all`, and `x` is in `all` but
/// not in `vis`: there is room for `x`.
proof fn lemma_room_for(vis: Seq<Seq<char>>, all: Seq<Seq<char>>, x: Seq<char>)
    requires
        vis.no_duplicates(),
        forall|y: Seq<char>| vis.contains(y) ==> all.contains(y),
        !vis.contains(x),
        all.contains(x),
    ensures
        vis.len() + 1 <= all.len(),
{
    let v2 = vis.push(x);
    assert(v2.no_duplicates()) by {
        assert forall|a: int, b: int| 0 <= a < v2.len() && 0 <= b < v2.len() && a != b implies v2[a]
            != v2[b] by {
            if b == vis.len() {
                assert(v2[a] == vis[a]);
                assert(vis.contains(vis[a]));
            } else if a == vis.len() {
                assert(v2[b] == vis[b]);
                assert(vis.contains(vis[b]));
            } else {
                assert(v2[a] == vis[a] && v2[b] == vis[b]);
            }
        }
    }
    v2.unique_seq_to_set();
    all.lemma_cardinality_of_set();
    vstd::seq_lib::seq_to_set_is_finite(all);
    assert(v2.to_set().subset_of(all.to_set())) by {
        assert forall|y: Seq<char>| v2.to_set().contains(y) implies all.to_set().contains(y) by {
            if y != x {
                assert(vis.contains(y));
            }
        }
    }
    vstd::set_lib::lemma_len_subset(v2.to_set(), all.to_set());
}

proof fn lemma_prefix_push(v1: Seq<Seq<char>>, v0: Seq<Seq<char>>, x: Seq<char>)
    requires
        v1.len() > v0.len(),
        v1.take(v0.len() + 1int) == v0.push(x),
    ensures
        v1.take(v0.len() as int) == v0,
        v1[v0.len() as int] == x,
        v1.contains(x),
{
    assert(v1.take(v0.len() as int) =~= v1.take(v0.len() + 1int).take(v0.len() as int));
    assert(v1.take(v0.len() + 1int)[v0.len() as int] == x);
}

/// The dependency graph as executable data, parallel to `graph_ids` and
/// `graph_deps`.
struct DepGraph<'a> {
    ids: Vec<&'a str>,
    deps: Vec<Vec<&'a str>>,
}

impl<'a> DepGraph<'a> {
    spec fn ids_view(&self) -> Seq<Seq<char>> {
        strs(self.ids@)
    }

    spec fn deps_view(&self) -> Seq<Seq<Seq<char>>> {
        self.deps@.map_values(|d: Vec<&str>| strs(d@))
    }

    spec fn wf(&self) -> bool {
        self.ids@.len() == self.deps@.len()
    }

    /// The successors of `node`.
    fn successors(&self, node: &str) -> (r: Option<&Vec<&'a str>>)
        requires
            self.wf(),
        ensures
            match r {
                Some(d) => strs(d@) == succ(self.ids_view(), self.deps_view(), node@) && exists|
                    i: int,
                | 0 <= i < self.deps@.len() && self.deps@[i] == *d,
                None => succ(self.ids_view(), self.deps_view(), node@) == Seq::<
                    Seq<char>,
                >::empty(),
            },
    {
        let mut k: usize = self.ids.len();
        while k > 0
            invariant
                k <= self.ids@.len(),
                self.wf(),
                forall|j: int| k <= j < self.ids@.len() ==> self.ids@[j]@ != node@,
            decreases k,
        {
            if crate::text::str_eq(self.ids[k - 1], node) {
                proof {
                    lemma_succ_at(
                        self.ids_view(),
                        self.deps_view(),
                        node@,
                        self.ids@.len() as int,
                        k - 1,
                    );
                }
                return Some(&self.deps[k - 1]);
            }
            k = k - 1;
        }
        proof {
            lemma_succ_none(self.ids_view(), self.deps_view(), node@, self.ids@.len() as int);
        }
        None
    }
}

/// Depth-first search state: visited nodes, the nodes on the current search
/// stack, and (for the proof) the rank at which each node was finished.
struct DfsState<'a> {
    visited: Vec<&'a str>,
    in_stack: Vec<&'a str>,
    rank: Ghost<Map<Seq<char>, int>>,
    next: Ghost<int>,
}

/// Whether a search from `node` meets a node on the search stack. On the
/// way, `path` holds the nodes of the search stack; when a back edge is met,
/// its target is appended and `true` is returned at once, leaving the stack
/// as it is.
fn has_cycle<'a>(
    node: &'a str,
    g: &DepGraph<'a>,
    st: &mut DfsState<'a>,
    path: &mut Vec<&'a str>,
    Ghost(all): Ghost<Seq<Seq<char>>>,
) -> (r: bool)
    requires
        g.wf(),
        all == all_nodes(g.ids_view(), g.deps_view()),
        strs(old(st).visited@).no_duplicates(),
        forall|y: Seq<char>| strs(old(st).visited@).contains(y) ==> all.contains(y),
        forall|y: Seq<char>|
            strs(old(st).in_stack@).contains(y) ==> strs(old(st).visited@).contains(y),
        !strs(old(st).visited@).contains(node@),
        all.contains(node@),
        is_walk(g.ids_view(), g.deps_view(), strs(old(path)@).push(node@)),
        0 <= old(st).next@,
    ensures
        ({
            let ids = g.ids_view();
            let deps = g.deps_view();
            let v0 = strs(old(st).visited@);
            let v1 = strs(final(st).visited@);
            let s0 = strs(old(st).in_stack@);
            let s1 = strs(final(st).in_stack@);
            let p0 = strs(old(path)@);
            let p1 = strs(final(path)@);
            &&& v1.len() > v0.len()
            &&& v1.take(v0.len() as int) == v0
            &&& v1.no_duplicates()
            &&& forall|y: Seq<char>| v1.contains(y) ==> all.contains(y)
            &&& v1.contains(node@)
            &&& forall|y: Seq<char>| s1.contains(y) ==> v1.contains(y)
            &&& is_walk(ids, deps, p1)
            &&& old(st).next@ <= final(st).next@
            &&& !r ==> p1 == p0 && s1 == s0
            &&& r ==> p1.len() >= p0.len() + 2 && p1.take(p0.len() + 1int) == p0.push(node@)
            &&& (s0 == p0 && ranked(ids, deps, v0, s0, old(st).rank@, old(st).next@)) ==> {
                &&& r ==> is_cycle_walk(ids, deps, p1)
                &&& !r ==> {
                    &&& ranked(ids, deps, v1, s1, final(st).rank@, final(st).next@)
                    &&& finished(v1, s1, node@)
                    &&& forall|n: Seq<char>| #[trigger]
                        finished(v0, s0, n) ==> finished(v1, s1, n) && final(st).rank@[n]
                            == old(st).rank@[n]
                }
            }
        }),
    decreases all.len() - old(st).visited@.len(),
{
    let ghost ids = g.ids_view();
    let ghost deps = g.deps_view();
    let ghost v0 = strs(st.visited@);
    let ghost s0 = strs(st.in_stack@);
    let ghost p0 = strs(path@);
    let ghost rank0 = st.rank@;
    let ghost next0 = st.next@;
    let ghost clean = s0 == p0 && ranked(ids, deps, v0, s0, rank0, next0);
    proof {
        lemma_room_for(v0, all, node@);
    }
    st.visited.push(node);
    st.in_stack.push(node);
    path.push(node);
    assert(strs(st.visited@) =~= v0.push(node@));
    assert(strs(st.in_stack@) =~= s0.push(node@));
    assert(strs(path@) =~= p0.push(node@));
    assert(strs(st.visited@).no_duplicates()) by {
        let v = strs(st.visited@);
        assert forall|a: int, b: int| 0 <= a < b < v.len() implies v[a] != v[b] by {
            if b == v0.len() {
                assert(v0.contains(v[a]));
            }
        }
    }
    assert(strs(st.visited@).take(v0.len() as int) =~= v0);
    assert(strs(st.visited@).take(v0.len() + 1int) =~= v0.push(node@));
    assert forall|y: Seq<char>| strs(st.in_stack@).contains(y) implies strs(st.visited@).contains(
        y,
    ) by {
        if y != node@ {
            let k = strs(st.in_stack@).index_of(y);
            assert(s0[k] == y);
            assert(v0.contains(y));
            assert(strs(st.visited@)[v0.index_of(y)] == y);
        } else {
            assert(strs(st.visited@)[v0.len() as int] == y);
        }
    }
    assert(strs(st.in_stack@)[s0.len() as int] == node@);
    proof {
        if clean {
            assert forall|n: Seq<char>| #[trigger]
                finished(strs(st.visited@), strs(st.in_stack@), n) implies finished(v0, s0, n) by {
                if n == node@ {
                    assert(strs(st.in_stack@).contains(node@)) by {
                        assert(strs(st.in_stack@)[s0.len() as int] == node@);
                    }
                } else {
                    let k = strs(st.visited@).index_of(n);
                    assert(k < v0.len());
                    assert(v0[k] == n);
                    if s0.contains(n) {
                        assert(strs(st.in_stack@)[s0.index_of(n)] == n);
                    }
                }
            }
            assert forall|n: Seq<char>| #[trigger] finished(v0, s0, n) implies finished(
                strs(st.visited@),
                strs(st.in_stack@),
                n,
            ) by {
                assert(n != node@);
                assert(strs(st.visited@)[v0.index_of(n)] == n);
            }
            assert(ranked(ids, deps, strs(st.visited@), strs(st.in_stack@), st.rank@, st.next@))
                by {
                assert forall|n: Seq<char>| #[trigger]
                    finished(strs(st.visited@), strs(st.in_stack@), n) implies {
                    &&& st.rank@.dom().contains(n)
                    &&& 0 <= st.rank@[n] < st.next@
                    &&& forall|m: Seq<char>| #[trigger]
                        succ(ids, deps, n).contains(m) ==> finished(
                            strs(st.visited@),
                            strs(st.in_stack@),
                            m,
                        ) && st.rank@[m] < st.rank@[n]
                } by {
                    assert(finished(v0, s0, n));
                    assert forall|m: Seq<char>| #[trigger]
                        succ(ids, deps, n).contains(m) implies finished(
                        strs(st.visited@),
                        strs(st.in_stack@),
                        m,
                    ) && st.rank@[m] < st.rank@[n] by {
                        assert(finished(v0, s0, m));
                    }
                }
            }
        }
    }
    if let Some(ds) = g.successors(node) {
        let ghost dsv = strs(ds@);
        proof {
            let di = choose|i: int| 0 <= i < g.deps@.len() && g.deps@[i] == *ds;
            assert(deps[di] == dsv);
            assert forall|x: Seq<char>| dsv.contains(x) implies all.contains(x) by {
                lemma_flat_map_contains(deps, |d: Seq<Seq<char>>| d, di, x);
                let f = flat_map(deps, |d: Seq<Seq<char>>| d);
                let k = choose|k: int| 0 <= k < f.len() && #[trigger] f[k] == x;
                assert(all[ids.len() + k] == x);
            }
        }
        let mut j: usize = 0;
        while j < ds.len()
            invariant
                g.wf(),
                ids == g.ids_view(),
                deps == g.deps_view(),
                all == all_nodes(ids, deps),
                dsv == strs(ds@),
                dsv == succ(ids, deps, node@),
                forall|x: Seq<char>| dsv.contains(x) ==> all.contains(x),
                j <= ds.len(),
                st.visited@.len() > v0.len(),
                v0 == strs(old(st).visited@),
                s0 == strs(old(st).in_stack@),
                p0 == strs(old(path)@),
                rank0 == old(st).rank@,
                next0 == old(st).next@,
                0 <= next0 <= st.next@,
                strs(st.visited@).take(v0.len() + 1int) == v0.push(node@),
                strs(st.visited@).no_duplicates(),
                forall|y: Seq<char>| strs(st.visited@).contains(y) ==> all.contains(y),
                forall|y: Seq<char>|
                    strs(st.in_stack@).contains(y) ==> strs(st.visited@).contains(y),
                strs(st.in_stack@) == s0.push(node@),
                strs(path@) == p0.push(node@),
                is_walk(ids, deps, p0.push(node@)),
                !v0.contains(node@),
                forall|y: Seq<char>| s0.contains(y) ==> v0.contains(y),
                clean == (s0 == p0 && ranked(ids, deps, v0, s0, rank0, next0)),
                clean ==> {
                    &&& ranked(
                        ids,
                        deps,
                        strs(st.visited@),
                        strs(st.in_stack@),
                        st.rank@,
                        st.next@,
                    )
                    &&& forall|k: int|
                        0 <= k < j ==> finished(
                            strs(st.visited@),
                            strs(st.in_stack@),
                            #[trigger] dsv[k],
                        )
                    &&& forall|n: Seq<char>| #[trigger]
                        finished(v0, s0, n) ==> finished(
                            strs(st.visited@),
                            strs(st.in_stack@),
                            n,
                        ) && st.rank@[n] == rank0[n]
                },
            decreases ds.len() - j,
        {
            let dep = ds[j];
            assert(dsv[j as int] == dep@);
            assert(dsv.contains(dep@));
            let ghost vcur = strs(st.visited@);
            let ghost scur = strs(st.in_stack@);
            let ghost rcur = st.rank@;
            if !contains_str(&st.visited, dep) {
                assert(is_walk(ids, deps, strs(path@).push(dep@))) by {
                    let q = strs(path@).push(dep@);
                    assert forall|i: int| 0 <= i < q.len() - 1 implies #[trigger] walk_step(
                        ids,
                        deps,
                        q,
                        i,
                    ) by {
                        if i < q.len() - 2 {
                            assert(q[i] == p0.push(node@)[i]);
                            assert(q[i + 1] == p0.push(node@)[i + 1]);
                            assert(walk_step(ids, deps, p0.push(node@), i));
                        } else {
                            assert(q[i] == node@);
                        }
                    }
                }
                proof {
                    lemma_room_for(strs(st.visited@), all, dep@);
                }
                let ghost pcall = strs(path@);
                let ghost vcall = strs(st.visited@);
                if has_cycle(dep, g, st, path, Ghost(all)) {
                    proof {
                        let ghost p1 = strs(path@);
                        assert(p1.take(p0.len() + 1int) =~= p1.take(pcall.len() + 1int).take(
                            p0.len() + 1int,
                        ));
                        let v1 = strs(st.visited@);
                        assert(v1.take(v0.len() as int) =~= v1.take(vcall.len() as int).take(
                            v0.len() as int,
                        ));
                        assert(vcall.take(v0.len() as int) =~= vcall.take(v0.len() + 1int).take(
                            v0.len() as int,
                        ));
                        assert(v1.take(v0.len() + 1int) =~= v1.take(vcall.len() as int).take(
                            v0.len() + 1int,
                        ));
                        lemma_prefix_push(v1, v0, node@);
                        assert(v1.take(v0.len() as int) == v0);
                        assert(strs(path@).len() >= p0.len() + 2);
                        assert(strs(path@).take(p0.len() + 1int) == p0.push(node@));
                    }
                    return true;
                }
                proof {
                    if clean {
                        assert forall|k: int| 0 <= k < j + 1 implies finished(
                            strs(st.visited@),
                            strs(st.in_stack@),
                            #[trigger] dsv[k],
                        ) by {
                            if k < j {
                                assert(finished(vcur, scur, dsv[k]));
                            }
                        }
                        assert forall|n: Seq<char>| #[trigger] finished(v0, s0, n) implies finished(
                            strs(st.visited@),
                            strs(st.in_stack@),
                            n,
                        ) && st.rank@[n] == rank0[n] by {
                            assert(finished(vcur, scur, n));
                        }
                    }
                    assert(strs(st.visited@).take(v0.len() + 1int) == v0.push(node@)) by {
                        assert(strs(st.visited@).take(v0.len() + 1int) =~= strs(st.visited@).take(
                            vcur.len() as int,
                        ).take(v0.len() + 1int));
                    }
                }
            } else if contains_str(&st.in_stack, dep) {
                let ghost pcur = strs(path@);
                path.push(dep);
                assert(strs(path@) =~= pcur.push(dep@));
                proof {
                    let q = strs(path@);
                    assert forall|i: int| 0 <= i < q.len() - 1 implies #[trigger] walk_step(
                        ids,
                        deps,
                        q,
                        i,
                    ) by {
                        if i < q.len() - 2 {
                            assert(q[i] == pcur[i]);
                            assert(q[i + 1] == pcur[i + 1]);
                            assert(walk_step(ids, deps, pcur, i));
                        } else {
                            assert(q[i] == node@);
                        }
                    }
                    assert(q.take(p0.len() + 1int) =~= p0.push(node@));
                    lemma_prefix_push(strs(st.visited@), v0, node@);
                    if clean {
                        let jj = scur.index_of(dep@);
                        assert(q[jj] == q[q.len() - 1]);
                    }
                }
                return true;
            } else {
                proof {
                    if clean {
                        assert forall|k: int| 0 <= k < j + 1 implies finished(
                            strs(st.visited@),
                            strs(st.in_stack@),
                            #[trigger] dsv[k],
                        ) by {
                            if k == j {
                                assert(dsv[k] == dep@);
                            }
                        }
                    }
                }
            }
            j = j + 1;
        }
        proof {
            if clean {
                assert forall|m: Seq<char>| #[trigger]
                    succ(ids, deps, node@).contains(m) implies finished(
                    strs(st.visited@),
                    strs(st.in_stack@),
                    m,
                ) by {
                    let k = dsv.index_of(m);
                    assert(finished(strs(st.visited@), strs(st.in_stack@), dsv[k]));
                }
            }
        }
    } else {
        assert(succ(ids, deps, node@) =~= Seq::<Seq<char>>::empty());
    }
    let ghost vfin = strs(st.visited@);
    let ghost sfin = strs(st.in_stack@);
    let ghost rfin = st.rank@;
    let ghost nfin = st.next@;
    let ghost stk_before = st.in_stack@;
    assert(sfin[s0.len() as int] == node@);
    let ghost path_before = path@;
    st.in_stack.pop();
    path.pop();
    assert(st.in_stack@ =~= stk_before.drop_last());
    assert(path@ =~= path_before.drop_last());
    assert(strs(st.in_stack@) =~= sfin.drop_last());
    assert(strs(path@) =~= strs(path_before).drop_last());
    assert(strs(st.in_stack@) =~= s0);
    assert(strs(path@) =~= p0);
    proof {
        lemma_prefix_push(strs(st.visited@), v0, node@);
        assert forall|i: int| 0 <= i < p0.len() - 1 implies #[trigger] walk_step(ids, deps, p0, i)
            by {
            assert(walk_step(ids, deps, p0.push(node@), i));
            assert(p0.push(node@)[i] == p0[i]);
            assert(p0.push(node@)[i + 1] == p0[i + 1]);
        }
        st.rank@ = rfin.insert(node@, nfin);
        st.next@ = nfin + 1;
        if clean {
            let v1 = strs(st.visited@);
            assert(v1 == vfin);
            assert forall|n: Seq<char>| #[trigger] finished(v1, s0, n) implies (finished(
                vfin,
                sfin,
                n,
            ) || n == node@) by {
                if n != node@ {
                    assert(!sfin.contains(n)) by {
                        if sfin.contains(n) {
                            let k = sfin.index_of(n);
                            if k < s0.len() {
                                assert(s0[k] == n);
                            }
                        }
                    }
                }
            }
            assert(finished(v1, s0, node@)) by {
                assert(v1.take(v0.len() + 1int)[v0.len() as int] == node@);
                assert(!s0.contains(node@));
            }
            assert forall|n: Seq<char>| #[trigger] finished(vfin, sfin, n) implies finished(
                v1,
                s0,
                n,
            ) by {
                if s0.contains(n) {
                    assert(sfin[s0.index_of(n)] == n);
                }
            }
            assert(ranked(ids, deps, v1, s0, st.rank@, st.next@)) by {
                assert forall|n: Seq<char>| #[trigger] finished(v1, s0, n) implies {
                    &&& st.rank@.dom().contains(n)
                    &&& 0 <= st.rank@[n] < st.next@
                    &&& forall|m: Seq<char>| #[trigger]
                        succ(ids, deps, n).contains(m) ==> finished(v1, s0, m) && st.rank@[m]
                            < st.rank@[n]
                } by {
                    if n == node@ {
                        assert forall|m: Seq<char>| #[trigger]
                            succ(ids, deps, n).contains(m) implies finished(v1, s0, m)
                            && st.rank@[m] < st.rank@[n] by {
                            assert(finished(vfin, sfin, m));
                            assert(m != node@);
                        }
                    } else {
                        assert(finished(vfin, sfin, n));
                        assert forall|m: Seq<char>| #[trigger]
                            succ(ids, deps, n).contains(m) implies finished(v1, s0, m)
                            && st.rank@[m] < st.rank@[n] by {
                            assert(finished(vfin, sfin, m));
                            assert(m != node@);
                        }
                    }
                }
            }
            assert forall|n: Seq<char>| #[trigger] finished(v0, s0, n) implies finished(
                v1,
                s0,
                n,
            ) && st.rank@[n] == rank0[n] by {
                assert(finished(vfin, sfin, n));
                assert(n != node@);
            }
        }
    }
    false
}

/// The ids of a list of owned strings, as string slices.
fn str_refs(v: &Vec<String>) -> (r: Vec<&str>)
    ensures
        strs(r@) == v@.map_values(|d: String| d@),
{
    let mut r: Vec<&str> = Vec::new();
    let mut i: usize = 0;
    while i < v.len()
        invariant
            i <= v.len(),
            strs(r@) == v@.map_values(|d: String| d@).take(i as int),
        decreases v.len() - i,
    {
        let ghost prev = r@;
        r.push(v[i].as_str());
        assert(strs(r@) =~= strs(prev).push(v@[i as int]@));
        assert(v@.map_values(|d: String| d@).take(i + 1) =~= v@.map_values(|d: String| d@).take(
            i as int,
        ).push(v@[i as int]@));
        i = i + 1;
    }
    assert(v@.map_values(|d: String| d@).take(i as int) =~= v@.map_values(|d: String| d@));
    r
}

/// The dependency graph of the specs.
fn build_graph(specs: &Vec<SpecFile>) -> (g: DepGraph)
    ensures
        g.wf(),
        g.ids_view() == graph_ids(specs@),
        g.deps_view() == graph_deps(specs@),
{
    let mut g = DepGraph { ids: Vec::new(), deps: Vec::new() };
    let mut i: usize = 0;
    while i < specs.len()
        invariant
            i <= specs.len(),
            g.wf(),
            g.ids_view() == graph_ids(specs@).take(i as int),
            g.deps_view() == graph_deps(specs@).take(i as int),
        decreases specs.len() - i,
    {
        let s = &specs[i];
        let mut ds = str_refs(&s.frontmatter.depends_on);
        let mut blocked = str_refs(&s.frontmatter.blocked_by);
        let ghost d1 = strs(ds@);
        let ghost d2 = strs(blocked@);
        ds.append(&mut blocked);
        assert(strs(ds@) =~= d1 + d2);
        let ghost ids0 = g.ids@;
        let ghost deps0 = g.deps@;
        g.ids.push(s.frontmatter.id.as_str());
        g.deps.push(ds);
        assert(g.ids_view() =~= strs(ids0).push(s.frontmatter.id@));
        assert(g.deps_view() =~= deps0.map_values(|d: Vec<&str>| strs(d@)).push(d1 + d2));
        assert(graph_ids(specs@).take(i + 1) =~= graph_ids(specs@).take(i as int).push(
            s.frontmatter.id@,
        ));
        assert(graph_deps(specs@).take(i + 1) =~= graph_deps(specs@).take(i as int).push(
            d1 + d2,
        ));
        i = i + 1;
    }
    assert(graph_ids(specs@).take(i as int) =~= graph_ids(specs@));
    assert(graph_deps(specs@).take(i as int) =~= graph_deps(specs@));
    g
}

/// Check the specs' `depends_on` and `blocked_by` references for circular
/// dependencies: a depth-first search runs from each spec id in turn that
/// no earlier search has reached, and each search that meets a node still
/// on its stack adds one error naming the walk it followed. Searches share
/// their marks: after a cycle is reported, the nodes of that search stay
/// marked as on the stack.
///
/// Errors are appended to `errors`. Each one reports a walk of the graph,
/// the first one a walk that closes a cycle; and some error is added if and
/// only if the graph has a cycle.
pub fn check_circular_deps(specs: &Vec<SpecFile>, errors: &mut Vec<ValidationError>)
    ensures
        final(errors)@.len() >= old(errors)@.len(),
        final(errors)@.take(old(errors)@.len() as int) == old(errors)@,
        ({
            let ids = graph_ids(specs@);
            let deps = graph_deps(specs@);
            let added = errs_view(final(errors)@).skip(old(errors)@.len() as int);
            &&& forall|k: int|
                0 <= k < added.len() ==> is_walk_report(ids, deps, #[trigger] added[k], k == 0)
            &&& (added.len() == 0) == !has_dep_cycle(ids, deps)
        }),
{
    let g = build_graph(specs);
    let ghost ids = graph_ids(specs@);
    let ghost deps = graph_deps(specs@);
    let ghost all = all_nodes(ids, deps);
    let ghost e0 = errors@;
    let mut st = DfsState {
        visited: Vec::new(),
        in_stack: Vec::new(),
        rank: Ghost(Map::empty()),
        next: Ghost(0),
    };
    assert(strs(st.visited@) =~= Seq::<Seq<char>>::empty());
    assert(strs(st.in_stack@) =~= Seq::<Seq<char>>::empty());
    assert(errs_view(errors@).skip(e0.len() as int) =~= Seq::empty());
    let mut i: usize = 0;
    while i < specs.len()
        invariant
            i <= specs.len(),
            g.wf(),
            g.ids_view() == ids,
            g.deps_view() == deps,
            ids == graph_ids(specs@),
            deps == graph_deps(specs@),
            all == all_nodes(ids, deps),
            strs(st.visited@).no_duplicates(),
            forall|y: Seq<char>| strs(st.visited@).contains(y) ==> all.contains(y),
            forall|y: Seq<char>| strs(st.in_stack@).contains(y) ==> strs(st.visited@).contains(y),
            0 <= st.next@,
            errors@.len() >= e0.len(),
            errors@.take(e0.len() as int) == e0,
            forall|k: int|
                0 <= k < errs_view(errors@).skip(e0.len() as int).len() ==> is_walk_report(
                    ids,
                    deps,
                    #[trigger] errs_view(errors@).skip(e0.len() as int)[k],
                    k == 0,
                ),
            errors@.len() == e0.len() ==> {
                &&& strs(st.in_stack@) == Seq::<Seq<char>>::empty()
                &&& ranked(ids, deps, strs(st.visited@), strs(st.in_stack@), st.rank@, st.next@)
                &&& forall|k: int|
                    0 <= k < i ==> finished(
                        strs(st.visited@),
                        strs(st.in_stack@),
                        #[trigger] ids[k],
                    )
            },
            errors@.len() > e0.len() ==> has_dep_cycle(ids, deps),
        decreases specs.len() - i,
    {
        let id = specs[i].frontmatter.id.as_str();
        assert(ids[i as int] == id@);
        let ghost vcur = strs(st.visited@);
        if !contains_str(&st.visited, id) {
            let mut path: Vec<&str> = Vec::new();
            assert(strs(path@) =~= Seq::<Seq<char>>::empty());
            assert(all[i as int] == id@);
            assert(is_walk(ids, deps, strs(path@).push(id@)));
            let ghost clean = errors@.len() == e0.len();
            let found = has_cycle(id, &g, &mut st, &mut path, Ghost(all));
            if found {
                let ghost p1 = strs(path@);
                assert(Seq::<Seq<char>>::empty().push(id@) =~= seq![id@]);
                assert(p1.take(1)[0] == id@);
                assert(p1[0] == id@);
                let joined = join_strs(&path, " -> ");
                let message = crate::text::concat2("circular dependency detected: ", joined.as_str());
                let file = concat3("specs/", id, ".md");
                let ghost before = errors@;
                let e = ValidationError { file, message, severity: Severity::Error };
                assert(err_view(e) == cycle_report(p1));
                errors.push(e);
                proof {
                    let added = errs_view(errors@).skip(e0.len() as int);
                    assert(added =~= errs_view(before).skip(e0.len() as int).push(err_view(e)));
                    assert(errors@.take(e0.len() as int) =~= before.take(e0.len() as int));
                    if clean {
                        lemma_cycle_walk_closes(ids, deps, p1);
                    }
                    assert forall|k: int| 0 <= k < added.len() implies is_walk_report(
                        ids,
                        deps,
                        #[trigger] added[k],
                        k == 0,
                    ) by {
                        if k == added.len() - 1 {
                            assert(added[k] == cycle_report(p1));
                        } else {
                            assert(added[k] == errs_view(before).skip(e0.len() as int)[k]);
                        }
                    }
                }
            } else {
                proof {
                    if errors@.len() == e0.len() {
                        assert forall|k: int| 0 <= k < i + 1 implies finished(
                            strs(st.visited@),
                            strs(st.in_stack@),
                            #[trigger] ids[k],
                        ) by {
                            if k < i {
                                assert(finished(vcur, Seq::<Seq<char>>::empty(), ids[k]));
                            }
                        }
                    }
                }
            }
        } else {
            proof {
                if errors@.len() == e0.len() {
                    assert forall|k: int| 0 <= k < i + 1 implies finished(
                        strs(st.visited@),
                        strs(st.in_stack@),
                        #[trigger] ids[k],
                    ) by {}
                }
            }
        }
        i = i + 1;
    }
    proof {
        if errors@.len() == e0.len() {
            lemma_ranked_acyclic(
                ids,
                deps,
                strs(st.visited@),
                strs(st.in_stack@),
                st.rank@,
                st.next@,
            );
            assert(errs_view(errors@).skip(e0.len() as int) =~= Seq::empty());
        }
    }
}


// ---------------------------------------------------------------------------
// Findings of each kind
// ---------------------------------------------------------------------------

/// What the circular-dependency check adds: reports of walks of the graph,
/// the first one closing a cycle, and some report exactly when the graph
/// has a cycle.
pub open spec fn cycle_findings(
    ids: Seq<Seq<char>>,
    deps: Seq<Seq<Seq<char>>>,
    added: Seq<(Seq<char>, Seq<char>, Severity)>,
) -> bool {
    &&& forall|k: int| 0 <= k < added.len() ==> is_walk_report(ids, deps, #[trigger] added[k], k == 0)
    &&& (added.len() == 0) == !has_dep_cycle(ids, deps)
}

/// A single finding.
pub open spec fn finding(file: Seq<char>, message: Seq<char>, severity: Severity) -> Seq<
    (Seq<char>, Seq<char>, Severity),
> {
    seq![(file, message, severity)]
}

/// No finding.
pub open spec fn no_finding() -> Seq<(Seq<char>, Seq<char>, Severity)> {
    Seq::empty()
}

/// The file of a track, relative to `.forja/`.
pub open spec fn track_path(id: Seq<char>) -> Seq<char> {
    "tracks/track-"@ + id + ".md"@
}

/// The file of a spec, relative to `.forja/`.
pub open spec fn spec_path(id: Seq<char>) -> Seq<char> {
    "specs/"@ + id + ".md"@
}

/// The file of a decision, relative to `.forja/`.
pub open spec fn decision_path(id: Seq<char>) -> Seq<char> {
    "decisions/"@ + id + ".md"@
}

/// Findings on the vision: a parse failure, or empty required fields.
pub open spec fn vision_findings(vision: Option<Result<VisionFile, ForjaError>>) -> Seq<
    (Seq<char>, Seq<char>, Severity),
> {
    match vision {
        None => no_finding(),
        Some(Err(e)) => finding(
            "docs/vision.md"@,
            "Failed to parse: "@ + error_message(e),
            Severity::Error,
        ),
        Some(Ok(v)) => (if v.frontmatter.project@.len() == 0 {
            finding("docs/vision.md"@, "project field is empty"@, Severity::Error)
        } else {
            no_finding()
        }) + (if v.frontmatter.description@.len() == 0 {
            finding("docs/vision.md"@, "description field is empty"@, Severity::Error)
        } else {
            no_finding()
        }),
    }
}

/// An error for a file under `.forja/` that could not be parsed.
pub open spec fn parse_failure_finding(p: (String, ForjaError)) -> Seq<
    (Seq<char>, Seq<char>, Severity),
> {
    finding(p.0@, "Failed to parse: "@ + error_message(p.1), Severity::Error)
}

/// A warning for a track whose table has no items.
pub open spec fn empty_track_finding(t: TrackFile) -> Seq<(Seq<char>, Seq<char>, Severity)> {
    if t.items@.len() == 0 {
        finding(
            track_path(t.frontmatter.id@),
            "track has no items in its table"@,
            Severity::Warning,
        )
    } else {
        no_finding()
    }
}

/// An error when `reference` is not among `known`.
pub open spec fn missing_ref(
    file: Seq<char>,
    prefix: Seq<char>,
    known: Seq<Seq<char>>,
    reference: Seq<char>,
) -> Seq<(Seq<char>, Seq<char>, Severity)> {
    if known.contains(reference) {
        no_finding()
    } else {
        finding(file, prefix + reference + "'"@, Severity::Error)
    }
}

/// An error for each of `refs` that is not among `known`.
pub open spec fn missing_refs(
    file: Seq<char>,
    prefix: Seq<char>,
    known: Seq<Seq<char>>,
    refs: Seq<Seq<char>>,
) -> Seq<(Seq<char>, Seq<char>, Severity)> {
    flat_map(refs, |r: Seq<char>| missing_ref(file, prefix, known, r))
}

/// Findings on one spec: no criteria at all (a warning), and references to
/// a track or to specs that do not exist.
pub open spec fn spec_findings(
    s: SpecFile,
    spec_ids: Seq<Seq<char>>,
    track_ids: Seq<Seq<char>>,
) -> Seq<(Seq<char>, Seq<char>, Severity)> {
    let file = spec_path(s.frontmatter.id@);
    (if s.frontmatter.acceptance_criteria@.len() == 0 && s.frontmatter.success_criteria@.len()
        == 0 {
        finding(file, "spec has no acceptance criteria or success criteria"@, Severity::Warning)
    } else {
        no_finding()
    }) + (match s.frontmatter.track {
        Some(t) => missing_ref(file, "references non-existent track '"@, track_ids, t@),
        None => no_finding(),
    }) + missing_refs(
        file,
        "blocked_by references non-existent spec '"@,
        spec_ids,
        s.frontmatter.blocked_by@.map_values(|d: String| d@),
    ) + missing_refs(
        file,
        "depends_on references non-existent spec '"@,
        spec_ids,
        s.frontmatter.depends_on@.map_values(|d: String| d@),
    )
}

/// An error for a track item naming a spec that does not exist (an empty
/// spec column or `-` names none).
pub open spec fn item_finding(track_id: Seq<char>, it: TrackItem, spec_ids: Seq<Seq<char>>) -> Seq<
    (Seq<char>, Seq<char>, Severity),
> {
    if it.spec@.len() > 0 && it.spec@ != "-"@ && !spec_ids.contains(it.spec@) {
        finding(
            track_path(track_id),
            "item '"@ + it.id@ + "' references non-existent spec '"@ + it.spec@ + "'"@,
            Severity::Error,
        )
    } else {
        no_finding()
    }
}

/// Findings on the items of one track.
pub open spec fn item_findings(t: TrackFile, spec_ids: Seq<Seq<char>>) -> Seq<
    (Seq<char>, Seq<char>, Severity),
> {
    flat_map(t.items@, |it: TrackItem| item_finding(t.frontmatter.id@, it, spec_ids))
}

/// Findings on one decision: related specs and a superseding decision that
/// do not exist.
pub open spec fn decision_findings(
    d: DecisionFile,
    spec_ids: Seq<Seq<char>>,
    decision_ids: Seq<Seq<char>>,
) -> Seq<(Seq<char>, Seq<char>, Severity)> {
    let file = decision_path(d.frontmatter.id@);
    missing_refs(
        file,
        "related_specs references non-existent spec '"@,
        spec_ids,
        d.frontmatter.related_specs@.map_values(|r: String| r@),
    ) + match d.frontmatter.superseded_by {
        Some(sup) => missing_ref(
            file,
            "superseded_by references non-existent decision '"@,
            decision_ids,
            sup@,
        ),
        None => no_finding(),
    }
}

/// The string at top-level key `key` of the YAML document `yaml`, as
/// `serde_yaml` reads it: `None` when the text does not parse, is not a
/// mapping, lacks the key, or holds no string there.
pub uninterp spec fn yaml_top_level_str(yaml: Seq<char>, key: Seq<char>) -> Option<Seq<char>>;

/// Parse `yaml` with `serde_yaml` and read the string under `key`
/// (`serde_yaml::from_str::<Value>`, `Value::get`, `Value::as_str`); the
/// contract names the result `yaml_top_level_str(yaml, key)`.
#[verifier::external_body]
fn yaml_str_field(yaml: &str, key: &str) -> (r: Option<String>)
    ensures
        match r {
            Some(v) => yaml_top_level_str(yaml@, key@) == Some(v@),
            None => yaml_top_level_str(yaml@, key@) == None::<Seq<char>>,
        },
{
    match serde_yaml::from_str::<serde_yaml::Value>(yaml) {
        Ok(doc) => match doc.get(key) {
            Some(v) => match v.as_str() {
                Some(text) => Some(text.to_string()),
                None => None,
            },
            None => None,
        },
        Err(_) => None,
    }
}

/// An error for a plan file whose frontmatter names a `source_spec` that
/// does not exist.
pub open spec fn plan_findings(name: Seq<char>, content: Seq<char>, spec_ids: Seq<Seq<char>>) -> Seq<
    (Seq<char>, Seq<char>, Severity),
> {
    match split_spec(content) {
        Some((yaml, _)) => match yaml_top_level_str(yaml, "source_spec"@) {
            Some(src) => if spec_ids.contains(src) {
                no_finding()
            } else {
                finding(
                    "plans/"@ + name,
                    "source_spec references non-existent spec '"@ + src + "'"@,
                    Severity::Error,
                )
            },
            None => no_finding(),
        },
        None => no_finding(),
    }
}

/// The values of a discovery, or none when it failed.
pub open spec fn found_or_none<T>(r: Result<Vec<T>, ForjaError>) -> Seq<T> {
    match r {
        Ok(v) => v@,
        Err(_) => Seq::empty(),
    }
}

// ---------------------------------------------------------------------------
// Executable checks
// ---------------------------------------------------------------------------

fn push_finding(errors: &mut Vec<ValidationError>, file: String, message: String, severity: Severity)
    ensures
        errs_view(final(errors)@) == errs_view(old(errors)@) + finding(file@, message@, severity),
{
    let ghost before = errors@;
    let e = ValidationError { file, message, severity };
    errors.push(e);
    assert(errs_view(errors@) =~= errs_view(before) + finding(file@, message@, severity));
}

fn push_missing_ref(
    errors: &mut Vec<ValidationError>,
    file: &str,
    prefix: &str,
    known: &Vec<&str>,
    reference: &str,
)
    ensures
        errs_view(final(errors)@) == errs_view(old(errors)@) + missing_ref(
            file@,
            prefix@,
            strs(known@),
            reference@,
        ),
{
    if contains_str(known, reference) {
        assert(errs_view(errors@) =~= errs_view(errors@) + no_finding());
    } else {
        push_finding(errors, owned(file), concat3(prefix, reference, "'"), Severity::Error);
    }
}

fn push_missing_refs(
    errors: &mut Vec<ValidationError>,
    file: &str,
    prefix: &str,
    known: &Vec<&str>,
    refs: &Vec<String>,
)
    ensures
        errs_view(final(errors)@) == errs_view(old(errors)@) + missing_refs(
            file@,
            prefix@,
            strs(known@),
            refs@.map_values(|r: String| r@),
        ),
{
    let ghost rv = refs@.map_values(|r: String| r@);
    let ghost f = |r: Seq<char>| missing_ref(file@, prefix@, strs(known@), r);
    let ghost e0 = errs_view(errors@);
    let mut i: usize = 0;
    while i < refs.len()
        invariant
            i <= refs.len(),
            rv == refs@.map_values(|r: String| r@),
            f == (|r: Seq<char>| missing_ref(file@, prefix@, strs(known@), r)),
            errs_view(errors@) == e0 + flat_map(rv.take(i as int), f),
        decreases refs.len() - i,
    {
        proof {
            lemma_flat_map_take(rv, f, i as int);
        }
        push_missing_ref(errors, file, prefix, known, refs[i].as_str());
        i = i + 1;
    }
    proof {
        lemma_flat_map_full(rv, f);
    }
}

fn push_vision_findings(errors: &mut Vec<ValidationError>, vision: &Option<Result<VisionFile, ForjaError>>)
    ensures
        errs_view(final(errors)@) == errs_view(old(errors)@) + vision_findings(*vision),
{
    let ghost e0 = errs_view(errors@);
    match vision {
        None => {
            assert(errs_view(errors@) =~= e0 + no_finding());
        },
        Some(Err(e)) => {
            push_finding(
                errors,
                owned("docs/vision.md"),
                concat2("Failed to parse: ", e.message().as_str()),
                Severity::Error,
            );
        },
        Some(Ok(v)) => {
            if v.frontmatter.project.as_str().is_empty() {
                push_finding(
                    errors,
                    owned("docs/vision.md"),
                    owned("project field is empty"),
                    Severity::Error,
                );
            }
            let ghost e1 = errs_view(errors@);
            if v.frontmatter.description.as_str().is_empty() {
                push_finding(
                    errors,
                    owned("docs/vision.md"),
                    owned("description field is empty"),
                    Severity::Error,
                );
            }
            assert(errs_view(errors@) =~= e0 + vision_findings(*vision));
        },
    }
}

fn push_parse_failure_findings(errors: &mut Vec<ValidationError>, failed: &Vec<(String, ForjaError)>)
    ensures
        errs_view(final(errors)@) == errs_view(old(errors)@) + flat_map(
            failed@,
            |p: (String, ForjaError)| parse_failure_finding(p),
        ),
{
    let ghost f = |p: (String, ForjaError)| parse_failure_finding(p);
    let ghost e0 = errs_view(errors@);
    let mut i: usize = 0;
    while i < failed.len()
        invariant
            i <= failed.len(),
            f == (|p: (String, ForjaError)| parse_failure_finding(p)),
            errs_view(errors@) == e0 + flat_map(failed@.take(i as int), f),
        decreases failed.len() - i,
    {
        proof {
            lemma_flat_map_take(failed@, f, i as int);
        }
        let (name, e) = &failed[i];
        push_finding(
            errors,
            owned(name.as_str()),
            concat2("Failed to parse: ", e.message().as_str()),
            Severity::Error,
        );
        assert(errs_view(errors@) =~= e0 + flat_map(failed@.take(i + 1), f));
        i = i + 1;
    }
    proof {
        lemma_flat_map_full(failed@, f);
    }
}

fn push_empty_track_findings(errors: &mut Vec<ValidationError>, tracks: &Vec<TrackFile>)
    ensures
        errs_view(final(errors)@) == errs_view(old(errors)@) + flat_map(
            tracks@,
            |t: TrackFile| empty_track_finding(t),
        ),
{
    let ghost f = |t: TrackFile| empty_track_finding(t);
    let ghost e0 = errs_view(errors@);
    let mut i: usize = 0;
    while i < tracks.len()
        invariant
            i <= tracks.len(),
            f == (|t: TrackFile| empty_track_finding(t)),
            errs_view(errors@) == e0 + flat_map(tracks@.take(i as int), f),
        decreases tracks.len() - i,
    {
        proof {
            lemma_flat_map_take(tracks@, f, i as int);
        }
        let t = &tracks[i];
        let ghost before = errs_view(errors@);
        if t.items.len() == 0 {
            push_finding(
                errors,
                concat3("tracks/track-", t.id(), ".md"),
                owned("track has no items in its table"),
                Severity::Warning,
            );
        } else {
            assert(errs_view(errors@) =~= before + no_finding());
        }
        assert(errs_view(errors@) =~= e0 + flat_map(tracks@.take(i + 1), f));
        i = i + 1;
    }
    proof {
        lemma_flat_map_full(tracks@, f);
    }
}

fn push_spec_findings(
    errors: &mut Vec<ValidationError>,
    s: &SpecFile,
    spec_ids: &Vec<&str>,
    track_ids: &Vec<&str>,
)
    ensures
        errs_view(final(errors)@) == errs_view(old(errors)@) + spec_findings(
            *s,
            strs(spec_ids@),
            strs(track_ids@),
        ),
{
    let ghost e0 = errs_view(errors@);
    let file = concat3("specs/", s.id(), ".md");
    if s.frontmatter.acceptance_criteria.len() == 0 && s.frontmatter.success_criteria.len() == 0 {
        push_finding(
            errors,
            owned(file.as_str()),
            owned("spec has no acceptance criteria or success criteria"),
            Severity::Warning,
        );
    }
    let ghost e1 = errs_view(errors@);
    match &s.frontmatter.track {
        Some(t) => {
            push_missing_ref(
                errors,
                file.as_str(),
                "references non-existent track '",
                track_ids,
                t.as_str(),
            );
        },
        None => {},
    }
    let ghost e2 = errs_view(errors@);
    push_missing_refs(
        errors,
        file.as_str(),
        "blocked_by references non-existent spec '",
        spec_ids,
        &s.frontmatter.blocked_by,
    );
    push_missing_refs(
        errors,
        file.as_str(),
        "depends_on references non-existent spec '",
        spec_ids,
        &s.frontmatter.depends_on,
    );
    assert(errs_view(errors@) =~= e0 + spec_findings(*s, strs(spec_ids@), strs(track_ids@)));
}

fn push_all_spec_findings(
    errors: &mut Vec<ValidationError>,
    specs: &Vec<SpecFile>,
    spec_ids: &Vec<&str>,
    track_ids: &Vec<&str>,
)
    ensures
        errs_view(final(errors)@) == errs_view(old(errors)@) + flat_map(
            specs@,
            |s: SpecFile| spec_findings(s, strs(spec_ids@), strs(track_ids@)),
        ),
{
    let ghost f = |s: SpecFile| spec_findings(s, strs(spec_ids@), strs(track_ids@));
    let ghost e0 = errs_view(errors@);
    let mut i: usize = 0;
    while i < specs.len()
        invariant
            i <= specs.len(),
            f == (|s: SpecFile| spec_findings(s, strs(spec_ids@), strs(track_ids@))),
            errs_view(errors@) == e0 + flat_map(specs@.take(i as int), f),
        decreases specs.len() - i,
    {
        proof {
            lemma_flat_map_take(specs@, f, i as int);
        }
        push_spec_findings(errors, &specs[i], spec_ids, track_ids);
        i = i + 1;
    }
    proof {
        lemma_flat_map_full(specs@, f);
    }
}

fn push_item_findings(errors: &mut Vec<ValidationError>, t: &TrackFile, spec_ids: &Vec<&str>)
    ensures
        errs_view(final(errors)@) == errs_view(old(errors)@) + item_findings(*t, strs(spec_ids@)),
{
    let ghost f = |it: TrackItem| item_finding(t.frontmatter.id@, it, strs(spec_ids@));
    let ghost e0 = errs_view(errors@);
    let mut i: usize = 0;
    while i < t.items.len()
        invariant
            i <= t.items.len(),
            f == (|it: TrackItem| item_finding(t.frontmatter.id@, it, strs(spec_ids@))),
            errs_view(errors@) == e0 + flat_map(t.items@.take(i as int), f),
        decreases t.items.len() - i,
    {
        proof {
            lemma_flat_map_take(t.items@, f, i as int);
        }
        let item = &t.items[i];
        let ghost before = errs_view(errors@);
        let spec = item.spec.as_str();
        if !spec.is_empty() && !crate::text::str_eq(spec, "-") && !contains_str(spec_ids, spec) {
            let mut message = concat3("item '", item.id.as_str(), "' references non-existent spec '");
            push_str(&mut message, spec);
            push_str(&mut message, "'");
            push_finding(errors, concat3("tracks/track-", t.id(), ".md"), message, Severity::Error);
        } else {
            assert(errs_view(errors@) =~= before + no_finding());
        }
        i = i + 1;
    }
    proof {
        lemma_flat_map_full(t.items@, f);
    }
}

fn push_all_item_findings(errors: &mut Vec<ValidationError>, tracks: &Vec<TrackFile>, spec_ids: &Vec<&str>)
    ensures
        errs_view(final(errors)@) == errs_view(old(errors)@) + flat_map(
            tracks@,
            |t: TrackFile| item_findings(t, strs(spec_ids@)),
        ),
{
    let ghost f = |t: TrackFile| item_findings(t, strs(spec_ids@));
    let ghost e0 = errs_view(errors@);
    let mut i: usize = 0;
    while i < tracks.len()
        invariant
            i <= tracks.len(),
            f == (|t: TrackFile| item_findings(t, strs(spec_ids@))),
            errs_view(errors@) == e0 + flat_map(tracks@.take(i as int), f),
        decreases tracks.len() - i,
    {
        proof {
            lemma_flat_map_take(tracks@, f, i as int);
        }
        push_item_findings(errors, &tracks[i], spec_ids);
        i = i + 1;
    }
    proof {
        lemma_flat_map_full(tracks@, f);
    }
}

fn push_decision_findings(
    errors: &mut Vec<ValidationError>,
    d: &DecisionFile,
    spec_ids: &Vec<&str>,
    decision_ids: &Vec<&str>,
)
    ensures
        errs_view(final(errors)@) == errs_view(old(errors)@) + decision_findings(
            *d,
            strs(spec_ids@),
            strs(decision_ids@),
        ),
{
    let ghost e0 = errs_view(errors@);
    let file = concat3("decisions/", d.id(), ".md");
    push_missing_refs(
        errors,
        file.as_str(),
        "related_specs references non-existent spec '",
        spec_ids,
        &d.frontmatter.related_specs,
    );
    let ghost e1 = errs_view(errors@);
    match &d.frontmatter.superseded_by {
        Some(sup) => {
            push_missing_ref(
                errors,
                file.as_str(),
                "superseded_by references non-existent decision '",
                decision_ids,
                sup.as_str(),
            );
        },
        None => {},
    }
    assert(errs_view(errors@) =~= e0 + decision_findings(
        *d,
        strs(spec_ids@),
        strs(decision_ids@),
    ));
}

fn push_all_decision_findings(
    errors: &mut Vec<ValidationError>,
    decisions: &Vec<DecisionFile>,
    spec_ids: &Vec<&str>,
    decision_ids: &Vec<&str>,
)
    ensures
        errs_view(final(errors)@) == errs_view(old(errors)@) + flat_map(
            decisions@,
            |d: DecisionFile| decision_findings(d, strs(spec_ids@), strs(decision_ids@)),
        ),
{
    let ghost f = |d: DecisionFile| decision_findings(d, strs(spec_ids@), strs(decision_ids@));
    let ghost e0 = errs_view(errors@);
    let mut i: usize = 0;
    while i < decisions.len()
        invariant
            i <= decisions.len(),
            f == (|d: DecisionFile| decision_findings(d, strs(spec_ids@), strs(decision_ids@))),
            errs_view(errors@) == e0 + flat_map(decisions@.take(i as int), f),
        decreases decisions.len() - i,
    {
        proof {
            lemma_flat_map_take(decisions@, f, i as int);
        }
        push_decision_findings(errors, &decisions[i], spec_ids, decision_ids);
        i = i + 1;
    }
    proof {
        lemma_flat_map_full(decisions@, f);
    }
}

fn push_plan_findings(errors: &mut Vec<ValidationError>, name: &str, content: &str, spec_ids: &Vec<&str>)
    ensures
        errs_view(final(errors)@) == errs_view(old(errors)@) + plan_findings(
            name@,
            content@,
            strs(spec_ids@),
        ),
{
    let ghost e0 = errs_view(errors@);
    match split_frontmatter(content) {
        Ok((yaml, _)) => match yaml_str_field(yaml, "source_spec") {
            Some(src) => {
                if contains_str(spec_ids, src.as_str()) {
                    assert(errs_view(errors@) =~= e0 + no_finding());
                } else {
                    push_finding(
                        errors,
                        concat2("plans/", name),
                        concat3("source_spec references non-existent spec '", src.as_str(), "'"),
                        Severity::Error,
                    );
                }
            },
            None => {
                assert(errs_view(errors@) =~= e0 + no_finding());
            },
        },
        Err(_) => {
            assert(errs_view(errors@) =~= e0 + no_finding());
        },
    }
}

fn push_all_plan_findings(
    errors: &mut Vec<ValidationError>,
    plans: &Vec<(String, String)>,
    spec_ids: &Vec<&str>,
)
    ensures
        errs_view(final(errors)@) == errs_view(old(errors)@) + flat_map(
            plans@,
            |p: (String, String)| plan_findings(p.0@, p.1@, strs(spec_ids@)),
        ),
{
    let ghost f = |p: (String, String)| plan_findings(p.0@, p.1@, strs(spec_ids@));
    let ghost e0 = errs_view(errors@);
    let mut i: usize = 0;
    while i < plans.len()
        invariant
            i <= plans.len(),
            f == (|p: (String, String)| plan_findings(p.0@, p.1@, strs(spec_ids@))),
            errs_view(errors@) == e0 + flat_map(plans@.take(i as int), f),
        decreases plans.len() - i,
    {
        proof {
            lemma_flat_map_take(plans@, f, i as int);
        }
        let (name, content) = &plans[i];
        push_plan_findings(errors, name.as_str(), content.as_str(), spec_ids);
        i = i + 1;
    }
    proof {
        lemma_flat_map_full(plans@, f);
    }
}

/// The outcome of a validation: every finding, in the order of the checks.
#[derive(Debug)]
pub struct ValidationResult {
    pub errors: Vec<ValidationError>,
}

/// How many findings of `v` have severity `sev`.
pub open spec fn count_severity(v: Seq<ValidationError>, sev: Severity) -> nat
    decreases v.len(),
{
    if v.len() == 0 {
        0
    } else {
        count_severity(v.drop_last(), sev) + if v.last().severity == sev {
            1nat
        } else {
            0nat
        }
    }
}

/// Every finding is an error or a warning: the two counts add up to the
/// number of findings.
pub proof fn lemma_severity_counts_cover(v: Seq<ValidationError>)
    ensures
        count_severity(v, Severity::Error) + count_severity(v, Severity::Warning) == v.len(),
    decreases v.len(),
{
    if v.len() > 0 {
        lemma_severity_counts_cover(v.drop_last());
    }
}

fn count_of(v: &Vec<ValidationError>, sev: Severity) -> (r: usize)
    ensures
        r == count_severity(v@, sev),
{
    let mut n: usize = 0;
    let mut i: usize = 0;
    while i < v.len()
        invariant
            i <= v.len(),
            n == count_severity(v@.take(i as int), sev),
            n <= i,
        decreases v.len() - i,
    {
        assert(v@.take(i + 1).drop_last() =~= v@.take(i as int));
        if v[i].severity == sev {
            n = n + 1;
        }
        i = i + 1;
    }
    assert(v@.take(i as int) =~= v@);
    n
}

impl ValidationResult {
    /// Valid when no finding is an error (warnings do not count).
    pub fn is_valid(&self) -> (r: bool)
        ensures
            r == (count_severity(self.errors@, Severity::Error) == 0),
    {
        count_of(&self.errors, Severity::Error) == 0
    }

    /// The number of errors.
    pub fn error_count(&self) -> (r: usize)
        ensures
            r == count_severity(self.errors@, Severity::Error),
    {
        count_of(&self.errors, Severity::Error)
    }

    /// The number of warnings.
    pub fn warning_count(&self) -> (r: usize)
        ensures
            r == count_severity(self.errors@, Severity::Warning),
    {
        count_of(&self.errors, Severity::Warning)
    }
}

impl ValidationError {
    /// `[ERROR] <file>: <message>` or `[WARN] <file>: <message>`.
    pub fn to_display_string(&self) -> (r: String)
        ensures
            r@ == (match self.severity {
                Severity::Error => "[ERROR] "@,
                Severity::Warning => "[WARN] "@,
            }) + self.file@ + ": "@ + self.message@,
    {
        let mut r = match self.severity {
            Severity::Error => owned("[ERROR] "),
            Severity::Warning => owned("[WARN] "),
        };
        push_str(&mut r, self.file.as_str());
        push_str(&mut r, ": ");
        push_str(&mut r, self.message.as_str());
        r
    }
}

/// The findings before the circular-dependency check.
pub open spec fn findings_before_cycles(
    vision: Option<Result<VisionFile, ForjaError>>,
    failed: Seq<(String, ForjaError)>,
    tracks: Seq<TrackFile>,
    specs: Seq<SpecFile>,
) -> Seq<(Seq<char>, Seq<char>, Severity)> {
    let spec_ids = graph_ids(specs);
    let track_ids = tracks.map_values(|t: TrackFile| t.key_of());
    vision_findings(vision) + flat_map(failed, |p: (String, ForjaError)| parse_failure_finding(p))
        + flat_map(tracks, |t: TrackFile| empty_track_finding(t)) + flat_map(
        specs,
        |s: SpecFile| spec_findings(s, spec_ids, track_ids),
    )
}

/// The findings after the circular-dependency check.
pub open spec fn findings_after_cycles(
    tracks: Seq<TrackFile>,
    specs: Seq<SpecFile>,
    decisions: Seq<DecisionFile>,
    plans: Seq<(String, String)>,
) -> Seq<(Seq<char>, Seq<char>, Severity)> {
    let spec_ids = graph_ids(specs);
    let decision_ids = decisions.map_values(|d: DecisionFile| d.key_of());
    flat_map(tracks, |t: TrackFile| item_findings(t, spec_ids)) + flat_map(
        decisions,
        |d: DecisionFile| decision_findings(d, spec_ids, decision_ids),
    ) + flat_map(plans, |p: (String, String)| plan_findings(p.0@, p.1@, spec_ids))
}

/// The findings of `validate_project`: those before the cycle check, the
/// cycle reports in the middle, those after it.
pub open spec fn validation_findings(
    vision: Option<Result<VisionFile, ForjaError>>,
    failed: Seq<(String, ForjaError)>,
    tracks: Seq<TrackFile>,
    specs: Seq<SpecFile>,
    decisions: Seq<DecisionFile>,
    plans: Seq<(String, String)>,
    found: Seq<(Seq<char>, Seq<char>, Severity)>,
) -> bool {
    let before = findings_before_cycles(vision, failed, tracks, specs);
    let after = findings_after_cycles(tracks, specs, decisions, plans);
    &&& found.len() >= before.len() + after.len()
    &&& found.take(before.len() as int) == before
    &&& found.skip(found.len() - after.len()) == after
    &&& cycle_findings(
        graph_ids(specs),
        graph_deps(specs),
        found.subrange(before.len() as int, found.len() - after.len()),
    )
}

/// Validate the `.forja/` files: schema, references, completeness and
/// consistency.
///
/// The files come already read: `vision` is the parse of `docs/vision.md`
/// (`None` when that file does not exist); `failed` names each `.md` file
/// of `tracks/`, `specs/` and `decisions/` that could not be parsed (its
/// path relative to `.forja/`) with the error it gave; `tracks`, `specs` and
/// `decisions` are what discovery found in `tracks/`, `specs/` and
/// `decisions/` (a failed discovery counts as nothing found); `plans` holds
/// the file name and content of each readable `.md` file in `plans/`.
///
/// The findings come in this order: the vision (a parse failure, an empty
/// project or description); an error for each file that failed to parse;
/// tracks without items (warnings); for each spec,
/// missing criteria (a warning) and references to unknown tracks and specs
/// (`blocked_by`, then `depends_on`); circular dependencies; track items
/// naming unknown specs; decisions naming unknown specs or superseding
/// decisions; plans whose `source_spec` is unknown.
pub fn validate_project(
    vision: Option<Result<VisionFile, ForjaError>>,
    failed: &Vec<(String, ForjaError)>,
    tracks: Result<Vec<TrackFile>, ForjaError>,
    specs: Result<Vec<SpecFile>, ForjaError>,
    decisions: Result<Vec<DecisionFile>, ForjaError>,
    plans: &Vec<(String, String)>,
) -> (r: Result<ValidationResult, ForjaError>)
    ensures
        r is Ok,
        validation_findings(
            vision,
            failed@,
            found_or_none(tracks),
            found_or_none(specs),
            found_or_none(decisions),
            plans@,
            errs_view(r->Ok_0.errors@),
        ),
{
    let tracks = match tracks {
        Ok(v) => v,
        Err(_) => Vec::new(),
    };
    let specs = match specs {
        Ok(v) => v,
        Err(_) => Vec::new(),
    };
    let decisions = match decisions {
        Ok(v) => v,
        Err(_) => Vec::new(),
    };
    let mut errors: Vec<ValidationError> = Vec::new();
    push_vision_findings(&mut errors, &vision);
    push_parse_failure_findings(&mut errors, failed);
    push_empty_track_findings(&mut errors, &tracks);
    let track_ids = key_list(&tracks);
    let spec_ids = key_list(&specs);
    assert(strs(spec_ids@) =~= graph_ids(specs@));
    push_all_spec_findings(&mut errors, &specs, &spec_ids, &track_ids);
    let ghost before = errs_view(errors@);
    assert(before =~= findings_before_cycles(vision, failed@, tracks@, specs@));
    let ghost raw_before = errors@;
    check_circular_deps(&specs, &mut errors);
    let ghost middle_end = errs_view(errors@);
    let ghost raw_mid = errors@;
    push_all_item_findings(&mut errors, &tracks, &spec_ids);
    let decision_ids = key_list(&decisions);
    push_all_decision_findings(&mut errors, &decisions, &spec_ids, &decision_ids);
    push_all_plan_findings(&mut errors, plans, &spec_ids);
    proof {
        let found = errs_view(errors@);
        let after = findings_after_cycles(tracks@, specs@, decisions@, plans@);
        assert(found =~= middle_end + after);
        assert(middle_end.take(before.len() as int) =~= before) by {
            assert(raw_mid.take(raw_before.len() as int) == raw_before);
            assert(raw_mid.len() >= raw_before.len());
            assert(before.len() == raw_before.len());
            assert(errs_view(raw_mid).take(before.len() as int) =~= errs_view(
                raw_mid.take(raw_before.len() as int),
            ));
        }
        assert(found.take(before.len() as int) =~= before);
        assert(found.skip(found.len() - after.len()) =~= after);
        assert(found.subrange(before.len() as int, found.len() - after.len()) =~= middle_end.skip(
            before.len() as int,
        ));
    }
    Ok(ValidationResult { errors })
}

proof fn lemma_empty_track_warnings(tracks: Seq<TrackFile>)
    requires
        forall|k: int| 0 <= k < tracks.len() ==> (#[trigger] tracks[k]).items@.len() == 0,
    ensures
        flat_map(tracks, |t: TrackFile| empty_track_finding(t)).len() == tracks.len(),
        forall|k: int|
            0 <= k < tracks.len() ==> flat_map(tracks, |t: TrackFile| empty_track_finding(t))[k]
                == (track_path((#[trigger] tracks[k]).frontmatter.id@), "track has no items in its table"@, Severity::Warning),
        flat_map(tracks, |t: TrackFile| item_findings(t, Seq::<Seq<char>>::empty())).len() == 0,
    decreases tracks.len(),
{
    if tracks.len() > 0 {
        let pre = tracks.drop_last();
        assert forall|k: int| 0 <= k < pre.len() implies (#[trigger] pre[k]).items@.len() == 0 by {
            assert(pre[k] == tracks[k]);
        }
        lemma_empty_track_warnings(pre);
        let t = tracks.last();
        assert(t == tracks[tracks.len() - 1]);
        assert(t.items@.len() == 0);
        assert(item_findings(t, Seq::<Seq<char>>::empty()) =~= Seq::empty());
        let all = flat_map(tracks, |t: TrackFile| empty_track_finding(t));
        let head = flat_map(pre, |t: TrackFile| empty_track_finding(t));
        assert(all == head + empty_track_finding(t));
        assert forall|k: int| 0 <= k < tracks.len() implies all[k] == (
            track_path((#[trigger] tracks[k]).frontmatter.id@),
            "track has no items in its table"@,
            Severity::Warning,
        ) by {
            if k < pre.len() {
                assert(all[k] == head[k]);
                assert(pre[k] == tracks[k]);
            }
        }
    }
}

proof fn lemma_no_specs_no_cycle(deps: Seq<Seq<Seq<char>>>)
    ensures
        !has_dep_cycle(Seq::empty(), deps),
{
    if has_dep_cycle(Seq::empty(), deps) {
        let p = choose|p: Seq<Seq<char>>| p.len() >= 2 && is_walk(Seq::empty(), deps, p) && p[0] == p[p.len() - 1];
        assert(walk_step(Seq::empty(), deps, p, 0));
        assert(succ(Seq::empty(), deps, p[0]) =~= Seq::<Seq<char>>::empty());
    }
}

proof fn lemma_count_all_warnings(errors: Seq<ValidationError>)
    requires
        forall|k: int| 0 <= k < errors.len() ==> (#[trigger] errors[k]).severity == Severity::Warning,
    ensures
        count_severity(errors, Severity::Error) == 0,
        count_severity(errors, Severity::Warning) == errors.len(),
    decreases errors.len(),
{
    if errors.len() > 0 {
        let pre = errors.drop_last();
        assert forall|k: int| 0 <= k < pre.len() implies (#[trigger] pre[k]).severity == Severity::Warning by {
            assert(pre[k] == errors[k]);
        }
        lemma_count_all_warnings(pre);
        assert(errors.last() == errors[errors.len() - 1]);
    }
}

/// A track with no items is only a warning. A project whose vision names
/// its project and description, whose files all parse, which has no specs,
/// decisions or plans, and whose tracks all have no items, gets exactly one
/// finding per track, `tracks/track-<id>.md: track has no items in its
/// table`, each a warning: it is valid (no errors), with one warning per
/// track.
pub proof fn lemma_empty_tracks_only_warn(v: VisionFile, tracks: Seq<TrackFile>, errors: Seq<ValidationError>)
    requires
        v.frontmatter.project@.len() > 0,
        v.frontmatter.description@.len() > 0,
        forall|k: int| 0 <= k < tracks.len() ==> (#[trigger] tracks[k]).items@.len() == 0,
        validation_findings(
            Some(Ok(v)),
            Seq::empty(),
            tracks,
            Seq::empty(),
            Seq::empty(),
            Seq::empty(),
            errs_view(errors),
        ),
    ensures
        errors.len() == tracks.len(),
        forall|k: int|
            0 <= k < errors.len() ==> (#[trigger] errors[k]).file@ == "tracks/track-"@
                + tracks[k].frontmatter.id@ + ".md"@ && errors[k].message@
                == "track has no items in its table"@ && errors[k].severity == Severity::Warning,
        count_severity(errors, Severity::Error) == 0,
        count_severity(errors, Severity::Warning) == tracks.len(),
{
    let found = errs_view(errors);
    let specs = Seq::<SpecFile>::empty();
    lemma_empty_track_warnings(tracks);
    lemma_no_specs_no_cycle(graph_deps(specs));
    assert(graph_ids(specs) =~= Seq::<Seq<char>>::empty());
    assert(vision_findings(Some(Ok(v))) =~= Seq::empty());
    let before = findings_before_cycles(Some(Ok(v)), Seq::empty(), tracks, specs);
    let after = findings_after_cycles(tracks, specs, Seq::empty(), Seq::empty());
    assert(graph_ids(specs) == Seq::<Seq<char>>::empty());
    assert(after =~= Seq::empty());
    assert(before =~= flat_map(tracks, |t: TrackFile| empty_track_finding(t)));
    let mid = found.subrange(before.len() as int, found.len() - after.len());
    assert(mid.len() == 0);
    assert(found =~= before);
    assert forall|k: int| 0 <= k < errors.len() implies (#[trigger] errors[k]).file@ == "tracks/track-"@
        + tracks[k].frontmatter.id@ + ".md"@ && errors[k].message@ == "track has no items in its table"@
        && errors[k].severity == Severity::Warning by {
        assert(found[k] == err_view(errors[k]));
        assert(found[k] == before[k]);
    }
    lemma_count_all_warnings(errors);
}

} // verus!
