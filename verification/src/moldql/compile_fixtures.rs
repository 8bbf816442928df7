//! The compile fixture graph: a 10-node / 15-edge call graph with
//! provenance and confidence on each edge, and the reference walks over
//! it that the compile and parity checks compare against.
//!
//! ```text
//!   1 → 2 → 3 → 4
//!   1 → 5 → 6
//!   2 → 6
//!   7 → 8 → 9 (cycle: 9 → 8)
//!   10 (isolated)
//! ```
//!
//! Confidences are held in tenths: `{0, 3, 5, 7, 10}` stand for
//! `{0.0, 0.3, 0.5, 0.7, 1.0}`.

use vstd::prelude::*;
use crate::text::owned;
use crate::moldql::ast::{
    BooleanOp, BooleanQuery, ClusterMethod, ClusterQuery, ClusterV, Condition, ConditionV,
    ExplainQuery, ExplainV, Field, FindQuery, MoldQLQuery, NeighborsQuery, Op, PathQuery, PathV,
    QueryV, RootedV, SubgraphQuery, TargetType, TraversalDirection, Value, ValueV,
    conditions_view,
};

verus! {

/// An edge of the fixture graph.
#[derive(Debug, Clone, Copy, PartialEq, Eq)]
pub struct FixtureEdge {
    pub from: u32,
    pub to: u32,
    pub provenance: &'static str,
    /// Confidence in tenths (0 to 10).
    pub confidence_tenths: u32,
}

/// Number of nodes of the fixture graph.
pub const FIXTURE_NODES: u32 = 10;

/// The fixture's edges as `(from, to)` pairs, in order.
pub open spec fn edge_pairs() -> Seq<(u32, u32)> {
    seq![
        (1u32, 2u32),
        (1u32, 5u32),
        (2u32, 3u32),
        (2u32, 6u32),
        (3u32, 4u32),
        (5u32, 6u32),
        (7u32, 8u32),
        (8u32, 9u32),
        (9u32, 8u32),
        (1u32, 3u32),
        (1u32, 4u32),
        (1u32, 6u32),
        (2u32, 4u32),
        (5u32, 3u32),
        (6u32, 4u32),
    ]
}

/// The provenance and confidence (in tenths) of each fixture edge, in
/// order.
pub open spec fn edge_labels() -> Seq<(Seq<char>, u32)> {
    seq![
        ("lsp"@, 10u32),
        ("lsp"@, 7u32),
        ("tree_sitter"@, 5u32),
        ("tree_sitter"@, 3u32),
        ("postgres"@, 0u32),
        ("postgres"@, 0u32),
        ("lsp"@, 10u32),
        ("tree_sitter"@, 5u32),
        ("lsp"@, 7u32),
        ("postgres"@, 5u32),
        ("postgres"@, 3u32),
        ("tree_sitter"@, 5u32),
        ("postgres"@, 0u32),
        ("postgres"@, 0u32),
        ("postgres"@, 0u32),
    ]
}

fn edge(from: u32, to: u32, provenance: &'static str, confidence_tenths: u32) -> (e: FixtureEdge)
    ensures
        e.from == from,
        e.to == to,
        e.provenance == provenance,
        e.confidence_tenths == confidence_tenths,
{
    FixtureEdge { from, to, provenance, confidence_tenths }
}

/// The 15 fixture edges, covering the provenance and confidence matrix.
pub fn fixture_edges() -> (r: Vec<FixtureEdge>)
    ensures
        r.len() == 15,
        forall|i: int| 0 <= i < 15 ==> (#[trigger] r@[i]).from == edge_pairs()[i].0 && r@[i].to
            == edge_pairs()[i].1,
        forall|i: int| 0 <= i < 15 ==> (#[trigger] r@[i]).provenance@ == edge_labels()[i].0
            && r@[i].confidence_tenths == edge_labels()[i].1,
{
    let r = vec![
        edge(1, 2, "lsp", 10),
        edge(1, 5, "lsp", 7),
        edge(2, 3, "tree_sitter", 5),
        edge(2, 6, "tree_sitter", 3),
        edge(3, 4, "postgres", 0),
        edge(5, 6, "postgres", 0),
        edge(7, 8, "lsp", 10),
        edge(8, 9, "tree_sitter", 5),
        edge(9, 8, "lsp", 7),
        edge(1, 3, "postgres", 5),
        edge(1, 4, "postgres", 3),
        edge(1, 6, "tree_sitter", 5),
        edge(2, 4, "postgres", 0),
        edge(5, 3, "postgres", 0),
        edge(6, 4, "postgres", 0),
    ];
    r
}

/// The blocks of the fixture's strongly connected components, in order.
pub open spec fn expected_blocks() -> Seq<Seq<u32>> {
    seq![
        seq![1u32],
        seq![2u32],
        seq![3u32],
        seq![4u32],
        seq![5u32],
        seq![6u32],
        seq![7u32],
        seq![8u32, 9u32],
        seq![10u32],
    ]
}

/// The strongly connected components: 8 and 9 form a cycle, every
/// other node is its own component (see
/// [`law_expected_sccs_are_the_components`]).
pub fn expected_sccs() -> (r: Vec<Vec<u32>>)
    ensures
        r@.len() == 9,
        r@[0]@ == seq![1u32],
        r@[1]@ == seq![2u32],
        r@[2]@ == seq![3u32],
        r@[3]@ == seq![4u32],
        r@[4]@ == seq![5u32],
        r@[5]@ == seq![6u32],
        r@[6]@ == seq![7u32],
        r@[7]@ == seq![8u32, 9u32],
        r@[8]@ == seq![10u32],
        forall|i: int| 0 <= i < 9 ==> (#[trigger] r@[i])@ == expected_blocks()[i],
{
    vec![vec![1], vec![2], vec![3], vec![4], vec![5], vec![6], vec![7], vec![8, 9], vec![10]]
}

/// Which edges a walk follows.
#[derive(Clone, Copy, PartialEq, Eq, Structural)]
pub enum Walk {
    /// Along edges: callees.
    Forward,
    /// Against edges: callers.
    Backward,
    /// Both ways.
    Dual,
}

pub open spec fn follows_forward(w: Walk) -> bool {
    w == Walk::Forward || w == Walk::Dual
}

pub open spec fn follows_backward(w: Walk) -> bool {
    w == Walk::Backward || w == Walk::Dual
}

/// One step of walk `w` leads from `n` to `m`.
pub open spec fn step(w: Walk, n: u32, m: u32) -> bool {
    exists|i: int|
        0 <= i < edge_pairs().len() && ((follows_forward(w) && #[trigger] edge_pairs()[i] == (
        n,
        m,
    )) || (follows_backward(w) && edge_pairs()[i] == (m, n)))
}

/// The nodes one step away from some node of `s`.
pub open spec fn successors(w: Walk, s: Set<u32>) -> Set<u32> {
    Set::new(|m: u32| exists|n: u32| s.contains(n) && #[trigger] step(w, n, m))
}

/// The nodes at most `k` steps of walk `w` away from `root`.
pub open spec fn within(w: Walk, root: u32, k: nat) -> Set<u32>
    decreases k,
{
    if k == 0 {
        set![root]
    } else {
        let v = within(w, root, (k - 1) as nat);
        v.union(successors(w, v))
    }
}

/// `v` is sorted in strictly increasing order.
pub open spec fn strictly_sorted(v: Seq<u32>) -> bool {
    forall|i: int, j: int| 0 <= i < j < v.len() ==> v[i] < v[j]
}

/// The reference walk result: the nodes within `max_hops` steps, in
/// increasing order.
pub open spec fn walk_result(r: Seq<u32>, w: Walk, root: u32, max_hops: u32) -> bool {
    &&& strictly_sorted(r)
    &&& r.to_set() == within(w, root, max_hops as nat)
}

proof fn lemma_within_grows(w: Walk, root: u32, k: nat)
    ensures
        within(w, root, k).subset_of(within(w, root, k + 1)),
        within(w, root, k).contains(root),
        within(w, root, k).finite(),
    decreases k,
{
    if k > 0 {
        lemma_within_grows(w, root, (k - 1) as nat);
        lemma_successors_finite(w, within(w, root, (k - 1) as nat));
    }
    lemma_successors_finite(w, within(w, root, k));
}

/// Pushing onto a sequence inserts into its set.
proof fn lemma_push_to_set(s: Seq<u32>, x: u32)
    ensures
        s.push(x).to_set() == s.to_set().insert(x),
{
    assert forall|y: u32| s.push(x).to_set().contains(y) == s.to_set().insert(x).contains(y) by {
        if s.push(x).contains(y) {
            let k = choose|k: int| 0 <= k < s.push(x).len() && s.push(x)[k] == y;
            if k < s.len() {
                assert(s[k] == y);
            }
        }
        if s.contains(y) {
            let k = choose|k: int| 0 <= k < s.len() && s[k] == y;
            assert(s.push(x)[k] == y);
        }
        if y == x {
            assert(s.push(x)[s.len() as int] == x);
        }
    }
    assert(s.push(x).to_set() =~= s.to_set().insert(x));
}

/// Successors of any set lie among the fixture's endpoints.
proof fn lemma_successors_finite(w: Walk, s: Set<u32>)
    ensures
        successors(w, s).finite(),
{
    let ends = Set::new(|m: u32| 1 <= m <= 10);
    assert(ends =~= set![1u32, 2, 3, 4, 5, 6, 7, 8, 9, 10]);
    assert(successors(w, s).subset_of(ends)) by {
        assert forall|m: u32| successors(w, s).contains(m) implies ends.contains(m) by {
            let n = choose|n: u32| s.contains(n) && step(w, n, m);
            let i = choose|i: int|
                0 <= i < edge_pairs().len() && ((follows_forward(w) && #[trigger] edge_pairs()[i]
                    == (n, m)) || (follows_backward(w) && edge_pairs()[i] == (m, n)));
            assert(0 <= i < 15);
        }
    }
    vstd::set_lib::lemma_len_subset(successors(w, s), ends);
}

/// Once a level adds nothing, no later level does.
proof fn lemma_within_stable(w: Walk, root: u32, k: nat, d: nat)
    requires
        within(w, root, k + 1) == within(w, root, k),
    ensures
        within(w, root, k + d) == within(w, root, k),
    decreases d,
{
    if d > 0 {
        lemma_within_stable(w, root, k, (d - 1) as nat);
        assert(within(w, root, k + d) == within(w, root, (k + d - 1) as nat).union(
            successors(w, within(w, root, (k + d - 1) as nat)),
        ));
        assert((k + d - 1) as nat == k + (d - 1) as nat);
    }
}

fn contains(v: &Vec<u32>, x: u32) -> (r: bool)
    ensures
        r == v@.contains(x),
{
    let mut i: usize = 0;
    while i < v.len()
        invariant
            i <= v.len(),
            forall|j: int| 0 <= j < i ==> v@[j] != x,
        decreases v.len() - i,
    {
        if v[i] == x {
            return true;
        }
        i = i + 1;
    }
    false
}

/// `v` in increasing order (insertion sort; `v` holds no duplicates).
fn sorted(v: Vec<u32>) -> (r: Vec<u32>)
    requires
        v@.no_duplicates(),
    ensures
        strictly_sorted(r@),
        r@.to_set() == v@.to_set(),
{
    let mut r: Vec<u32> = Vec::new();
    let mut i: usize = 0;
    while i < v.len()
        invariant
            i <= v.len(),
            v@.no_duplicates(),
            strictly_sorted(r@),
            r@.to_set() == v@.take(i as int).to_set(),
        decreases v.len() - i,
    {
        let x = v[i];
        proof {
            assert(!v@.take(i as int).contains(x));
            assert(!r@.to_set().contains(x));
        }
        let mut j: usize = 0;
        while j < r.len() && r[j] < x
            invariant
                j <= r.len(),
                forall|k: int| 0 <= k < j ==> r@[k] < x,
            decreases r.len() - j,
        {
            j = j + 1;
        }
        let ghost old_r = r@;
        r.insert(j, x);
        proof {
            assert(!old_r.contains(x));
            assert forall|a: int, b: int| 0 <= a < b < r@.len() implies r@[a] < r@[b] by {
                if j < old_r.len() {
                    assert(old_r[j as int] != x);
                    assert(old_r[j as int] >= x);
                }
            }
            assert(v@.take(i + 1) =~= v@.take(i as int).push(x));
            assert(r@.to_set() =~= old_r.to_set().insert(x)) by {
                assert forall|y: u32| r@.to_set().contains(y) implies old_r.to_set().insert(x).contains(y) by {
                    let k = choose|k: int| 0 <= k < r@.len() && r@[k] == y;
                    if k < j {
                        assert(old_r[k] == y);
                    } else if k > j {
                        assert(old_r[k - 1] == y);
                    }
                }
                assert forall|y: u32| old_r.to_set().insert(x).contains(y) implies r@.to_set().contains(y) by {
                    if y == x {
                        assert(r@[j as int] == x);
                    } else {
                        let k = choose|k: int| 0 <= k < old_r.len() && old_r[k] == y;
                        if k < j {
                            assert(r@[k] == y);
                        } else {
                            assert(r@[k + 1] == y);
                        }
                    }
                }
            }
            lemma_push_to_set(v@.take(i as int), x);
        }
        i = i + 1;
    }
    assert(v@.take(v.len() as int) =~= v@);
    r
}

/// Adds `m` to `visited` and `next` unless already visited.
fn visit(visited: &mut Vec<u32>, next: &mut Vec<u32>, m: u32)
    requires
        old(visited)@.no_duplicates(),
        old(next)@.no_duplicates(),
        old(next)@.to_set().subset_of(old(visited)@.to_set()),
    ensures
        final(visited)@.no_duplicates(),
        final(next)@.no_duplicates(),
        final(visited)@.to_set() == old(visited)@.to_set().insert(m),
        final(next)@.to_set() == if old(visited)@.contains(m) {
            old(next)@.to_set()
        } else {
            old(next)@.to_set().insert(m)
        },
        final(next)@.to_set().subset_of(final(visited)@.to_set()),
{
    if !contains(visited, m) {
        proof {
            assert(!old(next)@.to_set().contains(m));
        }
        let ghost ov = visited@;
        let ghost on = next@;
        visited.push(m);
        next.push(m);
        proof {
            lemma_push_to_set(ov, m);
            lemma_push_to_set(on, m);
        }
    } else {
        proof {
            assert(old(visited)@.to_set().insert(m) =~= old(visited)@.to_set());
        }
    }
}

/// The nodes that the first `k` edges lead to from `n` under walk `w`.
pub open spec fn edge_targets(w: Walk, n: u32, k: int) -> Set<u32> {
    Set::new(
        |m: u32|
            exists|i: int|
                0 <= i < k && i < edge_pairs().len() && ((follows_forward(w) && #[trigger] edge_pairs()[i]
                    == (n, m)) || (follows_backward(w) && edge_pairs()[i] == (m, n))),
    )
}

proof fn lemma_edge_targets_step(w: Walk, n: u32, k: int)
    requires
        0 <= k < edge_pairs().len(),
    ensures
        edge_targets(w, n, k + 1) == edge_targets(w, n, k).union(
            if follows_forward(w) && edge_pairs()[k].0 == n {
                set![edge_pairs()[k].1]
            } else {
                Set::empty()
            },
        ).union(
            if follows_backward(w) && edge_pairs()[k].1 == n {
                set![edge_pairs()[k].0]
            } else {
                Set::empty()
            },
        ),
{
    let lhs = edge_targets(w, n, k + 1);
    let rhs = edge_targets(w, n, k).union(
        if follows_forward(w) && edge_pairs()[k].0 == n {
            set![edge_pairs()[k].1]
        } else {
            Set::empty()
        },
    ).union(
        if follows_backward(w) && edge_pairs()[k].1 == n {
            set![edge_pairs()[k].0]
        } else {
            Set::empty()
        },
    );
    assert forall|m: u32| lhs.contains(m) implies rhs.contains(m) by {
        let i = choose|i: int|
            0 <= i < k + 1 && i < edge_pairs().len() && ((follows_forward(w)
                && #[trigger] edge_pairs()[i] == (n, m)) || (follows_backward(w) && edge_pairs()[i]
                == (m, n)));
        if i < k {
            assert(edge_targets(w, n, k).contains(m));
        }
    }
    assert forall|m: u32| rhs.contains(m) implies lhs.contains(m) by {
        if edge_targets(w, n, k).contains(m) {
            let i = choose|i: int|
                0 <= i < k && i < edge_pairs().len() && ((follows_forward(w)
                    && #[trigger] edge_pairs()[i] == (n, m)) || (follows_backward(w)
                    && edge_pairs()[i] == (m, n)));
            assert(edge_pairs()[i] == edge_pairs()[i]);
        } else {
            assert(edge_pairs()[k] == edge_pairs()[k]);
        }
    }
    assert(lhs =~= rhs);
}

proof fn lemma_edge_targets_all(w: Walk, n: u32)
    ensures
        edge_targets(w, n, edge_pairs().len() as int) == successors(w, set![n]),
{
    let a = edge_targets(w, n, edge_pairs().len() as int);
    let b = successors(w, set![n]);
    assert forall|m: u32| a.contains(m) implies b.contains(m) by {
        let i = choose|i: int|
            0 <= i < edge_pairs().len() && i < edge_pairs().len() && ((follows_forward(w)
                && #[trigger] edge_pairs()[i] == (n, m)) || (follows_backward(w) && edge_pairs()[i]
                == (m, n)));
        assert(step(w, n, m));
        assert(set![n].contains(n));
    }
    assert forall|m: u32| b.contains(m) implies a.contains(m) by {
        let x = choose|x: u32| set![n].contains(x) && step(w, x, m);
        assert(x == n);
        let i = choose|i: int|
            0 <= i < edge_pairs().len() && ((follows_forward(w) && #[trigger] edge_pairs()[i] == (
            n,
            m,
        )) || (follows_backward(w) && edge_pairs()[i] == (m, n)));
        assert(edge_pairs()[i] == edge_pairs()[i]);
    }
    assert(a =~= b);
}

proof fn lemma_successors_union(w: Walk, a: Set<u32>, b: Set<u32>)
    ensures
        successors(w, a.union(b)) == successors(w, a).union(successors(w, b)),
{
    let l = successors(w, a.union(b));
    let r = successors(w, a).union(successors(w, b));
    assert forall|m: u32| l.contains(m) implies r.contains(m) by {
        let n = choose|n: u32| a.union(b).contains(n) && step(w, n, m);
        if a.contains(n) {
            assert(successors(w, a).contains(m));
        } else {
            assert(successors(w, b).contains(m));
        }
    }
    assert forall|m: u32| r.contains(m) implies l.contains(m) by {
        if successors(w, a).contains(m) {
            let n = choose|n: u32| a.contains(n) && step(w, n, m);
            assert(a.union(b).contains(n));
        } else {
            let n = choose|n: u32| b.contains(n) && step(w, n, m);
            assert(a.union(b).contains(n));
        }
    }
    assert(l =~= r);
}

proof fn lemma_successors_mono(w: Walk, a: Set<u32>, b: Set<u32>)
    requires
        a.subset_of(b),
    ensures
        successors(w, a).subset_of(successors(w, b)),
{
    assert forall|m: u32| successors(w, a).contains(m) implies successors(w, b).contains(m) by {
        let n = choose|n: u32| a.contains(n) && step(w, n, m);
        assert(b.contains(n));
    }
}

/// The walk `w` from `root`, level by level, at most `max_hops` levels,
/// stopping early once a level adds no node.
fn walk(root: u32, max_hops: u32, w: Walk) -> (r: Vec<u32>)
    ensures
        walk_result(r@, w, root, max_hops),
{
    let edges = fixture_edges();
    let fwd = w == Walk::Forward || w == Walk::Dual;
    let bwd = w == Walk::Backward || w == Walk::Dual;
    let mut visited: Vec<u32> = vec![root];
    let mut frontier: Vec<u32> = vec![root];
    let mut level: u32 = 0;
    proof {
        assert(visited@.to_set() =~= set![root]) by {
            assert(visited@[0] == root);
        }
        assert(frontier@.to_set() =~= set![root]) by {
            assert(frontier@[0] == root);
        }
    }
    loop
        invariant
            edges.len() == 15,
            forall|i: int| 0 <= i < 15 ==> (#[trigger] edges@[i]).from == edge_pairs()[i].0
                && edges@[i].to == edge_pairs()[i].1,
            fwd == follows_forward(w),
            bwd == follows_backward(w),
            level <= max_hops,
            visited@.no_duplicates(),
            visited@.to_set() == within(w, root, level as nat),
            frontier@.to_set().subset_of(visited@.to_set()),
            successors(w, visited@.to_set()).subset_of(
                visited@.to_set().union(successors(w, frontier@.to_set())),
            ),
        ensures
            visited@.no_duplicates(),
            visited@.to_set() == within(w, root, max_hops as nat),
        decreases max_hops - level,
    {
        if level >= max_hops {
            break;
        }
        let ghost vs = visited@.to_set();
        let ghost fs = frontier@.to_set();
        let mut next: Vec<u32> = Vec::new();
        let mut fi: usize = 0;
        proof {
            assert(frontier@.take(0).to_set() =~= Set::<u32>::empty());
            assert(successors(w, Set::<u32>::empty()) =~= Set::<u32>::empty());
            assert(vs.union(Set::<u32>::empty()) =~= vs);
            assert(next@.to_set() =~= Set::<u32>::empty());
            assert(visited@.to_set().difference(vs) =~= Set::<u32>::empty());
        }
        while fi < frontier.len()
            invariant
                edges.len() == 15,
                forall|i: int| 0 <= i < 15 ==> (#[trigger] edges@[i]).from == edge_pairs()[i].0
                    && edges@[i].to == edge_pairs()[i].1,
                fwd == follows_forward(w),
                bwd == follows_backward(w),
                fi <= frontier.len(),
                fs == frontier@.to_set(),
                fs.subset_of(vs),
                visited@.no_duplicates(),
                next@.no_duplicates(),
                next@.to_set().subset_of(visited@.to_set()),
                visited@.to_set() == vs.union(successors(w, frontier@.take(fi as int).to_set())),
                next@.to_set() == visited@.to_set().difference(vs),
            decreases frontier.len() - fi,
        {
            let n = frontier[fi];
            let ghost base = visited@.to_set();
            let mut ei: usize = 0;
            proof {
                assert(edge_targets(w, n, 0) =~= Set::<u32>::empty());
                assert(base.union(Set::<u32>::empty()) =~= base);
            }
            while ei < edges.len()
                invariant
                    edges.len() == 15,
                    forall|i: int| 0 <= i < 15 ==> (#[trigger] edges@[i]).from == edge_pairs()[i].0
                        && edges@[i].to == edge_pairs()[i].1,
                    fwd == follows_forward(w),
                    bwd == follows_backward(w),
                    ei <= edges.len(),
                    base.subset_of(visited@.to_set()),
                    vs.subset_of(base),
                    visited@.no_duplicates(),
                    next@.no_duplicates(),
                    next@.to_set().subset_of(visited@.to_set()),
                    visited@.to_set() == base.union(edge_targets(w, n, ei as int)),
                    next@.to_set() == visited@.to_set().difference(vs),
                decreases edges.len() - ei,
            {
                let e = edges[ei];
                let ghost before = visited@.to_set();
                proof {
                    lemma_edge_targets_step(w, n, ei as int);
                }
                if fwd && e.from == n {
                    visit(&mut visited, &mut next, e.to);
                }
                let ghost mid = visited@.to_set();
                if bwd && e.to == n {
                    visit(&mut visited, &mut next, e.from);
                }
                proof {
                    assert(visited@.to_set() =~= base.union(edge_targets(w, n, ei + 1)));
                    assert(next@.to_set() =~= visited@.to_set().difference(vs));
                }
                ei = ei + 1;
            }
            proof {
                lemma_edge_targets_all(w, n);
                assert(frontier@.take(fi + 1) =~= frontier@.take(fi as int).push(n));
                lemma_push_to_set(frontier@.take(fi as int), n);
                assert(frontier@.take(fi as int).to_set().insert(n) =~= frontier@.take(
                    fi as int,
                ).to_set().union(set![n]));
                lemma_successors_union(w, frontier@.take(fi as int).to_set(), set![n]);
                assert(visited@.to_set() =~= vs.union(
                    successors(w, frontier@.take(fi + 1).to_set()),
                ));
            }
            fi = fi + 1;
        }
        proof {
            assert(frontier@.take(frontier.len() as int) =~= frontier@);
            lemma_successors_mono(w, fs, vs);
            assert(visited@.to_set() =~= vs.union(successors(w, vs)));
            assert(within(w, root, (level + 1) as nat) == vs.union(successors(w, vs)));
        }
        if next.len() == 0 {
            proof {
                assert(next@.to_set() =~= Set::<u32>::empty());
                assert(visited@.to_set() =~= vs);
                lemma_within_stable(w, root, level as nat, (max_hops - level) as nat);
            }
            break;
        }
        proof {
            let nv = visited@.to_set();
            let nf = next@.to_set();
            assert(nv =~= vs.union(nf));
            lemma_successors_union(w, vs, nf);
        }
        frontier = next;
        level = level + 1;
    }
    sorted(visited)
}

/// Nodes reachable from `root` along edges in at most `max_hops` steps,
/// in increasing order.
pub fn bfs_reachable(root: u32, max_hops: u32) -> (r: Vec<u32>)
    ensures
        walk_result(r@, Walk::Forward, root, max_hops),
{
    walk(root, max_hops, Walk::Forward)
}

/// Nodes that reach `root` along edges in at most `max_hops` steps, in
/// increasing order.
pub fn bfs_predecessors(root: u32, max_hops: u32) -> (r: Vec<u32>)
    ensures
        walk_result(r@, Walk::Backward, root, max_hops),
{
    walk(root, max_hops, Walk::Backward)
}

/// Nodes at most `max_hops` steps from `root` following edges either
/// way, in increasing order.
pub fn bfs_dual(root: u32, max_hops: u32) -> (r: Vec<u32>)
    ensures
        walk_result(r@, Walk::Dual, root, max_hops),
{
    walk(root, max_hops, Walk::Dual)
}

/// A walk's result always holds its root.
pub proof fn law_walk_contains_root(w: Walk, root: u32, k: nat)
    ensures
        within(w, root, k).contains(root),
{
    lemma_within_grows(w, root, k);
}

/// Allowing one more hop never loses a node.
pub proof fn law_walk_monotone(w: Walk, root: u32, k: nat)
    ensures
        within(w, root, k).subset_of(within(w, root, k + 1)),
{
    lemma_within_grows(w, root, k);
}

/// The two-way walk reaches everything the forward walk and the
/// backward walk reach.
pub proof fn law_dual_covers(root: u32, k: nat)
    ensures
        within(Walk::Forward, root, k).subset_of(within(Walk::Dual, root, k)),
        within(Walk::Backward, root, k).subset_of(within(Walk::Dual, root, k)),
    decreases k,
{
    if k > 0 {
        law_dual_covers(root, (k - 1) as nat);
        let kk = (k - 1) as nat;
        let d = within(Walk::Dual, root, kk);
        let f = within(Walk::Forward, root, kk);
        let b = within(Walk::Backward, root, kk);
        assert forall|m: u32| successors(Walk::Forward, f).contains(m) implies successors(
            Walk::Dual,
            d,
        ).contains(m) by {
            let n = choose|n: u32| f.contains(n) && step(Walk::Forward, n, m);
            assert(d.contains(n));
            assert(step(Walk::Dual, n, m));
        }
        assert forall|m: u32| successors(Walk::Backward, b).contains(m) implies successors(
            Walk::Dual,
            d,
        ).contains(m) by {
            let n = choose|n: u32| b.contains(n) && step(Walk::Backward, n, m);
            assert(d.contains(n));
            assert(step(Walk::Dual, n, m));
        }
    }
}

// ---------------------------------------------------------------------------
// Query builders for the compile checks
// ---------------------------------------------------------------------------

/// `PATH FROM <from> TO <to>` without a hop bound or conditions.
pub fn path(from: &str, to: &str) -> (r: MoldQLQuery)
    ensures
        r@ == QueryV::Path(
            PathV { from: from@, to: to@, max_hops: None, conditions: Seq::empty() },
        ),
{
    let q = PathQuery { from: owned(from), to: owned(to), max_hops: None, conditions: Vec::new() };
    assert(conditions_view(q.conditions) =~= Seq::<ConditionV>::empty());
    MoldQLQuery::Path(q)
}

/// `PATH FROM <from> TO <to> MAX HOPS <n>`.
pub fn path_with_max_hops(from: &str, to: &str, n: u32) -> (r: MoldQLQuery)
    ensures
        r@ == QueryV::Path(
            PathV { from: from@, to: to@, max_hops: Some(n), conditions: Seq::empty() },
        ),
{
    let q = PathQuery { from: owned(from), to: owned(to), max_hops: Some(n), conditions: Vec::new() };
    assert(conditions_view(q.conditions) =~= Seq::<ConditionV>::empty());
    MoldQLQuery::Path(q)
}

/// `NEIGHBORS <root> DEPTH <depth> DIRECTION <direction>`.
pub fn neighbors(root: &str, depth: u32, direction: TraversalDirection) -> (r: MoldQLQuery)
    ensures
        r@ == QueryV::Neighbors(
            RootedV { root: root@, depth, direction, conditions: Seq::empty() },
        ),
{
    let q = NeighborsQuery { root: owned(root), depth, direction, conditions: Vec::new() };
    assert(conditions_view(q.conditions) =~= Seq::<ConditionV>::empty());
    MoldQLQuery::Neighbors(q)
}

/// `SUBGRAPH ROOT <root> DEPTH <depth>`, both directions.
pub fn subgraph(root: &str, depth: u32) -> (r: MoldQLQuery)
    ensures
        r@ == QueryV::Subgraph(
            RootedV {
                root: root@,
                depth,
                direction: TraversalDirection::Both,
                conditions: Seq::empty(),
            },
        ),
{
    let q = SubgraphQuery {
        root: owned(root),
        depth,
        direction: TraversalDirection::Both,
        conditions: Vec::new(),
    };
    assert(conditions_view(q.conditions) =~= Seq::<ConditionV>::empty());
    MoldQLQuery::Subgraph(q)
}

/// `CLUSTER METHOD <method>`.
pub fn cluster(method: ClusterMethod) -> (r: MoldQLQuery)
    ensures
        r@ == QueryV::Cluster(ClusterV { method, conditions: Seq::empty() }),
{
    let q = ClusterQuery { method, conditions: Vec::new() };
    assert(conditions_view(q.conditions) =~= Seq::<ConditionV>::empty());
    MoldQLQuery::Cluster(q)
}

/// `EXPLAIN FROM <from> TO <to>`.
pub fn explain(from: &str, to: &str) -> (r: MoldQLQuery)
    ensures
        r@ == QueryV::Explain(ExplainV { from: from@, to: to@, conditions: Seq::empty() }),
{
    let q = ExplainQuery { from: owned(from), to: owned(to), conditions: Vec::new() };
    assert(conditions_view(q.conditions) =~= Seq::<ConditionV>::empty());
    MoldQLQuery::Explain(q)
}

/// `FIND symbols`.
pub fn find_symbols() -> (r: MoldQLQuery)
    ensures
        r@ matches QueryV::Find(f) && f.target == TargetType::Symbols && f.scope is None
            && f.conditions.len() == 0 && f.apply_lens is None,
{
    let q = FindQuery {
        target: TargetType::Symbols,
        scope: None,
        conditions: Vec::new(),
        apply_lens: None,
    };
    assert(conditions_view(q.conditions) =~= Seq::<ConditionV>::empty());
    MoldQLQuery::Find(q)
}

fn pair(op: BooleanOp, left: MoldQLQuery, right: MoldQLQuery) -> (r: MoldQLQuery)
    ensures
        r@ == QueryV::Boolean(op, seq![left@, right@]),
{
    let mut operands: Vec<MoldQLQuery> = Vec::new();
    operands.push(left);
    operands.push(right);
    let r = MoldQLQuery::Boolean(BooleanQuery { op, operands });
    assert(match r@ {
        QueryV::Boolean(_, ops) => ops =~= seq![left@, right@],
        _ => false,
    });
    r
}

/// `( <left> AND <right> )`.
pub fn and(left: MoldQLQuery, right: MoldQLQuery) -> (r: MoldQLQuery)
    ensures
        r@ == QueryV::Boolean(BooleanOp::And, seq![left@, right@]),
{
    pair(BooleanOp::And, left, right)
}

/// `( <left> OR <right> )`.
pub fn or(left: MoldQLQuery, right: MoldQLQuery) -> (r: MoldQLQuery)
    ensures
        r@ == QueryV::Boolean(BooleanOp::Or, seq![left@, right@]),
{
    pair(BooleanOp::Or, left, right)
}

/// `NOT <inner>`.
pub fn not(inner: MoldQLQuery) -> (r: MoldQLQuery)
    ensures
        r@ == QueryV::Boolean(BooleanOp::Not, seq![inner@]),
{
    let mut operands: Vec<MoldQLQuery> = Vec::new();
    operands.push(inner);
    let r = MoldQLQuery::Boolean(BooleanQuery { op: BooleanOp::Not, operands });
    assert(match r@ {
        QueryV::Boolean(_, ops) => ops =~= seq![inner@],
        _ => false,
    });
    r
}

/// `provenance.<source> == "<value>"`.
pub fn cond_provenance(source: &str, value: &str) -> (r: Condition)
    ensures
        r@ == (ConditionV {
            field: seq!["provenance"@, source@],
            op: Op::Eq,
            value: ValueV::Str(value@),
        }),
{
    Condition { field: Field::dotted("provenance", source), op: Op::Eq, value: Value::String(owned(value)) }
}

/// `confidence >= <n>`, the number given as its decimal text.
pub fn cond_confidence_gte(n: &str) -> (r: Condition)
    ensures
        r@ == (ConditionV { field: seq!["confidence"@], op: Op::Gte, value: ValueV::Number(n@) }),
{
    Condition { field: Field::single("confidence"), op: Op::Gte, value: Value::Number(owned(n)) }
}


// ---------------------------------------------------------------------------
// Strongly connected components of the fixture
// ---------------------------------------------------------------------------

/// `b` can be reached from `a` along edges.
pub open spec fn reaches(a: u32, b: u32) -> bool {
    exists|k: nat| #[trigger] within(Walk::Forward, a, k).contains(b)
}

/// The position of node `n`'s block in [`expected_sccs`].
pub open spec fn scc_block(n: u32) -> int {
    if 1 <= n <= 7 {
        n - 1
    } else if n == 8 || n == 9 {
        7
    } else {
        8
    }
}

/// Everything node `n` reaches along edges.
pub open spec fn forward_closure(n: u32) -> Set<u32> {
    if n == 1 {
        set![1u32, 2, 3, 4, 5, 6]
    } else if n == 2 {
        set![2u32, 3, 4, 6]
    } else if n == 3 {
        set![3u32, 4]
    } else if n == 5 {
        set![5u32, 3, 4, 6]
    } else if n == 6 {
        set![6u32, 4]
    } else if n == 7 {
        set![7u32, 8, 9]
    } else if n == 8 || n == 9 {
        set![8u32, 9]
    } else {
        set![n]
    }
}

/// A forward step follows one of the fifteen edges.
proof fn lemma_forward_step(n: u32, m: u32)
    requires
        step(Walk::Forward, n, m),
    ensures
        (n, m) == (1u32, 2u32) || (n, m) == (1u32, 5u32) || (n, m) == (2u32, 3u32) || (n, m) == (
            2u32,
            6u32,
        ) || (n, m) == (3u32, 4u32) || (n, m) == (5u32, 6u32) || (n, m) == (7u32, 8u32) || (n, m)
            == (8u32, 9u32) || (n, m) == (9u32, 8u32) || (n, m) == (1u32, 3u32) || (n, m) == (
            1u32,
            4u32,
        ) || (n, m) == (1u32, 6u32) || (n, m) == (2u32, 4u32) || (n, m) == (5u32, 3u32) || (n, m)
            == (6u32, 4u32),
{
    let i = choose|i: int|
        0 <= i < edge_pairs().len() && ((follows_forward(Walk::Forward) && #[trigger] edge_pairs()[i]
            == (n, m)) || (follows_backward(Walk::Forward) && edge_pairs()[i] == (m, n)));
    assert(edge_pairs()[i] == (n, m));
    assert(0 <= i < 15);
}

/// A node's forward closure holds it and is closed under steps.
proof fn lemma_closure_closed(n: u32, a: u32, b: u32)
    requires
        1 <= n <= 10,
        forward_closure(n).contains(a),
        step(Walk::Forward, a, b),
    ensures
        forward_closure(n).contains(b),
{
    lemma_forward_step(a, b);
}

/// A forward walk from `n` stays in its closure.
proof fn lemma_within_closure(n: u32, k: nat)
    requires
        1 <= n <= 10,
    ensures
        within(Walk::Forward, n, k).subset_of(forward_closure(n)),
    decreases k,
{
    if k > 0 {
        lemma_within_closure(n, (k - 1) as nat);
        let v = within(Walk::Forward, n, (k - 1) as nat);
        assert forall|m: u32| successors(Walk::Forward, v).contains(m) implies forward_closure(
            n,
        ).contains(m) by {
            let a = choose|a: u32| v.contains(a) && step(Walk::Forward, a, m);
            lemma_closure_closed(n, a, m);
        }
    }
}

/// Node `a` reaches node `b` exactly when `b` lies in `a`'s closure.
proof fn lemma_reaches_closure(a: u32, b: u32)
    requires
        1 <= a <= 10,
        1 <= b <= 10,
    ensures
        reaches(a, b) <==> forward_closure(a).contains(b),
{
    if reaches(a, b) {
        let k = choose|k: nat| #[trigger] within(Walk::Forward, a, k).contains(b);
        lemma_within_closure(a, k);
    }
    if forward_closure(a).contains(b) {
        if a == b {
            assert(within(Walk::Forward, a, 0).contains(b));
        } else {
            // Every closure is reached within two steps.
            lemma_within_grows(Walk::Forward, a, 0);
            lemma_within_grows(Walk::Forward, a, 1);
            let w0 = within(Walk::Forward, a, 0);
            let w1 = within(Walk::Forward, a, 1);
            let w2 = within(Walk::Forward, a, 2);
            assert(w0 == set![a]);
            assert(w1 == w0.union(successors(Walk::Forward, w0)));
            assert(w2 == w1.union(successors(Walk::Forward, w1)));
            let ep = edge_pairs();
            if ep.contains((a, b)) {
                let i = choose|i: int| 0 <= i < ep.len() && ep[i] == (a, b);
                assert(step(Walk::Forward, a, b));
                assert(successors(Walk::Forward, w0).contains(b));
                assert(within(Walk::Forward, a, 1).contains(b));
            } else {
                // The two-step pairs: 7 reaches 9 through 8, 5 reaches 4
                // through 3.
                assert(ep[6] == (7u32, 8u32));
                assert(ep[7] == (8u32, 9u32));
                assert(ep[8] == (9u32, 8u32));
                assert(ep[13] == (5u32, 3u32));
                assert(ep[4] == (3u32, 4u32));
                if a == 5 && b == 4 {
                    assert(step(Walk::Forward, 5, 3));
                    assert(successors(Walk::Forward, w0).contains(3));
                    assert(w1.contains(3));
                    assert(step(Walk::Forward, 3, 4));
                    assert(successors(Walk::Forward, w1).contains(4));
                    assert(within(Walk::Forward, a, 2).contains(b));
                } else if a == 7 {
                    assert(step(Walk::Forward, 7, 8));
                    assert(successors(Walk::Forward, w0).contains(8));
                    assert(w1.contains(8));
                    assert(step(Walk::Forward, 8, 9));
                    assert(successors(Walk::Forward, w1).contains(9));
                    assert(within(Walk::Forward, a, 2).contains(b));
                } else {
                    assert(ep[0] == (1u32, 2u32));
                    assert(ep[1] == (1u32, 5u32));
                    assert(ep[2] == (2u32, 3u32));
                    assert(ep[3] == (2u32, 6u32));
                    assert(ep[4] == (3u32, 4u32));
                    assert(ep[5] == (5u32, 6u32));
                    assert(ep[9] == (1u32, 3u32));
                    assert(ep[10] == (1u32, 4u32));
                    assert(ep[11] == (1u32, 6u32));
                    assert(ep[12] == (2u32, 4u32));
                    assert(ep[13] == (5u32, 3u32));
                    assert(ep[14] == (6u32, 4u32));
                    assert(false);
                }
            }
        }
    }
}

/// The blocks of [`expected_sccs`] are the fixture's strongly connected
/// components: every node of 1 to 10 lies in exactly the block
/// `scc_block(n)`, and two nodes share a block exactly when each reaches
/// the other along edges.
pub proof fn law_expected_sccs_are_the_components(a: u32, b: u32)
    requires
        1 <= a <= FIXTURE_NODES,
        1 <= b <= FIXTURE_NODES,
    ensures
        0 <= scc_block(a) < expected_blocks().len(),
        expected_blocks()[scc_block(a)].contains(a),
        forall|i: int| 0 <= i < expected_blocks().len() && #[trigger] expected_blocks()[i].contains(a)
            ==> i == scc_block(a),
        (scc_block(a) == scc_block(b)) <==> (reaches(a, b) && reaches(b, a)),
{
    lemma_reaches_closure(a, b);
    lemma_reaches_closure(b, a);
    let blk = expected_blocks()[scc_block(a)];
    assert(blk[if a == 9 {
        1int
    } else {
        0int
    }] == a);
    assert forall|i: int| 0 <= i < expected_blocks().len() && #[trigger] expected_blocks()[i].contains(a)
        implies i == scc_block(a) by {
        let j = choose|j: int| 0 <= j < expected_blocks()[i].len() && expected_blocks()[i][j] == a;
    }
}

} // verus!
