//! No node of the graph lies in two kernels of a partition.
use vstd::prelude::*;
use crate::fusion::{
    add_kernel, children_of, leaf_collect, partition_spec, region, region_children, walk, walk_children,
    lemma_unvisited_update, DagNode, KView, KernelKind, NodeKind, PState, arithmetic_kind, unvisited,
};

verus! {

/// Whether every mark of `v` is also a mark of `w`.
pub open spec fn marks_kept(v: Seq<bool>, w: Seq<bool>) -> bool {
    v.len() == w.len() && forall|k: int| 0 <= k < v.len() && v[k] ==> w[k]
}

/// Whether node `e` is a node of the graph that was unmarked in `v` and is
/// marked in `w`.
pub open spec fn fresh(e: u32, v: Seq<bool>, w: Seq<bool>) -> bool {
    (e as int) < v.len() && !v[e as int] && w[e as int]
}

/// Whether `s` starts with `p`.
pub open spec fn extends(s: Seq<u32>, p: Seq<u32>) -> bool {
    s.len() >= p.len() && forall|i: int| 0 <= i < p.len() ==> s[i] == p[i]
}

/// Whether the ids of `s` from `from` on are fresh and all different.
pub open spec fn new_ids(s: Seq<u32>, from: int, v: Seq<bool>, w: Seq<bool>) -> bool {
    &&& forall|i: int| from <= i < s.len() ==> fresh(#[trigger] s[i], v, w)
    &&& forall|i: int, j: int| from <= i < j < s.len() ==> #[trigger] s[i] != #[trigger] s[j]
}

/// Whether `ks` starts with the kernels `p`.
pub open spec fn kextends(ks: Seq<KView>, p: Seq<KView>) -> bool {
    ks.len() >= p.len() && forall|k: int| 0 <= k < p.len() ==> ks[k] == p[k]
}

/// Whether the nodes of the kernels of `ks` from `from` on are fresh.
pub open spec fn kfresh(ks: Seq<KView>, from: int, v: Seq<bool>, w: Seq<bool>) -> bool {
    forall|k: int, p: int| from <= k < ks.len() && 0 <= p < ks[k].nodes.len() ==> fresh(#[trigger] ks[k].nodes[p], v, w)
}

/// Whether no node lies twice among the kernels of `ks` from `from` on,
/// whether in one kernel or in two.
pub open spec fn kdistinct(ks: Seq<KView>, from: int) -> bool {
    forall|k1: int, p1: int, k2: int, p2: int|
        from <= k1 < ks.len() && from <= k2 < ks.len() && 0 <= p1 < ks[k1].nodes.len() && 0 <= p2 < ks[k2].nodes.len()
            && (k1 != k2 || p1 != p2) ==> #[trigger] ks[k1].nodes[p1] != #[trigger] ks[k2].nodes[p2]
}

/// Two steps that each add fresh, different ids add fresh, different ids.
proof fn lemma_ids_combine(s0: Seq<u32>, s1: Seq<u32>, s2: Seq<u32>, v0: Seq<bool>, v1: Seq<bool>, v2: Seq<bool>)
    requires
        marks_kept(v0, v1),
        marks_kept(v1, v2),
        extends(s1, s0),
        extends(s2, s1),
        new_ids(s1, s0.len() as int, v0, v1),
        new_ids(s2, s1.len() as int, v1, v2),
    ensures
        extends(s2, s0),
        new_ids(s2, s0.len() as int, v0, v2),
{
    assert forall|i: int| s0.len() <= i < s2.len() implies fresh(#[trigger] s2[i], v0, v2) by {
        if i < s1.len() {
            assert(s2[i] == s1[i]);
            assert(fresh(s1[i], v0, v1));
        } else {
            assert(fresh(s2[i], v1, v2));
        }
    }
    assert forall|i: int, j: int| s0.len() <= i < j < s2.len() implies #[trigger] s2[i] != #[trigger] s2[j] by {
        if j < s1.len() {
            assert(s2[i] == s1[i] && s2[j] == s1[j]);
            assert(s1[i] != s1[j]);
        } else if i < s1.len() {
            assert(s2[i] == s1[i]);
            assert(fresh(s1[i], v0, v1));
            assert(fresh(s2[j], v1, v2));
        } else {
        }
    }
}

/// Two steps that each add kernels of fresh, different nodes add kernels of
/// fresh, different nodes.
proof fn lemma_kernels_combine(
    k0: Seq<KView>,
    k1: Seq<KView>,
    k2: Seq<KView>,
    v0: Seq<bool>,
    v1: Seq<bool>,
    v2: Seq<bool>,
)
    requires
        marks_kept(v0, v1),
        marks_kept(v1, v2),
        kextends(k1, k0),
        kextends(k2, k1),
        kfresh(k1, k0.len() as int, v0, v1),
        kdistinct(k1, k0.len() as int),
        kfresh(k2, k1.len() as int, v1, v2),
        kdistinct(k2, k1.len() as int),
    ensures
        kextends(k2, k0),
        kfresh(k2, k0.len() as int, v0, v2),
        kdistinct(k2, k0.len() as int),
{
    assert forall|k: int, p: int| k0.len() <= k < k2.len() && 0 <= p < k2[k].nodes.len()
        implies fresh(#[trigger] k2[k].nodes[p], v0, v2) by {
        if k < k1.len() {
            assert(k2[k] == k1[k]);
            assert(fresh(k1[k].nodes[p], v0, v1));
        } else {
            assert(fresh(k2[k].nodes[p], v1, v2));
        }
    }
    assert forall|a: int, p: int, b: int, q: int|
        k0.len() <= a < k2.len() && k0.len() <= b < k2.len() && 0 <= p < k2[a].nodes.len() && 0 <= q < k2[b].nodes.len()
            && (a != b || p != q) implies #[trigger] k2[a].nodes[p] != #[trigger] k2[b].nodes[q] by {
        if a < k1.len() && b < k1.len() {
            assert(k2[a] == k1[a] && k2[b] == k1[b]);
            assert(k1[a].nodes[p] != k1[b].nodes[q]);
        } else if a < k1.len() {
            assert(k2[a] == k1[a]);
            assert(fresh(k1[a].nodes[p], v0, v1));
            assert(fresh(k2[b].nodes[q], v1, v2));
        } else if b < k1.len() {
            assert(k2[b] == k1[b]);
            assert(fresh(k1[b].nodes[q], v0, v1));
            assert(fresh(k2[a].nodes[p], v1, v2));
        } else {
            assert(k2[a].nodes[p] != k2[b].nodes[q]);
        }
    }
}

/// The region walk adds fresh, different nodes to its list.
proof fn lemma_region_fresh(nodes: Seq<DagNode>, id: u32, v: Seq<bool>, acc: Seq<u32>, bnd: Seq<u32>)
    requires
        v.len() == nodes.len(),
    ensures
        marks_kept(v, region(nodes, id, v, acc, bnd).0),
        extends(region(nodes, id, v, acc, bnd).1, acc),
        new_ids(region(nodes, id, v, acc, bnd).1, acc.len() as int, v, region(nodes, id, v, acc, bnd).0),
    decreases unvisited(v) as int, 0int, 0int,
{
    let i = id as int;
    if i >= nodes.len() || v[i] {
    } else if !arithmetic_kind(nodes[i].kind) {
    } else {
        let v1 = v.update(i, true);
        lemma_unvisited_update(v, i);
        let b = unvisited(v1);
        let rc = region_children(nodes, children_of(nodes, i), 0, v1, acc, bnd, b);
        lemma_region_children_fresh(nodes, children_of(nodes, i), 0, v1, acc, bnd, b);
        let r = region(nodes, id, v, acc, bnd);
        assert(r == (rc.0, rc.1.push(id), rc.2));
        let s = rc.1.push(id);
        assert(v1[i]);
        assert forall|k: int| 0 <= k < v.len() && v[k] implies rc.0[k] by {
            assert(v1[k]);
        }
        assert forall|x: int| acc.len() <= x < s.len() implies fresh(#[trigger] s[x], v, rc.0) by {
            if x < rc.1.len() {
                assert(s[x] == rc.1[x]);
                assert(fresh(rc.1[x], v1, rc.0));
            } else {
                assert(s[x] == id);
            }
        }
        assert forall|x: int, y: int| acc.len() <= x < y < s.len() implies #[trigger] s[x] != #[trigger] s[y] by {
            assert(s[x] == rc.1[x]);
            if y < rc.1.len() {
                assert(s[y] == rc.1[y]);
            } else {
                assert(fresh(rc.1[x], v1, rc.0));
                assert(s[y] == id);
            }
        }
        assert forall|x: int| 0 <= x < acc.len() implies s[x] == acc[x] by {
            assert(s[x] == rc.1[x]);
        }
    }
}

proof fn lemma_region_children_fresh(
    nodes: Seq<DagNode>,
    ch: Seq<u32>,
    j: int,
    v: Seq<bool>,
    acc: Seq<u32>,
    bnd: Seq<u32>,
    bound: nat,
)
    requires
        v.len() == nodes.len(),
    ensures
        marks_kept(v, region_children(nodes, ch, j, v, acc, bnd, bound).0),
        extends(region_children(nodes, ch, j, v, acc, bnd, bound).1, acc),
        new_ids(region_children(nodes, ch, j, v, acc, bnd, bound).1, acc.len() as int, v,
            region_children(nodes, ch, j, v, acc, bnd, bound).0),
    decreases bound as int, 1int, ch.len() - j,
{
    if j < 0 || j >= ch.len() || unvisited(v) > bound {
    } else {
        lemma_region_fresh(nodes, ch[j], v, acc, bnd);
        let r = region(nodes, ch[j], v, acc, bnd);
        lemma_region_children_fresh(nodes, ch, j + 1, r.0, r.1, r.2, bound);
        let rb = region_children(nodes, ch, j + 1, r.0, r.1, r.2, bound);
        lemma_ids_combine(acc, r.1, rb.1, v, r.0, rb.0);
    }
}

/// Collecting leaf children adds fresh, different nodes to the list.
proof fn lemma_leaf_collect_fresh(nodes: Seq<DagNode>, ch: Seq<u32>, i: int, visited: Seq<bool>, acc: Seq<u32>)
    ensures
        marks_kept(visited, leaf_collect(nodes, ch, i, visited, acc).0),
        extends(leaf_collect(nodes, ch, i, visited, acc).1, acc),
        new_ids(leaf_collect(nodes, ch, i, visited, acc).1, acc.len() as int, visited,
            leaf_collect(nodes, ch, i, visited, acc).0),
    decreases ch.len() - i,
{
    if i < 0 || i >= ch.len() {
    } else {
        let c = ch[i] as int;
        if c < nodes.len() && c < visited.len() && !visited[c]
            && (nodes[c].kind == NodeKind::Constant || nodes[c].kind == NodeKind::Variable) {
            let vu = visited.update(c, true);
            let a1 = acc.push(ch[i]);
            lemma_leaf_collect_fresh(nodes, ch, i + 1, vu, a1);
            let r = leaf_collect(nodes, ch, i + 1, vu, a1);
            assert(a1[acc.len() as int] == ch[i]);
            assert(fresh(ch[i], visited, vu));
            lemma_ids_combine(acc, a1, r.1, visited, vu, r.0);
        } else {
            lemma_leaf_collect_fresh(nodes, ch, i + 1, visited, acc);
        }
    }
}

/// A kernel of fresh, different nodes added to the state.
proof fn lemma_add_kernel_fresh(st: PState, root: u32, kind: KernelKind, ns: Seq<u32>, v2: Seq<bool>)
    requires
        marks_kept(st.visited, v2),
        new_ids(ns, 0, st.visited, v2),
    ensures
        marks_kept(st.visited, add_kernel(st, root, kind, ns, v2).visited),
        kextends(add_kernel(st, root, kind, ns, v2).kernels, st.kernels),
        kfresh(add_kernel(st, root, kind, ns, v2).kernels, st.kernels.len() as int, st.visited, v2),
        kdistinct(add_kernel(st, root, kind, ns, v2).kernels, st.kernels.len() as int),
{
    let ks = add_kernel(st, root, kind, ns, v2).kernels;
    let n = st.kernels.len() as int;
    assert(ks[n].nodes == ns);
    assert forall|k: int| 0 <= k < st.kernels.len() implies ks[k] == st.kernels[k] by {}
    assert forall|k: int, p: int| n <= k < ks.len() && 0 <= p < ks[k].nodes.len()
        implies fresh(#[trigger] ks[k].nodes[p], st.visited, v2) by {
        assert(k == n);
        assert(fresh(ns[p], st.visited, v2));
    }
    assert forall|a: int, p: int, b: int, q: int|
        n <= a < ks.len() && n <= b < ks.len() && 0 <= p < ks[a].nodes.len() && 0 <= q < ks[b].nodes.len()
            && (a != b || p != q) implies #[trigger] ks[a].nodes[p] != #[trigger] ks[b].nodes[q] by {
        assert(a == n && b == n);
        if p < q {
            assert(ns[p] != ns[q]);
        } else {
            assert(ns[q] != ns[p]);
        }
    }
}

/// A single node unmarked in `v` and marked in `w` is a list of fresh,
/// different ids.
proof fn lemma_one_fresh(id: u32, v: Seq<bool>, w: Seq<bool>)
    requires
        fresh(id, v, w),
    ensures
        new_ids(seq![id], 0, v, w),
        extends(seq![id], Seq::<u32>::empty()),
{
}

/// The partition walk adds kernels of fresh, different nodes.
proof fn lemma_walk_fresh(nodes: Seq<DagNode>, id: u32, st: PState)
    requires
        st.visited.len() == nodes.len(),
    ensures
        marks_kept(st.visited, walk(nodes, id, st).visited),
        kextends(walk(nodes, id, st).kernels, st.kernels),
        kfresh(walk(nodes, id, st).kernels, st.kernels.len() as int, st.visited, walk(nodes, id, st).visited),
        kdistinct(walk(nodes, id, st).kernels, st.kernels.len() as int),
    decreases unvisited(st.visited) as int, 0int, 0int,
{
    let i = id as int;
    if i >= nodes.len() || st.visited[i] {
    } else {
        let v1 = st.visited.update(i, true);
        lemma_unvisited_update(st.visited, i);
        let bound = unvisited(v1);
        assert(marks_kept(st.visited, v1));
        assert(fresh(id, st.visited, v1));
        lemma_one_fresh(id, st.visited, v1);
        let w = walk(nodes, id, st);
        match nodes[i].kind {
            NodeKind::ControlFlow => {
                let st1 = add_kernel(st, id, KernelKind::ControlFlow, seq![id], v1);
                lemma_add_kernel_fresh(st, id, KernelKind::ControlFlow, seq![id], v1);
                lemma_walk_children_fresh(nodes, children_of(nodes, i), 0, st1, bound);
                assert(w == walk_children(nodes, children_of(nodes, i), 0, st1, bound));
                lemma_kernels_combine(st.kernels, st1.kernels, w.kernels, st.visited, v1, w.visited);
            },
            NodeKind::Function => {
                let lc = leaf_collect(nodes, children_of(nodes, i), 0, v1, seq![id]);
                lemma_leaf_collect_fresh(nodes, children_of(nodes, i), 0, v1, seq![id]);
                lemma_ids_combine(Seq::<u32>::empty(), seq![id], lc.1, st.visited, v1, lc.0);
                let st1 = add_kernel(st, id, KernelKind::Function, lc.1, lc.0);
                lemma_add_kernel_fresh(st, id, KernelKind::Function, lc.1, lc.0);
                lemma_walk_children_fresh(nodes, children_of(nodes, i), 0, st1, bound);
                assert(w == walk_children(nodes, children_of(nodes, i), 0, st1, bound));
                lemma_kernels_combine(st.kernels, st1.kernels, w.kernels, st.visited, lc.0, w.visited);
            },
            NodeKind::Operator => {
                let r = region(nodes, id, st.visited, Seq::empty(), Seq::empty());
                lemma_region_fresh(nodes, id, st.visited, Seq::empty(), Seq::empty());
                let st1 = add_kernel(st, id, KernelKind::PureArithmetic, r.1, r.0);
                lemma_add_kernel_fresh(st, id, KernelKind::PureArithmetic, r.1, r.0);
                lemma_walk_children_fresh(nodes, r.2, 0, st1, bound);
                assert(w == walk_children(nodes, r.2, 0, st1, bound));
                lemma_kernels_combine(st.kernels, st1.kernels, w.kernels, st.visited, r.0, w.visited);
            },
            _ => {
                lemma_add_kernel_fresh(st, id, KernelKind::Leaf, seq![id], v1);
            },
        }
    }
}

proof fn lemma_walk_children_fresh(nodes: Seq<DagNode>, ch: Seq<u32>, i: int, st: PState, bound: nat)
    requires
        st.visited.len() == nodes.len(),
    ensures
        marks_kept(st.visited, walk_children(nodes, ch, i, st, bound).visited),
        kextends(walk_children(nodes, ch, i, st, bound).kernels, st.kernels),
        kfresh(walk_children(nodes, ch, i, st, bound).kernels, st.kernels.len() as int, st.visited,
            walk_children(nodes, ch, i, st, bound).visited),
        kdistinct(walk_children(nodes, ch, i, st, bound).kernels, st.kernels.len() as int),
    decreases bound as int, 1int, ch.len() - i,
{
    if i < 0 || i >= ch.len() || unvisited(st.visited) > bound {
    } else {
        lemma_walk_fresh(nodes, ch[i], st);
        let w = walk(nodes, ch[i], st);
        lemma_walk_children_fresh(nodes, ch, i + 1, w, bound);
        let r = walk_children(nodes, ch, i + 1, w, bound);
        lemma_kernels_combine(st.kernels, w.kernels, r.kernels, st.visited, w.visited, r.visited);
    }
}

/// No node of the graph lies in two kernels of a partition, nor twice in
/// one kernel, and every node of a kernel is a node of the graph.
pub proof fn lemma_partition_disjoint(nodes: Seq<DagNode>, root: u32)
    ensures
        kdistinct(partition_spec(nodes, root), 0),
        forall|k: int, p: int| 0 <= k < partition_spec(nodes, root).len()
            && 0 <= p < partition_spec(nodes, root)[k].nodes.len()
            ==> (#[trigger] partition_spec(nodes, root)[k].nodes[p] as int) < nodes.len(),
{
    let st = PState { visited: Seq::new(nodes.len(), |k: int| false), kernels: Seq::empty() };
    lemma_walk_fresh(nodes, root, st);
    let ks = partition_spec(nodes, root);
    assert(ks == walk(nodes, root, st).kernels);
    assert forall|k: int, p: int| 0 <= k < ks.len() && 0 <= p < ks[k].nodes.len()
        implies (#[trigger] ks[k].nodes[p] as int) < nodes.len() by {
        assert(fresh(ks[k].nodes[p], st.visited, walk(nodes, root, st).visited));
    }
}

} // verus!
