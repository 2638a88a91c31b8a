//! Kernel-fusion settings of a function and the shape of a fusion plan.
//!
//! Fused regions refer to nodes of the expression graph by their numeric
//! ids.
use vstd::prelude::*;
use crate::ast::{Attribute, FunctionBody};
use crate::text::str_eq;

verus! {

/// Per-function fusion hints from attributes and body shape.
#[derive(Debug, Clone, Copy, PartialEq, Eq, Structural)]
pub struct FusionConfig {
    /// `:=` body: eligible for full-expression kernel grouping.
    pub expression_body: bool,
    /// `#[jit_kernel]`: prefer batch / kernel compilation when possible.
    pub jit_kernel: bool,
    /// `#[simplify_fusion]`: aggressive associative flattening.
    pub simplify_fusion: bool,
}

impl Default for FusionConfig {
    fn default() -> (r: Self)
        ensures
            !r.expression_body,
            !r.jit_kernel,
            !r.simplify_fusion,
    {
        FusionConfig { expression_body: false, jit_kernel: false, simplify_fusion: false }
    }
}

/// Whether some attribute is named `name`.
pub open spec fn has_attr_spec(attributes: Seq<Attribute>, name: Seq<char>) -> bool {
    exists|i: int| 0 <= i < attributes.len() && (#[trigger] attributes[i]).name@ == name
}

/// Whether some attribute is named `name`.
pub fn has_attr(attributes: &Vec<Attribute>, name: &str) -> (r: bool)
    ensures
        r == has_attr_spec(attributes@, name@),
{
    let mut i: usize = 0;
    while i < attributes.len()
        invariant
            i <= attributes@.len(),
            forall|k: int| 0 <= k < i ==> (#[trigger] attributes@[k]).name@ != name@,
        decreases attributes@.len() - i,
    {
        if str_eq(attributes[i].name.as_str(), name) {
            return true;
        }
        i = i + 1;
    }
    false
}

impl FusionConfig {
    /// Fusion settings from a function's attributes and body.
    pub fn from_function(attributes: &Vec<Attribute>, body: &FunctionBody) -> (r: Self)
        ensures
            r.expression_body == (body is Expression),
            r.jit_kernel == has_attr_spec(attributes@, "jit_kernel"@),
            r.simplify_fusion == has_attr_spec(attributes@, "simplify_fusion"@),
    {
        let expression_body = match body {
            FunctionBody::Expression(_) => true,
            FunctionBody::Block(_) => false,
        };
        FusionConfig {
            expression_body,
            jit_kernel: has_attr(attributes, "jit_kernel"),
            simplify_fusion: has_attr(attributes, "simplify_fusion"),
        }
    }

    /// Whether associative chains are flattened before partitioning.
    pub fn flatten_chains(&self) -> (r: bool)
        ensures
            r == (self.expression_body || self.simplify_fusion),
    {
        self.expression_body || self.simplify_fusion
    }
}

/// Kind of fused region in the expression graph.
#[derive(Debug, Clone, Copy, PartialEq, Eq, Structural)]
pub enum KernelKind {
    /// Maximal subtree of operators with constant/variable leaves.
    PureArithmetic,
    /// Custom or builtin function application.
    Function,
    /// `if_else`, `select`, or `for_loop`.
    ControlFlow,
    /// Standalone constant or variable.
    Leaf,
}

/// One fused kernel: a contiguous region of the graph rooted at `root`.
#[derive(Debug, Clone)]
pub struct FusionKernel {
    pub index: usize,
    pub root: u32,
    pub kind: KernelKind,
    /// The graph nodes of this kernel.
    pub nodes: Vec<u32>,
}

/// Partition of a function body graph into kernels.
#[derive(Debug, Clone)]
pub struct FusionPlan {
    pub kernels: Vec<FusionKernel>,
    pub config: FusionConfig,
}

/// The number of pure-arithmetic kernels.
pub open spec fn arithmetic_count(ks: Seq<FusionKernel>) -> nat
    decreases ks.len(),
{
    if ks.len() == 0 {
        0
    } else {
        arithmetic_count(ks.drop_last()) + if ks.last().kind == KernelKind::PureArithmetic { 1nat } else { 0nat }
    }
}

/// The number of nodes over all kernels.
pub open spec fn nodes_total(ks: Seq<FusionKernel>) -> nat
    decreases ks.len(),
{
    if ks.len() == 0 {
        0
    } else {
        nodes_total(ks.drop_last()) + ks.last().nodes@.len()
    }
}

proof fn lemma_arithmetic_count_bound(ks: Seq<FusionKernel>)
    ensures
        arithmetic_count(ks) <= ks.len(),
    decreases ks.len(),
{
    if ks.len() > 0 {
        lemma_arithmetic_count_bound(ks.drop_last());
    }
}

proof fn lemma_nodes_total_monotone(ks: Seq<FusionKernel>, i: int)
    requires
        0 <= i <= ks.len(),
    ensures
        nodes_total(ks.subrange(0, i)) <= nodes_total(ks),
    decreases ks.len() - i,
{
    if i < ks.len() {
        lemma_nodes_total_monotone(ks, i + 1);
        assert(ks.subrange(0, i + 1).drop_last() =~= ks.subrange(0, i));
    } else {
        assert(ks.subrange(0, i) =~= ks);
    }
}

impl FusionPlan {
    /// The number of pure-arithmetic kernels.
    pub fn arithmetic_kernel_count(&self) -> (r: usize)
        ensures
            r == arithmetic_count(self.kernels@),
    {
        let mut n: usize = 0;
        let mut i: usize = 0;
        while i < self.kernels.len()
            invariant
                i <= self.kernels@.len(),
                n == arithmetic_count(self.kernels@.subrange(0, i as int)),
            decreases self.kernels@.len() - i,
        {
            proof {
                let pre = self.kernels@.subrange(0, i + 1);
                assert(pre.drop_last() =~= self.kernels@.subrange(0, i as int));
                lemma_arithmetic_count_bound(self.kernels@.subrange(0, i as int));
            }
            if self.kernels[i].kind == KernelKind::PureArithmetic {
                n = n + 1;
            }
            i = i + 1;
        }
        proof {
            assert(self.kernels@.subrange(0, self.kernels@.len() as int) =~= self.kernels@);
        }
        n
    }

    /// The number of graph nodes over all kernels.
    pub fn total_nodes(&self) -> (r: usize)
        requires
            nodes_total(self.kernels@) <= usize::MAX,
        ensures
            r == nodes_total(self.kernels@),
    {
        let mut n: usize = 0;
        let mut i: usize = 0;
        while i < self.kernels.len()
            invariant
                i <= self.kernels@.len(),
                nodes_total(self.kernels@) <= usize::MAX,
                n == nodes_total(self.kernels@.subrange(0, i as int)),
            decreases self.kernels@.len() - i,
        {
            proof {
                let pre = self.kernels@.subrange(0, i + 1);
                assert(pre.drop_last() =~= self.kernels@.subrange(0, i as int));
                lemma_nodes_total_monotone(self.kernels@, i + 1);
            }
            n = n + self.kernels[i].nodes.len();
            i = i + 1;
        }
        proof {
            assert(self.kernels@.subrange(0, self.kernels@.len() as int) =~= self.kernels@);
        }
        n
    }
}

/// Statistics from the e-graph saturation pass.
#[derive(Debug, Clone, Copy)]
pub struct EgraphStats {
    pub merges_performed: usize,
    pub rounds_completed: usize,
    pub converged: bool,
}

impl Default for EgraphStats {
    fn default() -> (r: Self)
        ensures
            r.merges_performed == 0,
            r.rounds_completed == 0,
            !r.converged,
    {
        EgraphStats { merges_performed: 0, rounds_completed: 0, converged: false }
    }
}

/// The kind of a graph node, as far as fusion is concerned.
#[derive(Debug, Clone, Copy, PartialEq, Eq, Structural)]
pub enum NodeKind {
    Constant,
    Variable,
    /// An arithmetic operator.
    Operator,
    /// A call of a builtin or custom function.
    Function,
    /// `if_else`, `select` or `for_loop`.
    ControlFlow,
}

/// A node of an expression graph: its kind and the ids of its children.
/// Ids index the graph's node list.
#[derive(Debug, Clone)]
pub struct DagNode {
    pub kind: NodeKind,
    pub children: Vec<u32>,
}

/// Model of a kernel.
#[verifier::ext_equal]
pub struct KView {
    pub index: int,
    pub root: u32,
    pub kind: KernelKind,
    pub nodes: Seq<u32>,
}

/// Model of the partition walk's state: the nodes visited so far and the
/// kernels found.
pub struct PState {
    pub visited: Seq<bool>,
    pub kernels: Seq<KView>,
}

/// The model of a list of kernels.
pub open spec fn kernels_view(ks: Seq<FusionKernel>) -> Seq<KView> {
    ks.map_values(|k: FusionKernel| KView { index: k.index as int, root: k.root, kind: k.kind, nodes: k.nodes@ })
}

/// The number of unvisited nodes.
pub open spec fn unvisited(v: Seq<bool>) -> nat
    decreases v.len(),
{
    if v.len() == 0 {
        0
    } else {
        unvisited(v.drop_last()) + if v.last() { 0nat } else { 1nat }
    }
}

/// The children of a node, as ids.
pub open spec fn children_of(nodes: Seq<DagNode>, id: int) -> Seq<u32> {
    nodes[id].children@
}

/// Whether a node is an operator, a constant or a variable.
pub open spec fn arithmetic_kind(k: NodeKind) -> bool {
    k == NodeKind::Operator || k == NodeKind::Constant || k == NodeKind::Variable
}

pub proof fn lemma_unvisited_update(v: Seq<bool>, i: int)
    requires
        0 <= i < v.len(),
        !v[i],
    ensures
        unvisited(v.update(i, true)) + 1 == unvisited(v),
    decreases v.len(),
{
    if i < v.len() - 1 {
        lemma_unvisited_update(v.drop_last(), i);
        assert(v.update(i, true).drop_last() =~= v.drop_last().update(i, true));
    } else {
        assert(v.update(i, true).drop_last() =~= v.drop_last());
    }
}

pub proof fn lemma_unvisited_mono(a: Seq<bool>, b: Seq<bool>)
    requires
        a.len() == b.len(),
        forall|k: int| 0 <= k < a.len() && a[k] ==> b[k],
    ensures
        unvisited(b) <= unvisited(a),
    decreases a.len(),
{
    if a.len() > 0 {
        lemma_unvisited_mono(a.drop_last(), b.drop_last());
    }
}

/// The post-order walk of the arithmetic region from node `id`: each
/// unvisited operator, constant or variable is marked visited and added to
/// `acc` after the nodes below it; a node of another kind is added to the
/// boundary `bnd` instead, to be partitioned on its own.  Visited nodes and
/// ids outside the graph are skipped.  Returns the visited marks, the
/// region's nodes and the boundary.
pub open spec fn region(nodes: Seq<DagNode>, id: u32, v: Seq<bool>, acc: Seq<u32>, bnd: Seq<u32>) -> (Seq<bool>, Seq<u32>, Seq<u32>)
    decreases unvisited(v) as int, 0int, 0int,
{
    let i = id as int;
    if i >= nodes.len() || v.len() != nodes.len() || v[i] {
        (v, acc, bnd)
    } else if !arithmetic_kind(nodes[i].kind) {
        (v, acc, bnd.push(id))
    } else {
        let v1 = v.update(i, true);
        proof {
            lemma_unvisited_update(v, i);
        }
        let r = region_children(nodes, children_of(nodes, i), 0, v1, acc, bnd, unvisited(v1));
        (r.0, r.1.push(id), r.2)
    }
}

/// The region walks from the children `ch[j..]` in order, while no more
/// than `bound` nodes are unvisited.
pub open spec fn region_children(nodes: Seq<DagNode>, ch: Seq<u32>, j: int, v: Seq<bool>, acc: Seq<u32>, bnd: Seq<u32>, bound: nat) -> (Seq<bool>, Seq<u32>, Seq<u32>)
    decreases bound as int, 1int, ch.len() - j,
{
    if j < 0 || j >= ch.len() || unvisited(v) > bound {
        (v, acc, bnd)
    } else {
        let r = region(nodes, ch[j], v, acc, bnd);
        region_children(nodes, ch, j + 1, r.0, r.1, r.2, bound)
    }
}

/// The leaf children among `ch[i..]` not yet visited, marked visited and
/// appended to `acc`.
pub open spec fn leaf_collect(nodes: Seq<DagNode>, ch: Seq<u32>, i: int, visited: Seq<bool>, acc: Seq<u32>) -> (Seq<bool>, Seq<u32>)
    decreases ch.len() - i,
{
    if i < 0 || i >= ch.len() {
        (visited, acc)
    } else {
        let c = ch[i] as int;
        if c < nodes.len() && c < visited.len() && !visited[c]
            && (nodes[c].kind == NodeKind::Constant || nodes[c].kind == NodeKind::Variable) {
            leaf_collect(nodes, ch, i + 1, visited.update(c, true), acc.push(ch[i]))
        } else {
            leaf_collect(nodes, ch, i + 1, visited, acc)
        }
    }
}

/// A new kernel appended to the state's kernels.
pub open spec fn add_kernel(st: PState, root: u32, kind: KernelKind, nodes: Seq<u32>, visited: Seq<bool>) -> PState {
    PState {
        visited,
        kernels: st.kernels.push(KView { index: st.kernels.len() as int, root, kind, nodes }),
    }
}

/// The partition walk from node `id`: a control-flow node is a kernel of
/// its own and its children are walked; a function call is a kernel with
/// its unvisited leaf children, then its children are walked; an operator
/// heads the kernel of its arithmetic region (in post-order, each node
/// after the nodes below it), then the calls and control flow at the
/// region's boundary are walked; an unvisited constant or variable is a
/// leaf kernel.  Visited nodes and ids outside the graph are skipped, so no
/// node lies in two kernels.
pub open spec fn walk(nodes: Seq<DagNode>, id: u32, st: PState) -> PState
    decreases unvisited(st.visited) as int, 0int, 0int,
{
    let i = id as int;
    if i >= nodes.len() || st.visited.len() != nodes.len() || st.visited[i] {
        st
    } else {
        let v1 = st.visited.update(i, true);
        proof {
            lemma_unvisited_update(st.visited, i);
        }
        let bound = unvisited(v1);
        match nodes[i].kind {
            NodeKind::ControlFlow => walk_children(nodes, children_of(nodes, i), 0,
                add_kernel(st, id, KernelKind::ControlFlow, seq![id], v1), bound),
            NodeKind::Function => {
                let lc = leaf_collect(nodes, children_of(nodes, i), 0, v1, seq![id]);
                walk_children(nodes, children_of(nodes, i), 0, add_kernel(st, id, KernelKind::Function, lc.1, lc.0), bound)
            },
            NodeKind::Operator => {
                let r = region(nodes, id, st.visited, Seq::empty(), Seq::empty());
                walk_children(nodes, r.2, 0, add_kernel(st, id, KernelKind::PureArithmetic, r.1, r.0), bound)
            },
            _ => add_kernel(st, id, KernelKind::Leaf, seq![id], v1),
        }
    }
}

/// The walks from the children `ch[i..]` in order, while no more than
/// `bound` nodes are unvisited.
pub open spec fn walk_children(nodes: Seq<DagNode>, ch: Seq<u32>, i: int, st: PState, bound: nat) -> PState
    decreases bound as int, 1int, ch.len() - i,
{
    if i < 0 || i >= ch.len() || unvisited(st.visited) > bound {
        st
    } else {
        walk_children(nodes, ch, i + 1, walk(nodes, ch[i], st), bound)
    }
}

/// The kernels of the graph `nodes` below `root`, in the order the walk
/// finds them.
pub open spec fn partition_spec(nodes: Seq<DagNode>, root: u32) -> Seq<KView> {
    walk(nodes, root, PState { visited: Seq::new(nodes.len(), |k: int| false), kernels: Seq::empty() }).kernels
}

/// The region walk keeps every mark and, from an unvisited arithmetic
/// node, marks that node.
proof fn lemma_region_mono(nodes: Seq<DagNode>, id: u32, v: Seq<bool>, acc: Seq<u32>, bnd: Seq<u32>)
    requires
        v.len() == nodes.len(),
    ensures
        region(nodes, id, v, acc, bnd).0.len() == v.len(),
        forall|k: int| 0 <= k < v.len() && v[k] ==> region(nodes, id, v, acc, bnd).0[k],
        (id as int) < nodes.len() && !v[id as int] && arithmetic_kind(nodes[id as int].kind)
            ==> region(nodes, id, v, acc, bnd).0[id as int],
    decreases unvisited(v) as int, 0int, 0int,
{
    let i = id as int;
    if i >= nodes.len() || v[i] {
    } else if !arithmetic_kind(nodes[i].kind) {
    } else {
        let v1 = v.update(i, true);
        lemma_unvisited_update(v, i);
        lemma_region_children_mono(nodes, children_of(nodes, i), 0, v1, acc, bnd, unvisited(v1));
        let r = region_children(nodes, children_of(nodes, i), 0, v1, acc, bnd, unvisited(v1));
        assert(region(nodes, id, v, acc, bnd).0 == r.0);
        assert(v1[i]);
        assert forall|k: int| 0 <= k < v.len() && v[k] implies region(nodes, id, v, acc, bnd).0[k] by {
            assert(v1[k]);
        }
    }
}

proof fn lemma_region_children_mono(nodes: Seq<DagNode>, ch: Seq<u32>, j: int, v: Seq<bool>, acc: Seq<u32>, bnd: Seq<u32>, bound: nat)
    requires
        v.len() == nodes.len(),
    ensures
        region_children(nodes, ch, j, v, acc, bnd, bound).0.len() == v.len(),
        forall|k: int| 0 <= k < v.len() && v[k] ==> region_children(nodes, ch, j, v, acc, bnd, bound).0[k],
    decreases bound as int, 1int, ch.len() - j,
{
    if j < 0 || j >= ch.len() || unvisited(v) > bound {
    } else {
        lemma_region_mono(nodes, ch[j], v, acc, bnd);
        let r = region(nodes, ch[j], v, acc, bnd);
        lemma_region_children_mono(nodes, ch, j + 1, r.0, r.1, r.2, bound);
    }
}

fn all_false(n: usize) -> (r: Vec<bool>)
    ensures
        r@ == Seq::new(n as nat, |k: int| false),
{
    let mut v: Vec<bool> = Vec::new();
    let mut i: usize = 0;
    while i < n
        invariant
            i <= n,
            v@ == Seq::new(i as nat, |k: int| false),
        decreases n - i,
    {
        v.push(false);
        proof {
            assert(v@ =~= Seq::new((i + 1) as nat, |k: int| false));
        }
        i = i + 1;
    }
    v
}

/// The post-order walk of the arithmetic region from `id` (see [`region`]).
fn collect_region(nodes: &Vec<DagNode>, id: u32, visited: &mut Vec<bool>, acc: &mut Vec<u32>, bnd: &mut Vec<u32>)
    requires
        old(visited)@.len() == nodes@.len(),
    ensures
        (final(visited)@, final(acc)@, final(bnd)@) == region(nodes@, id, old(visited)@, old(acc)@, old(bnd)@),
        final(visited)@.len() == nodes@.len(),
        forall|k: int| 0 <= k < nodes@.len() && old(visited)@[k] ==> final(visited)@[k],
    decreases unvisited(old(visited)@) as int, 0int, 0int,
{
    let i = id as usize;
    if i >= nodes.len() || visited[i] {
        return;
    }
    let k = nodes[i].kind;
    if !(k == NodeKind::Operator || k == NodeKind::Constant || k == NodeKind::Variable) {
        bnd.push(id);
        return;
    }
    let ghost v0 = visited@;
    let ghost v1 = v0.update(i as int, true);
    proof {
        lemma_unvisited_update(v0, i as int);
    }
    let ghost bound = unvisited(v1);
    visited.set(i, true);
    let ch = &nodes[i].children;
    let ghost target = region_children(nodes@, ch@, 0, v1, acc@, bnd@, bound);
    let mut j: usize = 0;
    while j < ch.len()
        invariant
            j <= ch@.len(),
            ch@ == children_of(nodes@, i as int),
            visited@.len() == nodes@.len(),
            forall|k: int| 0 <= k < nodes@.len() && v0[k] ==> visited@[k],
            unvisited(visited@) <= bound,
            bound < unvisited(v0),
            v0 == old(visited)@,
            target == region_children(nodes@, ch@, j as int, visited@, acc@, bnd@, bound),
        decreases ch@.len() - j,
    {
        let ghost vb = visited@;
        collect_region(nodes, ch[j], visited, acc, bnd);
        proof {
            lemma_unvisited_mono(vb, visited@);
        }
        j = j + 1;
    }
    acc.push(id);
}

fn collect_leaves(nodes: &Vec<DagNode>, ch: &Vec<u32>, visited: &mut Vec<bool>, acc: &mut Vec<u32>)
    requires
        old(visited)@.len() == nodes@.len(),
    ensures
        (final(visited)@, final(acc)@) == leaf_collect(nodes@, ch@, 0, old(visited)@, old(acc)@),
        final(visited)@.len() == nodes@.len(),
        forall|k: int| 0 <= k < nodes@.len() && old(visited)@[k] ==> final(visited)@[k],
{
    let ghost whole = leaf_collect(nodes@, ch@, 0, visited@, acc@);
    let ghost v0 = visited@;
    let mut i: usize = 0;
    while i < ch.len()
        invariant
            i <= ch@.len(),
            visited@.len() == nodes@.len(),
            v0.len() == nodes@.len(),
            forall|k: int| 0 <= k < nodes@.len() && v0[k] ==> visited@[k],
            whole == leaf_collect(nodes@, ch@, i as int, visited@, acc@),
        decreases ch@.len() - i,
    {
        let c = ch[i] as usize;
        if c < nodes.len() && !visited[c] && (nodes[c].kind == NodeKind::Constant || nodes[c].kind == NodeKind::Variable) {
            visited.set(c, true);
            acc.push(ch[i]);
        }
        i = i + 1;
    }
}

fn push_kernel(kernels: &mut Vec<FusionKernel>, root: u32, kind: KernelKind, nodes: Vec<u32>)
    ensures
        kernels_view(final(kernels)@) == kernels_view(old(kernels)@).push(
            (KView { index: old(kernels)@.len() as int, root, kind, nodes: nodes@ })),
{
    let ghost before = kernels@;
    let ghost nv = nodes@;
    let index = kernels.len();
    kernels.push(FusionKernel { index, root, kind, nodes });
    proof {
        assert(kernels_view(kernels@) =~= kernels_view(before).push(KView { index: before.len() as int, root, kind, nodes: nv }));
    }
}

fn walk_graph(nodes: &Vec<DagNode>, id: u32, visited: &mut Vec<bool>, kernels: &mut Vec<FusionKernel>)
    requires
        old(visited)@.len() == nodes@.len(),
    ensures
        (PState { visited: final(visited)@, kernels: kernels_view(final(kernels)@) })
            == walk(nodes@, id, (PState { visited: old(visited)@, kernels: kernels_view(old(kernels)@) })),
        final(visited)@.len() == nodes@.len(),
        forall|k: int| 0 <= k < nodes@.len() && old(visited)@[k] ==> final(visited)@[k],
    decreases unvisited(old(visited)@) as int, 0int, 0int,
{
    let ghost st = PState { visited: visited@, kernels: kernels_view(kernels@) };
    let i = id as usize;
    if i >= nodes.len() || visited[i] {
        return;
    }
    let ghost v0 = visited@;
    let ghost v1 = v0.update(i as int, true);
    proof {
        lemma_unvisited_update(v0, i as int);
    }
    let ghost bound = unvisited(v1);
    match nodes[i].kind {
        NodeKind::ControlFlow | NodeKind::Function => {
            visited.set(i, true);
            let mut members: Vec<u32> = Vec::new();
            members.push(id);
            let is_call = nodes[i].kind == NodeKind::Function;
            if is_call {
                collect_leaves(nodes, &nodes[i].children, visited, &mut members);
            }
            let kind = if is_call { KernelKind::Function } else { KernelKind::ControlFlow };
            proof {
                assert(seq![id] =~= Seq::<u32>::empty().push(id));
            }
            push_kernel(kernels, id, kind, members);
            let ch = &nodes[i].children;
            let ghost target = walk(nodes@, id, st);
            proof {
                if !is_call {
                    assert(PState { visited: visited@, kernels: kernels_view(kernels@) }
                        =~= add_kernel(st, id, KernelKind::ControlFlow, seq![id], v1));
                } else {
                    let lc = leaf_collect(nodes@, children_of(nodes@, i as int), 0, v1, seq![id]);
                    assert(PState { visited: visited@, kernels: kernels_view(kernels@) }
                        =~= add_kernel(st, id, KernelKind::Function, lc.1, lc.0));
                }
                lemma_unvisited_mono(v1, visited@);
            }
            let mut j: usize = 0;
            while j < ch.len()
                invariant
                    j <= ch@.len(),
                    ch@ == children_of(nodes@, i as int),
                    visited@.len() == nodes@.len(),
                    forall|k: int| 0 <= k < nodes@.len() && v0[k] ==> visited@[k],
                    unvisited(visited@) <= bound,
                    bound < unvisited(v0),
                    v0 == old(visited)@,
                    target == walk_children(nodes@, ch@, j as int, (PState { visited: visited@, kernels: kernels_view(kernels@) }), bound),
                decreases ch@.len() - j,
            {
                let ghost vb = visited@;
                walk_graph(nodes, ch[j], visited, kernels);
                proof {
                    lemma_unvisited_mono(vb, visited@);
                }
                j = j + 1;
            }
        },
        NodeKind::Operator => {
            let mut members: Vec<u32> = Vec::new();
            let mut boundary: Vec<u32> = Vec::new();
            proof {
                assert(members@ =~= Seq::<u32>::empty());
                assert(boundary@ =~= Seq::<u32>::empty());
            }
            collect_region(nodes, id, visited, &mut members, &mut boundary);
            let ghost rv = visited@;
            let ghost target = walk(nodes@, id, st);
            proof {
                lemma_region_mono(nodes@, id, v0, Seq::empty(), Seq::empty());
                lemma_unvisited_mono(v1, visited@);
            }
            push_kernel(kernels, id, KernelKind::PureArithmetic, members);
            let mut j: usize = 0;
            while j < boundary.len()
                invariant
                    j <= boundary@.len(),
                    visited@.len() == nodes@.len(),
                    forall|k: int| 0 <= k < nodes@.len() && v0[k] ==> visited@[k],
                    unvisited(visited@) <= bound,
                    bound < unvisited(v0),
                    v0 == old(visited)@,
                    target == walk_children(nodes@, boundary@, j as int, (PState { visited: visited@, kernels: kernels_view(kernels@) }), bound),
                decreases boundary@.len() - j,
            {
                let ghost vb = visited@;
                walk_graph(nodes, boundary[j], visited, kernels);
                proof {
                    lemma_unvisited_mono(vb, visited@);
                }
                j = j + 1;
            }
        },
        _ => {
            visited.set(i, true);
            let mut members: Vec<u32> = Vec::new();
            members.push(id);
            proof {
                assert(members@ =~= seq![id]);
            }
            push_kernel(kernels, id, KernelKind::Leaf, members);
            proof {
                assert(PState { visited: visited@, kernels: kernels_view(kernels@) }
                    =~= add_kernel(st, id, KernelKind::Leaf, seq![id], v1));
            }
        },
    }
}

/// Partitions the graph below `root` into fusion kernels, without changing
/// the graph (see [`partition_spec`]).
pub fn partition(nodes: &Vec<DagNode>, root: u32, config: FusionConfig) -> (r: FusionPlan)
    ensures
        kernels_view(r.kernels@) == partition_spec(nodes@, root),
        r.config == config,
{
    let mut visited = all_false(nodes.len());
    let mut kernels: Vec<FusionKernel> = Vec::new();
    proof {
        assert(kernels_view(kernels@) =~= Seq::<KView>::empty());
    }
    walk_graph(nodes, root, &mut visited, &mut kernels);
    FusionPlan { kernels, config }
}

/// Each kernel's index is its position in the list.
pub open spec fn indexed(ks: Seq<KView>) -> bool {
    forall|k: int| 0 <= k < ks.len() ==> (#[trigger] ks[k]).index == k
}

proof fn lemma_add_kernel_indexed(st: PState, root: u32, kind: KernelKind, ns: Seq<u32>, v: Seq<bool>)
    requires
        indexed(st.kernels),
    ensures
        indexed(add_kernel(st, root, kind, ns, v).kernels),
{
    let ks = add_kernel(st, root, kind, ns, v).kernels;
    assert forall|k: int| 0 <= k < ks.len() implies (#[trigger] ks[k]).index == k by {
        if k < st.kernels.len() {
            assert(ks[k] == st.kernels[k]);
        }
    }
}

proof fn lemma_walk_indexed(nodes: Seq<DagNode>, id: u32, st: PState)
    requires
        indexed(st.kernels),
    ensures
        indexed(walk(nodes, id, st).kernels),
    decreases unvisited(st.visited) as int, 0int, 0int,
{
    let i = id as int;
    if i >= nodes.len() || st.visited.len() != nodes.len() || st.visited[i] {
    } else {
        let v1 = st.visited.update(i, true);
        lemma_unvisited_update(st.visited, i);
        let bound = unvisited(v1);
        match nodes[i].kind {
            NodeKind::ControlFlow => {
                let st1 = add_kernel(st, id, KernelKind::ControlFlow, seq![id], v1);
                lemma_add_kernel_indexed(st, id, KernelKind::ControlFlow, seq![id], v1);
                lemma_children_indexed(nodes, children_of(nodes, i), 0, st1, bound);
            },
            NodeKind::Function => {
                let lc = leaf_collect(nodes, children_of(nodes, i), 0, v1, seq![id]);
                let st1 = add_kernel(st, id, KernelKind::Function, lc.1, lc.0);
                lemma_add_kernel_indexed(st, id, KernelKind::Function, lc.1, lc.0);
                lemma_children_indexed(nodes, children_of(nodes, i), 0, st1, bound);
            },
            NodeKind::Operator => {
                let r = region(nodes, id, st.visited, Seq::empty(), Seq::empty());
                let st1 = add_kernel(st, id, KernelKind::PureArithmetic, r.1, r.0);
                lemma_add_kernel_indexed(st, id, KernelKind::PureArithmetic, r.1, r.0);
                lemma_children_indexed(nodes, r.2, 0, st1, bound);
            },
            _ => {
                lemma_add_kernel_indexed(st, id, KernelKind::Leaf, seq![id], v1);
            },
        }
    }
}

proof fn lemma_children_indexed(nodes: Seq<DagNode>, ch: Seq<u32>, i: int, st: PState, bound: nat)
    requires
        indexed(st.kernels),
    ensures
        indexed(walk_children(nodes, ch, i, st, bound).kernels),
    decreases bound as int, 1int, ch.len() - i,
{
    if i < 0 || i >= ch.len() || unvisited(st.visited) > bound {
    } else {
        lemma_walk_indexed(nodes, ch[i], st);
        lemma_children_indexed(nodes, ch, i + 1, walk(nodes, ch[i], st), bound);
    }
}

/// Every kernel of a partition carries its position in the plan as its index.
pub proof fn lemma_partition_indexed(nodes: Seq<DagNode>, root: u32)
    ensures
        indexed(partition_spec(nodes, root)),
{
    lemma_walk_indexed(nodes, root, PState { visited: Seq::new(nodes.len(), |k: int| false), kernels: Seq::empty() });
}

} // verus!
