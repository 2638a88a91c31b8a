use aevia::fusion::{partition, DagNode, FusionConfig, KernelKind, NodeKind};

fn node(kind: NodeKind, children: Vec<u32>) -> DagNode {
    DagNode { kind, children }
}

#[test]
fn partition_single_arithmetic_kernel() {
    // x, y, x * y, 1.0, (x * y) + 1.0
    let nodes = vec![
        node(NodeKind::Variable, vec![]),
        node(NodeKind::Variable, vec![]),
        node(NodeKind::Operator, vec![0, 1]),
        node(NodeKind::Constant, vec![]),
        node(NodeKind::Operator, vec![2, 3]),
    ];
    let plan = partition(&nodes, 4, FusionConfig::default());
    assert_eq!(plan.arithmetic_kernel_count(), 1);
    assert!(plan.kernels[0].nodes.len() >= 4);
    assert_eq!(plan.kernels[0].nodes, vec![0, 1, 2, 3, 4]);
    assert_eq!(plan.kernels[0].index, 0);
    assert_eq!(plan.kernels[0].nodes.last(), Some(&4));
    assert_eq!(plan.kernels.len(), 1);
}

#[test]
fn partition_splits_control_flow() {
    // 1.0, t, 0.0, if_else(1.0, t, 0.0)
    let nodes = vec![
        node(NodeKind::Constant, vec![]),
        node(NodeKind::Variable, vec![]),
        node(NodeKind::Constant, vec![]),
        node(NodeKind::ControlFlow, vec![0, 1, 2]),
    ];
    let plan = partition(&nodes, 3, FusionConfig::default());
    assert!(plan.kernels.iter().any(|k| k.kind == KernelKind::ControlFlow));
    assert!(plan.kernels.iter().any(|k| k.kind == KernelKind::Leaf));
}

#[test]
fn control_flow_splits_kernels() {
    let nodes = vec![
        node(NodeKind::Constant, vec![]),
        node(NodeKind::Variable, vec![]),
        node(NodeKind::Constant, vec![]),
        node(NodeKind::ControlFlow, vec![0, 1, 2]),
    ];
    let plan = partition(&nodes, 3, FusionConfig::default());
    let kinds: Vec<KernelKind> = plan.kernels.iter().map(|k| k.kind).collect();
    assert_eq!(kinds, vec![KernelKind::ControlFlow, KernelKind::Leaf, KernelKind::Leaf, KernelKind::Leaf]);
    let roots: Vec<u32> = plan.kernels.iter().map(|k| k.root).collect();
    assert_eq!(roots, vec![3, 0, 1, 2]);
}

#[test]
fn function_kernels_take_their_leaf_arguments() {
    // a, 2.0, a * 2.0, f(a, a * 2.0), with the call at the root
    let nodes = vec![
        node(NodeKind::Variable, vec![]),
        node(NodeKind::Constant, vec![]),
        node(NodeKind::Operator, vec![0, 1]),
        node(NodeKind::Function, vec![0, 2]),
    ];
    let plan = partition(&nodes, 3, FusionConfig { expression_body: true, jit_kernel: false, simplify_fusion: false });
    assert_eq!(plan.kernels.len(), 2);
    assert_eq!(plan.kernels[0].kind, KernelKind::Function);
    assert_eq!(plan.kernels[0].nodes, vec![3, 0]);
    assert_eq!(plan.kernels[1].kind, KernelKind::PureArithmetic);
    assert_eq!(plan.kernels[1].nodes, vec![1, 2]);
    assert_eq!(plan.total_nodes(), 4);
    for (i, k) in plan.kernels.iter().enumerate() {
        assert_eq!(k.index, i);
    }
    assert!(plan.config.expression_body);
}

#[test]
fn shared_nodes_and_missing_ids() {
    // a control-flow node whose children repeat and point outside the graph
    let nodes = vec![
        node(NodeKind::Variable, vec![]),
        node(NodeKind::ControlFlow, vec![0, 0, 9]),
    ];
    let plan = partition(&nodes, 1, FusionConfig::default());
    let kinds: Vec<KernelKind> = plan.kernels.iter().map(|k| k.kind).collect();
    assert_eq!(kinds, vec![KernelKind::ControlFlow, KernelKind::Leaf]);
    assert!(partition(&nodes, 7, FusionConfig::default()).kernels.is_empty());
}

#[test]
fn calls_below_operators_get_kernels() {
    // x, y, f(y), x + f(y)
    let nodes = vec![
        node(NodeKind::Variable, vec![]),
        node(NodeKind::Variable, vec![]),
        node(NodeKind::Function, vec![1]),
        node(NodeKind::Operator, vec![0, 2]),
    ];
    let plan = partition(&nodes, 3, FusionConfig::default());
    let kinds: Vec<KernelKind> = plan.kernels.iter().map(|k| k.kind).collect();
    assert_eq!(kinds, vec![KernelKind::PureArithmetic, KernelKind::Function]);
    assert_eq!(plan.kernels[0].nodes, vec![0, 3]);
    assert_eq!(plan.kernels[1].nodes, vec![2, 1]);
    let mut all: Vec<u32> = plan.kernels.iter().flat_map(|k| k.nodes.clone()).collect();
    all.sort();
    assert_eq!(all, vec![0, 1, 2, 3]);
}

#[test]
fn no_node_lies_in_two_kernels() {
    // A shared subterm reached from an operator, a call and control flow.
    let nodes = vec![
        node(NodeKind::Variable, vec![]),
        node(NodeKind::Constant, vec![]),
        node(NodeKind::Operator, vec![0, 1]),
        node(NodeKind::Function, vec![2, 0, 1]),
        node(NodeKind::Operator, vec![3, 2, 0]),
        node(NodeKind::ControlFlow, vec![4, 3, 2, 1, 9]),
    ];
    let plan = partition(&nodes, 5, FusionConfig::default());
    let mut seen: Vec<u32> = Vec::new();
    for k in &plan.kernels {
        for n in &k.nodes {
            assert!((*n as usize) < nodes.len());
            assert!(!seen.contains(n), "node {n} lies twice");
            seen.push(*n);
        }
    }
    seen.sort();
    assert_eq!(seen, vec![0, 1, 2, 3, 4, 5]);
}
