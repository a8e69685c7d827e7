//! Tests of the graph model: assembling nodes from raw records, the
//! referential-integrity check, and the lookup interface.
use dl_vis::graph::{
    Convolution, DLVis, DLVisToml, Neighbors, Node, NodeToml, Op, Operation, OperationToml,
};

fn bare_node(id: usize, dimension: Vec<u32>) -> NodeToml {
    NodeToml {
        id,
        dimension,
        skip_connection_to: None,
        operation: None,
        pass_to: None,
        below_of: None,
        above_of: None,
        right_of: None,
        left_of: None,
    }
}

fn sample_convolution() -> Convolution {
    Convolution {
        dimension: 3,
        kernel_size: 3,
        num_outputs: 128,
        stride: Some(vec![1, 2, 2]),
        max_pool: None,
        activation_fn: Some("relu".to_string()),
        normalization_fn: None,
    }
}

/// The three-node description used across the tests: node 1 is left of
/// node 2 and passes to it; node 2 is above node 3 with a convolution
/// edge to it.
fn sample_description() -> DLVisToml {
    let mut node1 = bare_node(1, vec![5, 512, 512, 1]);
    node1.pass_to = Some(2);
    node1.left_of = Some(2);
    let mut node2 = bare_node(2, vec![5, 512, 512, 1]);
    node2.above_of = Some(3);
    node2.operation = Some(OperationToml {
        to: 3,
        convolution: Some(sample_convolution()),
        deconvolution: None,
        fully_connected: None,
    });
    let node3 = bare_node(3, vec![5, 256, 256, 1]);
    DLVisToml { start: 1, end: 3, nodes: vec![node1, node2, node3] }
}

#[test]
fn parse_test() {
    let decoded: DLVis = DLVis::from_toml_input(sample_description()).unwrap();

    assert_eq!(decoded.start, 1);
    assert_eq!(decoded.end, 3);

    let node2 = decoded.get_node(2).unwrap();

    assert!(node2.operations.is_some());

    let operations = decoded.get_operation_to(node2).unwrap();
    assert_eq!(operations[0].0.unwrap().id, 3);
    match operations[0].1 {
        &Op::Convolution { .. } => assert!(true),
        _ => assert!(false),
    }

    assert_eq!(decoded.get_node(2).unwrap().neighbors[0], Neighbors::Above);
    assert_eq!(decoded.get_node(1).unwrap().neighbors[0], Neighbors::Left);
}

#[test]
fn unknown_link_is_reported() {
    let mut node1 = bare_node(1, vec![4]);
    node1.pass_to = Some(7);
    let input = DLVisToml { start: 1, end: 1, nodes: vec![node1] };
    let err = DLVis::from_toml_input(input).unwrap_err();
    assert_eq!(err, "Node 1 links to 7. 7 is not known.");
}

#[test]
fn unknown_spatial_link_is_reported() {
    let mut node1 = bare_node(1, vec![4]);
    node1.below_of = Some(250);
    let input = DLVisToml { start: 1, end: 1, nodes: vec![node1] };
    let err = DLVis::from_toml_input(input).unwrap_err();
    assert_eq!(err, "Node 1 links to 250. 250 is not known.");
}

#[test]
fn neighbors_follow_declaration_order() {
    let mut t = bare_node(9, vec![1]);
    t.below_of = Some(9);
    t.above_of = Some(9);
    t.right_of = Some(9);
    t.left_of = Some(9);
    let n = Node::from_toml(t).unwrap();
    assert_eq!(
        n.neighbors,
        vec![Neighbors::Below, Neighbors::Above, Neighbors::Right, Neighbors::Left]
    );
}

#[test]
fn operations_collect_transform_pass_and_skip() {
    let mut t = bare_node(1, vec![2]);
    t.operation = Some(OperationToml {
        to: 2,
        convolution: Some(sample_convolution()),
        deconvolution: None,
        fully_connected: None,
    });
    t.pass_to = Some(3);
    t.skip_connection_to = Some(4);
    let ops: Vec<Operation> = Operation::from_toml(&t).unwrap();
    assert_eq!(ops.len(), 3);
    assert_eq!(ops[0].to, 2);
    assert!(matches!(ops[0].operation, Op::Convolution { .. }));
    assert_eq!(ops[1].to, 3);
    assert_eq!(ops[1].operation, Op::PassTo);
    assert_eq!(ops[2].to, 4);
    assert_eq!(ops[2].operation, Op::SkipTo);
}

#[test]
fn no_declared_operations_yield_none() {
    let t = bare_node(1, vec![2]);
    assert!(Operation::from_toml(&t).is_none());
}

#[test]
fn ambiguous_transform_payload_is_dropped() {
    // a record carrying two payloads at once matches no transform kind
    let mut t = bare_node(1, vec![2]);
    t.operation = Some(OperationToml {
        to: 2,
        convolution: Some(sample_convolution()),
        deconvolution: None,
        fully_connected: Some(dl_vis::graph::FullyConnected {
            num_outputs: 10,
            activation_fn: None,
            normalization_fn: None,
        }),
    });
    assert!(Operation::from_toml(&t).is_none());
    t.pass_to = Some(2);
    let ops = Operation::from_toml(&t).unwrap();
    assert_eq!(ops.len(), 1);
    assert_eq!(ops[0].operation, Op::PassTo);
}

#[test]
fn get_neighbor_resolves_each_direction() {
    let decoded = DLVis::from_toml_input(sample_description()).unwrap();
    let node1 = decoded.get_node(1).unwrap();
    let left = decoded.get_neighbor(node1, Neighbors::Left).unwrap();
    assert_eq!(left.id, 2);
    assert!(decoded.get_neighbor(node1, Neighbors::Right).is_none());
    assert!(decoded.get_neighbor(node1, Neighbors::Above).is_none());
    assert!(decoded.get_neighbor(node1, Neighbors::Below).is_none());
    let node2 = decoded.get_node(2).unwrap();
    assert_eq!(decoded.get_above_of(node2).unwrap().id, 3);
    assert!(decoded.get_left_of(node2).is_none());
    assert!(decoded.get_right_of(node2).is_none());
    assert!(decoded.get_below_of(node2).is_none());
}

#[test]
fn get_start_returns_the_designated_node() {
    let decoded = DLVis::from_toml_input(sample_description()).unwrap();
    assert_eq!(decoded.get_start().id, 1);
    assert!(decoded.get_node(4).is_none());
}

#[test]
fn later_record_replaces_earlier_one_with_same_id() {
    let first = bare_node(1, vec![1]);
    let second = bare_node(1, vec![9, 9, 9, 9]);
    let input = DLVisToml { start: 1, end: 1, nodes: vec![first, second] };
    let decoded = DLVis::from_toml_input(input).unwrap();
    assert_eq!(decoded.get_node(1).unwrap().dimension, vec![9, 9, 9, 9]);
}
