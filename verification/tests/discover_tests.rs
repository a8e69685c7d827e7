//! Tests of graph discovery: reachable-set traversal, edge tables,
//! cycle safety and the structural error cases.
use std::collections::HashMap;
use dl_vis::discover::{
    iterate_graph, AlignmentEdge, DataFlowEdge, DiscoverError, EdgeKind,
};
use dl_vis::graph::{DLVis, DLVisToml, Neighbors, Node, NodeToml, Op, Operation};

fn bare_node(id: usize, dimension: Vec<u32>) -> NodeToml {
    NodeToml {
        id,
        dimension,
        skip_connection_to: None,
        operation: None,
        pass_to: None,
        below_of: None,
        above_of: None,
        right_of: None,
        left_of: None,
    }
}

/// A node built directly, bypassing the raw-record assembly, for graphs
/// that the referential-integrity check would reject.
fn raw_node(id: usize, dimension: Vec<u32>) -> Node {
    Node {
        id,
        dimension,
        operations: None,
        neighbors: Vec::new(),
        below_of: None,
        above_of: None,
        right_of: None,
        left_of: None,
    }
}

#[test]
fn graph_test() {
    let mut node1 = bare_node(1, vec![5, 512, 512, 1]);
    node1.pass_to = Some(2);
    node1.left_of = Some(2);
    let mut node2 = bare_node(2, vec![5, 512, 512, 1]);
    node2.above_of = Some(3);
    node2.operation = Some(dl_vis::graph::OperationToml {
        to: 3,
        convolution: Some(dl_vis::graph::Convolution {
            dimension: 3,
            kernel_size: 3,
            num_outputs: 128,
            stride: Some(vec![1, 2, 2]),
            max_pool: None,
            activation_fn: Some("relu".to_string()),
            normalization_fn: None,
        }),
        deconvolution: None,
        fully_connected: None,
    });
    let node3 = bare_node(3, vec![5, 256, 256, 1]);
    let input = DLVisToml { start: 1, end: 3, nodes: vec![node1, node2, node3] };
    let dlvis = DLVis::from_toml_input(input).unwrap();

    let d = iterate_graph(&dlvis).unwrap();

    assert_eq!(d.order.len(), 3);
    assert_eq!(d.alignment_edges.len(), 2);
    assert_eq!(d.flow_edges.len(), 2);

    assert_eq!(
        d.alignment_edges[0],
        AlignmentEdge { from: 1, to: 2, direction: Neighbors::Left }
    );
    assert_eq!(
        d.alignment_edges[1],
        AlignmentEdge { from: 2, to: 3, direction: Neighbors::Above }
    );

    assert_eq!(d.flow_edges[0], DataFlowEdge { from: 1, to: 2, kind: EdgeKind::PassTo });
    assert_eq!(d.flow_edges[1], DataFlowEdge { from: 2, to: 3, kind: EdgeKind::Transform });
}

#[test]
fn cyclic_graph_terminates_and_counts_each_node_once() {
    let mut node1 = bare_node(1, vec![2]);
    node1.pass_to = Some(2);
    let mut node2 = bare_node(2, vec![2]);
    node2.pass_to = Some(1);
    let input = DLVisToml { start: 1, end: 2, nodes: vec![node1, node2] };
    let dlvis = DLVis::from_toml_input(input).unwrap();
    let d = iterate_graph(&dlvis).unwrap();
    assert_eq!(d.order, vec![1, 2]);
    assert_eq!(d.flow_edges.len(), 2);
}

#[test]
fn diamond_graph_counts_each_node_once() {
    // 1 feeds 2 and 3, which both feed 4
    let mut node1 = bare_node(1, vec![2]);
    node1.pass_to = Some(2);
    node1.skip_connection_to = Some(3);
    let mut node2 = bare_node(2, vec![2]);
    node2.pass_to = Some(4);
    let mut node3 = bare_node(3, vec![2]);
    node3.pass_to = Some(4);
    let node4 = bare_node(4, vec![2]);
    let input = DLVisToml { start: 1, end: 4, nodes: vec![node1, node2, node3, node4] };
    let dlvis = DLVis::from_toml_input(input).unwrap();
    let d = iterate_graph(&dlvis).unwrap();
    assert_eq!(d.order, vec![1, 2, 3, 4]);
    assert_eq!(d.flow_edges.len(), 4);
}

#[test]
fn unreachable_node_stays_undiscovered() {
    let node1 = bare_node(1, vec![2]);
    let node2 = bare_node(2, vec![2]);
    let input = DLVisToml { start: 1, end: 2, nodes: vec![node1, node2] };
    let dlvis = DLVis::from_toml_input(input).unwrap();
    let d = iterate_graph(&dlvis).unwrap();
    assert_eq!(d.order, vec![1]);
    assert!(d.alignment_edges.is_empty());
    assert!(d.flow_edges.is_empty());
}

#[test]
fn start_node_missing_is_fatal() {
    let graph = DLVis { nodes: HashMap::new(), start: 5, end: 5 };
    assert_eq!(iterate_graph(&graph).unwrap_err(), DiscoverError::StartMissing(5));
}

#[test]
fn dangling_spatial_relation_is_fatal() {
    // the start node declares itself left of an id the table lacks
    let mut node1 = raw_node(1, vec![4]);
    node1.left_of = Some(7);
    node1.neighbors = vec![Neighbors::Left];
    let mut nodes = HashMap::new();
    nodes.insert(1, node1);
    let graph = DLVis { nodes, start: 1, end: 1 };
    assert_eq!(
        iterate_graph(&graph).unwrap_err(),
        DiscoverError::DanglingRelation { node: 1, direction: Neighbors::Left }
    );
}

#[test]
fn unresolvable_flow_target_is_dropped() {
    // a data-flow edge into an unknown id is dropped, not fatal
    let mut node1 = raw_node(1, vec![4]);
    node1.operations = Some(vec![Operation { to: 9, operation: Op::PassTo }]);
    let mut nodes = HashMap::new();
    nodes.insert(1, node1);
    let graph = DLVis { nodes, start: 1, end: 1 };
    let d = iterate_graph(&graph).unwrap();
    assert_eq!(d.order, vec![1]);
    assert!(d.flow_edges.is_empty());
}

#[test]
fn discovery_is_deterministic() {
    let build = || {
        let mut n1 = bare_node(1, vec![3, 4]);
        n1.pass_to = Some(2);
        n1.left_of = Some(2);
        let n2 = bare_node(2, vec![3, 4]);
        DLVis::from_toml_input(DLVisToml { start: 1, end: 2, nodes: vec![n1, n2] }).unwrap()
    };
    let d1 = iterate_graph(&build()).unwrap();
    let d2 = iterate_graph(&build()).unwrap();
    assert_eq!(d1.order, d2.order);
    assert_eq!(d1.alignment_edges, d2.alignment_edges);
    assert_eq!(d1.flow_edges, d2.flow_edges);
}
