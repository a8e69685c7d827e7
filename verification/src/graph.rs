//! The declarative graph description: nodes with spatial relations and
//! data-flow operations, assembled from the raw records of a description
//! file, plus the lookup interface the layout engine traverses.
use vstd::prelude::*;
use vstd::string::StringExecFns;
use std::collections::HashMap;
use crate::text::{dec_digits, usize_to_string};

verus! {

broadcast use vstd::std_specs::hash::group_hash_axioms;

/// Raw record of a whole graph description: start and end node ids and
/// one record per node.
#[derive(Debug)]
pub struct DLVisToml {
    pub start: usize,
    pub end: usize,
    pub nodes: Vec<NodeToml>,
}

/// Raw record of one node, one field per key of the description format.
#[derive(Debug)]
pub struct NodeToml {
    pub id: usize,
    pub dimension: Vec<u32>,
    pub skip_connection_to: Option<usize>,
    pub operation: Option<OperationToml>,
    pub pass_to: Option<usize>,
    pub below_of: Option<usize>,
    pub above_of: Option<usize>,
    pub right_of: Option<usize>,
    pub left_of: Option<usize>,
}

/// Raw record of a labeled transform declared on a node: exactly one of
/// the three payloads is expected to be present.
#[derive(Debug)]
pub struct OperationToml {
    pub to: usize,
    pub convolution: Option<Convolution>,
    pub deconvolution: Option<Deconvolution>,
    pub fully_connected: Option<FullyConnected>,
}

/// Details of a convolution transform.
#[derive(Debug)]
pub struct Convolution {
    pub dimension: u32,
    pub kernel_size: u32,
    pub num_outputs: u32,
    pub stride: Option<Vec<u32>>,
    pub max_pool: Option<Vec<u32>>,
    pub activation_fn: Option<String>,
    pub normalization_fn: Option<String>,
}

/// Details of a deconvolution transform.
#[derive(Debug)]
pub struct Deconvolution {
    pub dimension: u32,
    pub kernel_size: u32,
    pub num_outputs: u32,
    pub stride: Option<Vec<u32>>,
    pub max_pool: Option<Vec<u32>>,
    pub activation_fn: Option<String>,
    pub normalization_fn: Option<String>,
}

/// Details of a fully-connected transform.
#[derive(Debug)]
pub struct FullyConnected {
    pub num_outputs: u32,
    pub activation_fn: Option<String>,
    pub normalization_fn: Option<String>,
}

/// Mathematical value of a `Convolution`: strings as character sequences.
#[verifier::ext_equal]
pub struct ConvolutionV {
    pub dimension: u32,
    pub kernel_size: u32,
    pub num_outputs: u32,
    pub stride: Option<Seq<u32>>,
    pub max_pool: Option<Seq<u32>>,
    pub activation_fn: Option<Seq<char>>,
    pub normalization_fn: Option<Seq<char>>,
}

/// Mathematical value of a `Deconvolution`.
#[verifier::ext_equal]
pub struct DeconvolutionV {
    pub dimension: u32,
    pub kernel_size: u32,
    pub num_outputs: u32,
    pub stride: Option<Seq<u32>>,
    pub max_pool: Option<Seq<u32>>,
    pub activation_fn: Option<Seq<char>>,
    pub normalization_fn: Option<Seq<char>>,
}

/// Mathematical value of a `FullyConnected`.
#[verifier::ext_equal]
pub struct FullyConnectedV {
    pub num_outputs: u32,
    pub activation_fn: Option<Seq<char>>,
    pub normalization_fn: Option<Seq<char>>,
}

impl DeepView for Convolution {
    type V = ConvolutionV;

    open spec fn deep_view(&self) -> ConvolutionV {
        ConvolutionV {
            dimension: self.dimension,
            kernel_size: self.kernel_size,
            num_outputs: self.num_outputs,
            stride: self.stride.deep_view(),
            max_pool: self.max_pool.deep_view(),
            activation_fn: self.activation_fn.deep_view(),
            normalization_fn: self.normalization_fn.deep_view(),
        }
    }
}

impl DeepView for Deconvolution {
    type V = DeconvolutionV;

    open spec fn deep_view(&self) -> DeconvolutionV {
        DeconvolutionV {
            dimension: self.dimension,
            kernel_size: self.kernel_size,
            num_outputs: self.num_outputs,
            stride: self.stride.deep_view(),
            max_pool: self.max_pool.deep_view(),
            activation_fn: self.activation_fn.deep_view(),
            normalization_fn: self.normalization_fn.deep_view(),
        }
    }
}

impl DeepView for FullyConnected {
    type V = FullyConnectedV;

    open spec fn deep_view(&self) -> FullyConnectedV {
        FullyConnectedV {
            num_outputs: self.num_outputs,
            activation_fn: self.activation_fn.deep_view(),
            normalization_fn: self.normalization_fn.deep_view(),
        }
    }
}

/// Clones an optional vector of integers, keeping its value.
fn clone_vec_u32_opt(v: &Option<Vec<u32>>) -> (r: Option<Vec<u32>>)
    ensures
        r.deep_view() == v.deep_view(),
{
    match v {
        Some(x) => {
            let c = x.clone();
            proof {
                assert(c@ =~= x@);
                assert(c.deep_view() =~= x.deep_view());
            }
            Some(c)
        },
        None => None,
    }
}

/// Clones an optional string, keeping its value.
fn clone_string_opt(s: &Option<String>) -> (r: Option<String>)
    ensures
        r.deep_view() == s.deep_view(),
{
    match s {
        Some(x) => Some(x.clone()),
        None => None,
    }
}

impl Clone for Convolution {
    /// Cloning keeps the mathematical value.
    fn clone(&self) -> (res: Self)
        ensures
            res.deep_view() == self.deep_view(),
    {
        Convolution {
            dimension: self.dimension,
            kernel_size: self.kernel_size,
            num_outputs: self.num_outputs,
            stride: clone_vec_u32_opt(&self.stride),
            max_pool: clone_vec_u32_opt(&self.max_pool),
            activation_fn: clone_string_opt(&self.activation_fn),
            normalization_fn: clone_string_opt(&self.normalization_fn),
        }
    }
}

impl Clone for Deconvolution {
    /// Cloning keeps the mathematical value.
    fn clone(&self) -> (res: Self)
        ensures
            res.deep_view() == self.deep_view(),
    {
        Deconvolution {
            dimension: self.dimension,
            kernel_size: self.kernel_size,
            num_outputs: self.num_outputs,
            stride: clone_vec_u32_opt(&self.stride),
            max_pool: clone_vec_u32_opt(&self.max_pool),
            activation_fn: clone_string_opt(&self.activation_fn),
            normalization_fn: clone_string_opt(&self.normalization_fn),
        }
    }
}

impl Clone for FullyConnected {
    /// Cloning keeps the mathematical value.
    fn clone(&self) -> (res: Self)
        ensures
            res.deep_view() == self.deep_view(),
    {
        FullyConnected {
            num_outputs: self.num_outputs,
            activation_fn: clone_string_opt(&self.activation_fn),
            normalization_fn: clone_string_opt(&self.normalization_fn),
        }
    }
}

/// A declared spatial relation: the owning node is left/right/above/below
/// of the related node.
#[derive(PartialEq, Eq, Structural, Debug, Copy, Clone)]
pub enum Neighbors {
    Left,
    Right,
    Above,
    Below,
}

/// A data-flow edge kind: a labeled transform or a structural
/// pass-through/skip connection.
#[derive(PartialEq, Debug)]
pub enum Op {
    Convolution {
        dimension: u32,
        kernel_size: u32,
        num_outputs: u32,
        stride: Option<Vec<u32>>,
        max_pool: Option<Vec<u32>>,
        activation_fn: Option<String>,
        normalization_fn: Option<String>,
    },
    Deconvolution {
        dimension: u32,
        kernel_size: u32,
        num_outputs: u32,
        stride: Option<Vec<u32>>,
        max_pool: Option<Vec<u32>>,
        activation_fn: Option<String>,
        normalization_fn: Option<String>,
    },
    FullyConnected {
        num_outputs: u32,
        activation_fn: Option<String>,
        normalization_fn: Option<String>,
    },
    PassTo,
    SkipTo,
}

/// Mathematical value of an `Op`.
#[verifier::ext_equal]
pub enum OpV {
    Convolution {
        dimension: u32,
        kernel_size: u32,
        num_outputs: u32,
        stride: Option<Seq<u32>>,
        max_pool: Option<Seq<u32>>,
        activation_fn: Option<Seq<char>>,
        normalization_fn: Option<Seq<char>>,
    },
    Deconvolution {
        dimension: u32,
        kernel_size: u32,
        num_outputs: u32,
        stride: Option<Seq<u32>>,
        max_pool: Option<Seq<u32>>,
        activation_fn: Option<Seq<char>>,
        normalization_fn: Option<Seq<char>>,
    },
    FullyConnected {
        num_outputs: u32,
        activation_fn: Option<Seq<char>>,
        normalization_fn: Option<Seq<char>>,
    },
    PassTo,
    SkipTo,
}

impl DeepView for Op {
    type V = OpV;

    open spec fn deep_view(&self) -> OpV {
        match self {
            Op::Convolution {
                dimension,
                kernel_size,
                num_outputs,
                stride,
                max_pool,
                activation_fn,
                normalization_fn,
            } => OpV::Convolution {
                dimension: *dimension,
                kernel_size: *kernel_size,
                num_outputs: *num_outputs,
                stride: stride.deep_view(),
                max_pool: max_pool.deep_view(),
                activation_fn: activation_fn.deep_view(),
                normalization_fn: normalization_fn.deep_view(),
            },
            Op::Deconvolution {
                dimension,
                kernel_size,
                num_outputs,
                stride,
                max_pool,
                activation_fn,
                normalization_fn,
            } => OpV::Deconvolution {
                dimension: *dimension,
                kernel_size: *kernel_size,
                num_outputs: *num_outputs,
                stride: stride.deep_view(),
                max_pool: max_pool.deep_view(),
                activation_fn: activation_fn.deep_view(),
                normalization_fn: normalization_fn.deep_view(),
            },
            Op::FullyConnected { num_outputs, activation_fn, normalization_fn } => {
                OpV::FullyConnected {
                    num_outputs: *num_outputs,
                    activation_fn: activation_fn.deep_view(),
                    normalization_fn: normalization_fn.deep_view(),
                }
            },
            Op::PassTo => OpV::PassTo,
            Op::SkipTo => OpV::SkipTo,
        }
    }
}

/// A declared data-flow edge: target node id and edge kind.
#[derive(Debug)]
pub struct Operation {
    pub to: usize,
    pub operation: Op,
}

/// Mathematical value of an `Operation`.
#[verifier::ext_equal]
pub struct OperationV {
    pub to: usize,
    pub operation: OpV,
}

impl DeepView for Operation {
    type V = OperationV;

    open spec fn deep_view(&self) -> OperationV {
        OperationV { to: self.to, operation: self.operation.deep_view() }
    }
}

/// One node of the assembled graph.
#[derive(Debug)]
pub struct Node {
    pub id: usize,
    pub dimension: Vec<u32>,
    pub operations: Option<Vec<Operation>>,
    pub neighbors: Vec<Neighbors>,
    pub below_of: Option<usize>,
    pub above_of: Option<usize>,
    pub right_of: Option<usize>,
    pub left_of: Option<usize>,
}

/// Mathematical value of a `Node`.
#[verifier::ext_equal]
pub struct NodeV {
    pub id: usize,
    pub dimension: Seq<u32>,
    pub operations: Option<Seq<OperationV>>,
    pub neighbors: Seq<Neighbors>,
    pub below_of: Option<usize>,
    pub above_of: Option<usize>,
    pub right_of: Option<usize>,
    pub left_of: Option<usize>,
}

impl DeepView for Node {
    type V = NodeV;

    open spec fn deep_view(&self) -> NodeV {
        NodeV {
            id: self.id,
            dimension: self.dimension@,
            operations: self.operations.deep_view(),
            neighbors: self.neighbors@,
            below_of: self.below_of,
            above_of: self.above_of,
            right_of: self.right_of,
            left_of: self.left_of,
        }
    }
}

/// The declared spatial relations of a raw node record, in the fixed
/// order below/above/right/left.
pub open spec fn spec_neighbors_from_toml(t: NodeToml) -> Seq<Neighbors> {
    (if t.below_of is Some {
        seq![Neighbors::Below]
    } else {
        Seq::empty()
    }) + (if t.above_of is Some {
        seq![Neighbors::Above]
    } else {
        Seq::empty()
    }) + (if t.right_of is Some {
        seq![Neighbors::Right]
    } else {
        Seq::empty()
    }) + (if t.left_of is Some {
        seq![Neighbors::Left]
    } else {
        Seq::empty()
    })
}

/// The transform edge a raw operation record denotes, if exactly one of
/// its three payloads is present.
pub open spec fn spec_transform_ops(ot: Option<OperationToml>) -> Seq<OperationV> {
    match ot {
        Some(o) => match (o.convolution, o.deconvolution, o.fully_connected) {
            (Some(c), None, None) => seq![
                OperationV {
                    to: o.to,
                    operation: OpV::Convolution {
                        dimension: c.deep_view().dimension,
                        kernel_size: c.deep_view().kernel_size,
                        num_outputs: c.deep_view().num_outputs,
                        stride: c.deep_view().stride,
                        max_pool: c.deep_view().max_pool,
                        activation_fn: c.deep_view().activation_fn,
                        normalization_fn: c.deep_view().normalization_fn,
                    },
                },
            ],
            (None, Some(d), None) => seq![
                OperationV {
                    to: o.to,
                    operation: OpV::Deconvolution {
                        dimension: d.deep_view().dimension,
                        kernel_size: d.deep_view().kernel_size,
                        num_outputs: d.deep_view().num_outputs,
                        stride: d.deep_view().stride,
                        max_pool: d.deep_view().max_pool,
                        activation_fn: d.deep_view().activation_fn,
                        normalization_fn: d.deep_view().normalization_fn,
                    },
                },
            ],
            (None, None, Some(f)) => seq![
                OperationV {
                    to: o.to,
                    operation: OpV::FullyConnected {
                        num_outputs: f.deep_view().num_outputs,
                        activation_fn: f.deep_view().activation_fn,
                        normalization_fn: f.deep_view().normalization_fn,
                    },
                },
            ],
            _ => Seq::empty(),
        },
        None => Seq::empty(),
    }
}

/// The data-flow edges a raw node record declares: at most one transform,
/// then the pass-through, then the skip connection.
pub open spec fn spec_operations_from_toml(t: NodeToml) -> Option<Seq<OperationV>> {
    let all = spec_transform_ops(t.operation) + (match t.pass_to {
        Some(p) => seq![OperationV { to: p, operation: OpV::PassTo }],
        None => Seq::empty(),
    }) + (match t.skip_connection_to {
        Some(s) => seq![OperationV { to: s, operation: OpV::SkipTo }],
        None => Seq::empty(),
    });
    if all.len() == 0 {
        None
    } else {
        Some(all)
    }
}

/// The node a raw node record denotes.
pub open spec fn spec_node_from_toml(t: NodeToml) -> NodeV {
    NodeV {
        id: t.id,
        dimension: t.dimension@,
        operations: spec_operations_from_toml(t),
        neighbors: spec_neighbors_from_toml(t),
        below_of: t.below_of,
        above_of: t.above_of,
        right_of: t.right_of,
        left_of: t.left_of,
    }
}

impl Operation {
    /// Collects the data-flow edges a raw node record declares: the
    /// transform of its operation record (when exactly one payload is
    /// present), then the pass-through edge, then the skip connection.
    pub fn from_toml(node_toml: &NodeToml) -> (r: Option<Vec<Operation>>)
        ensures
            r.deep_view() == spec_operations_from_toml(*node_toml),
    {
        let mut operations: Vec<Operation> = Vec::new();
        match &node_toml.operation {
            Some(input) => {
                match (&input.convolution, &input.deconvolution, &input.fully_connected) {
                    (Some(conv), None, None) => {
                        let c = conv.clone();
                        let op = Op::Convolution {
                            dimension: c.dimension,
                            kernel_size: c.kernel_size,
                            num_outputs: c.num_outputs,
                            stride: c.stride,
                            max_pool: c.max_pool,
                            activation_fn: c.activation_fn,
                            normalization_fn: c.normalization_fn,
                        };
                        operations.push(Operation { to: input.to, operation: op });
                    },
                    (None, Some(deconv), None) => {
                        let d = deconv.clone();
                        let op = Op::Deconvolution {
                            dimension: d.dimension,
                            kernel_size: d.kernel_size,
                            num_outputs: d.num_outputs,
                            stride: d.stride,
                            max_pool: d.max_pool,
                            activation_fn: d.activation_fn,
                            normalization_fn: d.normalization_fn,
                        };
                        operations.push(Operation { to: input.to, operation: op });
                    },
                    (None, None, Some(fc)) => {
                        let f = fc.clone();
                        let op = Op::FullyConnected {
                            num_outputs: f.num_outputs,
                            activation_fn: f.activation_fn,
                            normalization_fn: f.normalization_fn,
                        };
                        operations.push(Operation { to: input.to, operation: op });
                    },
                    _ => {},
                }
            },
            None => {},
        }
        proof {
            assert(operations.deep_view() =~= spec_transform_ops(node_toml.operation));
        }
        match node_toml.pass_to {
            Some(p) => {
                operations.push(Operation { to: p, operation: Op::PassTo });
            },
            None => {},
        }
        match node_toml.skip_connection_to {
            Some(s) => {
                operations.push(Operation { to: s, operation: Op::SkipTo });
            },
            None => {},
        }
        proof {
            assert(operations.deep_view() =~= spec_transform_ops(node_toml.operation) + (match node_toml.pass_to {
                Some(p) => seq![OperationV { to: p, operation: OpV::PassTo }],
                None => Seq::empty(),
            }) + (match node_toml.skip_connection_to {
                Some(s) => seq![OperationV { to: s, operation: OpV::SkipTo }],
                None => Seq::empty(),
            }));
        }
        if operations.len() == 0 {
            None
        } else {
            Some(operations)
        }
    }
}

impl Node {
    /// Assembles a node from its raw record; never fails.
    pub fn from_toml(toml_node: NodeToml) -> (r: Result<Node, String>)
        ensures
            r matches Ok(n) && n.deep_view() == spec_node_from_toml(toml_node),
    {
        let mut neighbors: Vec<Neighbors> = Vec::new();
        if toml_node.below_of.is_some() {
            neighbors.push(Neighbors::Below);
        }
        if toml_node.above_of.is_some() {
            neighbors.push(Neighbors::Above);
        }
        if toml_node.right_of.is_some() {
            neighbors.push(Neighbors::Right);
        }
        if toml_node.left_of.is_some() {
            neighbors.push(Neighbors::Left);
        }
        proof {
            assert(neighbors@ =~= spec_neighbors_from_toml(toml_node));
        }
        let operation = Operation::from_toml(&toml_node);
        let n = Node {
            id: toml_node.id,
            dimension: toml_node.dimension,
            operations: operation,
            neighbors,
            below_of: toml_node.below_of,
            above_of: toml_node.above_of,
            right_of: toml_node.right_of,
            left_of: toml_node.left_of,
        };
        proof {
            assert(n.deep_view() =~= spec_node_from_toml(toml_node));
        }
        Ok(n)
    }

    /// Every id this node links to: data-flow targets first, then the
    /// spatial relations in the fixed order below/above/right/left.
    pub fn return_all_links(&self) -> (r: Vec<usize>)
        ensures
            r@ == spec_all_links(self.deep_view()),
    {
        let mut ret: Vec<usize> = Vec::new();
        match &self.operations {
            Some(operations) => {
                let mut i: usize = 0;
                while i < operations.len()
                    invariant
                        i <= operations.len(),
                        self.operations matches Some(ops) && ops@ == operations@,
                        ret@ == operations@.map_values(|o: Operation| o.to).take(i as int),
                    decreases operations.len() - i,
                {
                    ret.push(operations[i].to);
                    proof {
                        assert(ret@ =~= operations@.map_values(|o: Operation| o.to).take(
                            i as int + 1,
                        ));
                    }
                    i = i + 1;
                }
                proof {
                    assert(operations@.map_values(|o: Operation| o.to).take(
                        operations@.len() as int,
                    ) =~= operations@.map_values(|o: Operation| o.to));
                }
            },
            None => {},
        }
        proof {
            assert(ret@ =~= spec_flow_links(self.deep_view()));
        }
        match self.below_of {
            Some(below_of) => ret.push(below_of),
            None => {},
        }
        match self.above_of {
            Some(above_of) => ret.push(above_of),
            None => {},
        }
        match self.right_of {
            Some(right_of) => ret.push(right_of),
            None => {},
        }
        match self.left_of {
            Some(left_of) => ret.push(left_of),
            None => {},
        }
        proof {
            assert(ret@ =~= spec_all_links(self.deep_view()));
        }
        ret
    }
}

/// The data-flow target ids of a node.
pub open spec fn spec_flow_links(n: NodeV) -> Seq<usize> {
    match n.operations {
        Some(ops) => ops.map_values(|o: OperationV| o.to),
        None => Seq::empty(),
    }
}

/// Every id a node links to: data-flow targets, then spatial relations.
pub open spec fn spec_all_links(n: NodeV) -> Seq<usize> {
    spec_flow_links(n) + (match n.below_of {
        Some(b) => seq![b],
        None => Seq::empty(),
    }) + (match n.above_of {
        Some(a) => seq![a],
        None => Seq::empty(),
    }) + (match n.right_of {
        Some(r) => seq![r],
        None => Seq::empty(),
    }) + (match n.left_of {
        Some(l) => seq![l],
        None => Seq::empty(),
    })
}

/// The link a node declares in one direction: `Left` means "this node is
/// left of the linked node", and so on.
pub open spec fn spec_dir_link(n: NodeV, d: Neighbors) -> Option<usize> {
    match d {
        Neighbors::Left => n.left_of,
        Neighbors::Right => n.right_of,
        Neighbors::Above => n.above_of,
        Neighbors::Below => n.below_of,
    }
}

/// The node table that a sequence of raw records denotes: keyed by node
/// id, a later record with the same id replacing an earlier one.
pub open spec fn spec_nodes_map(ts: Seq<NodeToml>) -> Map<usize, NodeV>
    decreases ts.len(),
{
    if ts.len() == 0 {
        Map::empty()
    } else {
        spec_nodes_map(ts.drop_last()).insert(ts.last().id, spec_node_from_toml(ts.last()))
    }
}

/// Every node of the denoted table is keyed by its own id, so the table
/// meets the discoverer's well-formedness expectation.
pub proof fn lemma_nodes_map_ids(ts: Seq<NodeToml>)
    ensures
        forall|k: usize|
            #[trigger] spec_nodes_map(ts).contains_key(k) ==> spec_nodes_map(ts)[k].id == k,
    decreases ts.len(),
{
    if ts.len() > 0 {
        lemma_nodes_map_ids(ts.drop_last());
    }
}

/// Node `k` is present and links to an id `l` that is not.
pub open spec fn spec_bad_link(m: Map<usize, NodeV>, k: usize, l: usize) -> bool {
    m.contains_key(k) && spec_all_links(m[k]).contains(l) && !m.contains_key(l)
}

/// Every link of every node in the table resolves to a node of the table.
pub open spec fn spec_links_resolvable(m: Map<usize, NodeV>) -> bool {
    forall|k: usize, l: usize| !spec_bad_link(m, k, l)
}

/// All links of one node resolve within the table.
pub open spec fn spec_all_links_in(m: Map<usize, NodeV>, n: NodeV) -> bool {
    forall|i: int|
        0 <= i < spec_all_links(n).len() ==> m.contains_key(#[trigger] spec_all_links(n)[i])
}

/// The message reported for a link to an unknown node id.
pub open spec fn spec_link_err_msg(k: usize, l: usize) -> Seq<char> {
    "Node "@ + dec_digits(k as nat) + " links to "@ + dec_digits(l as nat) + ". "@ + dec_digits(
        l as nat,
    ) + " is not known."@
}

/// Builds the message reported for a link to an unknown node id.
fn link_err_msg(k: usize, l: usize) -> (msg: String)
    ensures
        msg@ == spec_link_err_msg(k, l),
{
    let mut msg = String::new();
    msg.append("Node ");
    let ks = usize_to_string(k);
    msg.append(ks.as_str());
    msg.append(" links to ");
    let ls = usize_to_string(l);
    msg.append(ls.as_str());
    msg.append(". ");
    msg.append(ls.as_str());
    msg.append(" is not known.");
    proof {
        assert(msg@ =~= spec_link_err_msg(k, l));
    }
    msg
}

/// The assembled graph: the node table and the designated start and end ids.
#[derive(Debug)]
pub struct DLVis {
    pub nodes: HashMap<usize, Node>,
    pub start: usize,
    pub end: usize,
}

impl DLVis {
    /// Assembles the graph from the raw description, then checks
    /// referential integrity: every declared link must name a node of the
    /// table, else the offending pair is reported.
    #[verifier::loop_isolation(false)]
    pub fn from_toml_input(input: DLVisToml) -> (r: Result<DLVis, String>)
        ensures
            match r {
                Ok(d) => {
                    &&& d.start == input.start
                    &&& d.end == input.end
                    &&& forall|k: usize|
                        #[trigger] d.nodes@.contains_key(k) <==> spec_nodes_map(
                            input.nodes@,
                        ).contains_key(k)
                    &&& forall|k: usize| #[trigger]
                        d.nodes@.contains_key(k) ==> d.nodes@[k].deep_view() == spec_nodes_map(
                            input.nodes@,
                        )[k]
                    &&& spec_links_resolvable(spec_nodes_map(input.nodes@))
                },
                Err(msg) => {
                    &&& !spec_links_resolvable(spec_nodes_map(input.nodes@))
                    &&& exists|k: usize, l: usize|
                        #[trigger] spec_bad_link(spec_nodes_map(input.nodes@), k, l) && msg@
                            == spec_link_err_msg(k, l)
                },
            },
    {
        let DLVisToml { start, end, nodes } = input;
        let mut nodes = nodes;
        let ghost all = input.nodes@;
        let ghost mut done: int = 0;
        let mut node_map: HashMap<usize, Node> = HashMap::new();
        let mut ids: Vec<usize> = Vec::new();
        while nodes.len() > 0
            invariant
                0 <= done <= all.len(),
                nodes@ == all.skip(done),
                forall|k: usize|
                    #[trigger] node_map@.contains_key(k) <==> spec_nodes_map(
                        all.take(done),
                    ).contains_key(k),
                forall|k: usize| #[trigger]
                    node_map@.contains_key(k) ==> node_map@[k].deep_view() == spec_nodes_map(
                        all.take(done),
                    )[k],
                forall|k: usize| #[trigger] node_map@.contains_key(k) <==> ids@.contains(k),
            decreases nodes.len(),
        {
            let t = nodes.remove(0);
            proof {
                assert(t == all[done]);
                assert(nodes@ =~= all.skip(done + 1));
                assert(all.take(done + 1).drop_last() =~= all.take(done));
                assert(all.take(done + 1).last() == all[done]);
            }
            match Node::from_toml(t) {
                Ok(val) => {
                    let id = val.id;
                    let ghost old_ids = ids@;
                    node_map.insert(id, val);
                    ids.push(id);
                    proof {
                        assert forall|k: usize|
                            #[trigger] node_map@.contains_key(k) <==> ids@.contains(k) by {
                            if node_map@.contains_key(k) {
                                if k == id {
                                    assert(ids@[ids@.len() - 1] == id);
                                } else {
                                    let i = choose|i: int|
                                        0 <= i < old_ids.len() && old_ids[i] == k;
                                    assert(ids@[i] == k);
                                }
                            } else {
                                if ids@.contains(k) {
                                    let i = choose|i: int| 0 <= i < ids@.len() && ids@[i] == k;
                                    if i < old_ids.len() {
                                        assert(old_ids[i] == k);
                                        assert(old_ids.contains(k));
                                    } else {
                                        assert(k == id);
                                    }
                                }
                            }
                        }
                    }
                },
                Err(err) => {
                    proof {
                        assert(false);
                    }
                    return Err(err);
                },
            }
            proof {
                done = done + 1;
            }
        }
        proof {
            assert(all.take(done) =~= all);
        }
        let ghost m = spec_nodes_map(all);
        // referential-integrity check over the final table: every id in
        // `ids` is a key of the table, and every key occurs in `ids`
        let mut idx: usize = 0;
        while idx < ids.len()
            invariant
                forall|k: usize| #[trigger] node_map@.contains_key(k) <==> m.contains_key(k),
                forall|k: usize| #[trigger]
                    node_map@.contains_key(k) ==> node_map@[k].deep_view() == m[k],
                forall|k: usize| #[trigger] node_map@.contains_key(k) <==> ids@.contains(k),
                forall|i: int|
                    0 <= i < idx ==> spec_all_links_in(m, m[#[trigger] ids@[i]]),
            decreases ids.len() - idx,
        {
            let id = ids[idx];
            proof {
                assert(ids@.contains(ids@[idx as int]));
            }
            match node_map.get(&id) {
                Some(node) => {
                    let links = node.return_all_links();
                    let mut li: usize = 0;
                    while li < links.len()
                        invariant
                            forall|k: usize|
                                #[trigger] node_map@.contains_key(k) <==> m.contains_key(k),
                            node_map@.contains_key(id),
                            node_map@[id].deep_view() == m[id],
                            links@ == spec_all_links(m[id]),
                            forall|i: int|
                                0 <= i < li ==> m.contains_key(#[trigger] links@[i]),
                        decreases links.len() - li,
                    {
                        let l = links[li];
                        if !node_map.contains_key(&l) {
                            let e = link_err_msg(id, l);
                            proof {
                                assert(spec_all_links(m[id]).contains(l));
                                assert(spec_bad_link(m, id, l));
                                assert(!spec_links_resolvable(m));
                                assert(spec_bad_link(m, id, l) && e@ == spec_link_err_msg(id, l));
                            }
                            return Err(e);
                        }
                        li = li + 1;
                    }
                    proof {
                        assert(spec_all_links_in(m, m[id]));
                    }
                },
                None => {
                    proof {
                        assert(ids@.contains(id));
                        assert(false);
                    }
                },
            }
            idx = idx + 1;
        }
        proof {
            assert forall|k: usize, l: usize| !spec_bad_link(m, k, l) by {
                if spec_bad_link(m, k, l) {
                    assert(node_map@.contains_key(k));
                    assert(ids@.contains(k));
                    let i = choose|i: int| 0 <= i < ids@.len() && ids@[i] == k;
                    assert(spec_all_links_in(m, m[k]));
                    let j = choose|j: int|
                        0 <= j < spec_all_links(m[k]).len() && spec_all_links(m[k])[j] == l;
                    assert(m.contains_key(spec_all_links(m[k])[j]));
                }
            }
        }
        Ok(DLVis { nodes: node_map, start, end })
    }

    /// Looks a node up by id.
    pub fn get_node(&self, id: usize) -> (r: Option<&Node>)
        ensures
            match r {
                Some(n) => self.nodes@.contains_key(id) && *n == self.nodes@[id],
                None => !self.nodes@.contains_key(id),
            },
    {
        self.nodes.get(&id)
    }

    /// The designated start node, which the caller must know to be present.
    pub fn get_start(&self) -> (r: &Node)
        requires
            self.nodes@.contains_key(self.start),
        ensures
            *r == self.nodes@[self.start],
    {
        match self.nodes.get(&self.start) {
            Some(n) => n,
            None => vstd::pervasive::unreached(),
        }
    }

    /// The node this node declares itself above of, if resolvable.
    pub fn get_above_of(&self, node: &Node) -> (r: Option<&Node>)
        ensures
            spec_link_lookup(self.nodes@, node.above_of, r),
    {
        match node.above_of {
            Some(link) => self.nodes.get(&link),
            None => None,
        }
    }

    /// The node this node declares itself below of, if resolvable.
    pub fn get_below_of(&self, node: &Node) -> (r: Option<&Node>)
        ensures
            spec_link_lookup(self.nodes@, node.below_of, r),
    {
        match node.below_of {
            Some(link) => self.nodes.get(&link),
            None => None,
        }
    }

    /// The node this node declares itself left of, if resolvable.
    pub fn get_left_of(&self, node: &Node) -> (r: Option<&Node>)
        ensures
            spec_link_lookup(self.nodes@, node.left_of, r),
    {
        match node.left_of {
            Some(link) => self.nodes.get(&link),
            None => None,
        }
    }

    /// The node this node declares itself right of, if resolvable.
    pub fn get_right_of(&self, node: &Node) -> (r: Option<&Node>)
        ensures
            spec_link_lookup(self.nodes@, node.right_of, r),
    {
        match node.right_of {
            Some(link) => self.nodes.get(&link),
            None => None,
        }
    }

    /// For each declared data-flow edge of the node: its resolved target
    /// (when the table has it) and its kind.
    pub fn get_operation_to<'a>(&'a self, node: &'a Node) -> (r: Option<
        Vec<(Option<&'a Node>, &'a Op)>,
    >)
        ensures
            match (node.operations, r) {
                (Some(ops), Some(v)) => {
                    &&& v@.len() == ops@.len()
                    &&& forall|i: int|
                        #![trigger v@[i]]
                        0 <= i < v@.len() ==> {
                            &&& *v@[i].1 == ops@[i].operation
                            &&& match v@[i].0 {
                                Some(n) => self.nodes@.contains_key(ops@[i].to) && *n
                                    == self.nodes@[ops@[i].to],
                                None => !self.nodes@.contains_key(ops@[i].to),
                            }
                        }
                },
                (None, None) => true,
                _ => false,
            },
    {
        match &node.operations {
            Some(ops) => {
                let mut ret: Vec<(Option<&'a Node>, &'a Op)> = Vec::new();
                let mut i: usize = 0;
                while i < ops.len()
                    invariant
                        i <= ops.len(),
                        node.operations matches Some(o) && o@ == ops@,
                        ret@.len() == i,
                        forall|j: int|
                            #![trigger ret@[j]]
                            0 <= j < i ==> {
                                &&& *ret@[j].1 == ops@[j].operation
                                &&& match ret@[j].0 {
                                    Some(n) => self.nodes@.contains_key(ops@[j].to) && *n
                                        == self.nodes@[ops@[j].to],
                                    None => !self.nodes@.contains_key(ops@[j].to),
                                }
                            },
                    decreases ops.len() - i,
                {
                    let t = ops[i].to;
                    ret.push((self.nodes.get(&t), &ops[i].operation));
                    i = i + 1;
                }
                Some(ret)
            },
            None => None,
        }
    }

    /// Resolves the neighbor a node declares in the given direction.
    pub fn get_neighbor(&self, node: &Node, neighbor: Neighbors) -> (r: Option<&Node>)
        ensures
            spec_link_lookup(self.nodes@, spec_dir_link(node.deep_view(), neighbor), r),
    {
        if neighbor == Neighbors::Left {
            self.get_left_of(node)
        } else if neighbor == Neighbors::Right {
            self.get_right_of(node)
        } else if neighbor == Neighbors::Above {
            self.get_above_of(node)
        } else {
            self.get_below_of(node)
        }
    }
}

/// What a lookup through an optional link returns: the linked node when
/// the link is declared and resolvable, nothing otherwise.
pub open spec fn spec_link_lookup(
    m: Map<usize, Node>,
    link: Option<usize>,
    r: Option<&Node>,
) -> bool {
    match (link, r) {
        (Some(l), Some(n)) => m.contains_key(l) && *n == m[l],
        (Some(l), None) => !m.contains_key(l),
        (None, None) => true,
        _ => false,
    }
}

} // verus!
