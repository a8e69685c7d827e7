//! Graph discovery: a breadth-first traversal from the start node that
//! yields the reachable node set, the table of spatial-alignment edges
//! and the table of data-flow edges.
use vstd::prelude::*;
use crate::graph::{DLVis, Node, NodeV, Neighbors, Op, OpV, OperationV, spec_dir_link};

verus! {

broadcast use vstd::std_specs::hash::group_hash_axioms;

/// The kind of a drawn data-flow edge: pass-through and skip connections
/// carry routing geometry; labeled transforms are recorded but not drawn.
#[derive(PartialEq, Eq, Structural, Debug, Copy, Clone)]
pub enum EdgeKind {
    Transform,
    PassTo,
    SkipTo,
}

/// "`from` is `direction` of `to`", as declared by node `from`.
#[derive(PartialEq, Eq, Structural, Debug, Copy, Clone)]
pub struct AlignmentEdge {
    pub from: usize,
    pub to: usize,
    pub direction: Neighbors,
}

/// A resolvable declared data-flow edge from `from` to `to`.
#[derive(PartialEq, Eq, Structural, Debug, Copy, Clone)]
pub struct DataFlowEdge {
    pub from: usize,
    pub to: usize,
    pub kind: EdgeKind,
}

/// A structural failure of discovery, reported before any solving.
#[derive(PartialEq, Eq, Structural, Debug, Copy, Clone)]
pub enum DiscoverError {
    /// The designated start id has no node.
    StartMissing(usize),
    /// A reachable node declares a spatial relation that does not resolve.
    DanglingRelation { node: usize, direction: Neighbors },
}

/// What discovery yields: the reachable ids in the order they were
/// closed, and the two edge tables.
#[derive(Debug)]
pub struct Discovery {
    pub order: Vec<usize>,
    pub alignment_edges: Vec<AlignmentEdge>,
    pub flow_edges: Vec<DataFlowEdge>,
}

/// The drawn kind of a data-flow edge label.
pub open spec fn spec_kind(op: OpV) -> EdgeKind {
    match op {
        OpV::PassTo => EdgeKind::PassTo,
        OpV::SkipTo => EdgeKind::SkipTo,
        _ => EdgeKind::Transform,
    }
}

impl Op {
    /// The drawn kind of this edge label.
    pub fn kind(&self) -> (k: EdgeKind)
        ensures
            k == spec_kind(self.deep_view()),
    {
        match self {
            Op::PassTo => EdgeKind::PassTo,
            Op::SkipTo => EdgeKind::SkipTo,
            _ => EdgeKind::Transform,
        }
    }
}

/// Every node of the table is keyed by its own id.
pub open spec fn wf_graph(g: DLVis) -> bool {
    forall|k: usize| #[trigger] g.nodes@.contains_key(k) ==> g.nodes@[k].id == k
}

/// The declared data-flow edges of a node, empty when none are declared.
pub open spec fn spec_node_ops(n: NodeV) -> Seq<OperationV> {
    match n.operations {
        Some(ops) => ops,
        None => Seq::empty(),
    }
}

/// One traversal step: `b` is a spatial neighbor or a resolvable
/// data-flow target of `a`.
pub open spec fn spec_edge(gm: Map<usize, Node>, a: usize, b: usize) -> bool {
    &&& gm.contains_key(a)
    &&& gm.contains_key(b)
    &&& {
        ||| exists|i: int|
            0 <= i < gm[a].deep_view().neighbors.len() && spec_dir_link(
                gm[a].deep_view(),
                gm[a].deep_view().neighbors[i],
            ) == Some(b)
        ||| exists|i: int|
            0 <= i < spec_node_ops(gm[a].deep_view()).len() && spec_node_ops(
                gm[a].deep_view(),
            )[i].to == b
    }
}

/// A walk through the graph along traversal steps.
pub open spec fn spec_is_path(gm: Map<usize, Node>, p: Seq<usize>) -> bool {
    &&& p.len() > 0
    &&& gm.contains_key(p[0])
    &&& forall|i: int| 0 <= i < p.len() - 1 ==> spec_edge(gm, #[trigger] p[i], p[i + 1])
}

/// `b` can be reached from `s` along traversal steps.
pub open spec fn spec_reachable(gm: Map<usize, Node>, s: usize, b: usize) -> bool {
    exists|p: Seq<usize>| spec_is_path(gm, p) && p[0] == s && p.last() == b
}

/// The set of ids reachable from `s`.
pub open spec fn spec_reachable_set(gm: Map<usize, Node>, s: usize) -> Set<usize> {
    Set::new(|b: usize| spec_reachable(gm, s, b))
}

/// The relation a node declares in direction `d` does not resolve: either
/// no link is declared or the linked id has no node.
pub open spec fn spec_unresolved(gm: Map<usize, Node>, n: NodeV, d: Neighbors) -> bool {
    match spec_dir_link(n, d) {
        Some(l) => !gm.contains_key(l),
        None => true,
    }
}

/// Some declared spatial relation of the node does not resolve.
pub open spec fn spec_node_dangles(gm: Map<usize, Node>, n: NodeV) -> bool {
    exists|i: int| 0 <= i < n.neighbors.len() && spec_unresolved(gm, n, #[trigger] n.neighbors[i])
}

/// The id a declared link resolves to, zero as a placeholder when absent.
pub open spec fn spec_link_or_zero(o: Option<usize>) -> usize {
    match o {
        Some(l) => l,
        None => 0,
    }
}

/// The alignment edge recorded for the `i`-th declared relation of node
/// `from` (meaningful when the relation resolves).
pub open spec fn spec_align_edge(n: NodeV, from: usize, i: int) -> AlignmentEdge {
    AlignmentEdge {
        from,
        to: spec_link_or_zero(spec_dir_link(n, n.neighbors[i])),
        direction: n.neighbors[i],
    }
}

/// All alignment edges recorded while closing node `id`.
pub open spec fn spec_align_of(gm: Map<usize, Node>, id: usize) -> Seq<AlignmentEdge> {
    let n = gm[id].deep_view();
    Seq::new(n.neighbors.len(), |i: int| spec_align_edge(n, id, i))
}

/// The data-flow edges recorded for a prefix of a node's declared
/// operations: unresolvable targets are dropped.
pub open spec fn spec_flows_from(gm: Map<usize, Node>, id: usize, ops: Seq<OperationV>) -> Seq<
    DataFlowEdge,
>
    decreases ops.len(),
{
    if ops.len() == 0 {
        Seq::empty()
    } else {
        spec_flows_from(gm, id, ops.drop_last()) + (if gm.contains_key(ops.last().to) {
            seq![
                DataFlowEdge { from: id, to: ops.last().to, kind: spec_kind(ops.last().operation) },
            ]
        } else {
            Seq::empty()
        })
    }
}

/// All data-flow edges recorded while closing node `id`.
pub open spec fn spec_flows_of(gm: Map<usize, Node>, id: usize) -> Seq<DataFlowEdge> {
    spec_flows_from(gm, id, spec_node_ops(gm[id].deep_view()))
}

/// The alignment-edge table for a closed-order prefix.
pub open spec fn spec_align_table(gm: Map<usize, Node>, order: Seq<usize>) -> Seq<AlignmentEdge>
    decreases order.len(),
{
    if order.len() == 0 {
        Seq::empty()
    } else {
        spec_align_table(gm, order.drop_last()) + spec_align_of(gm, order.last())
    }
}

/// The data-flow-edge table for a closed-order prefix.
pub open spec fn spec_flow_table(gm: Map<usize, Node>, order: Seq<usize>) -> Seq<DataFlowEdge>
    decreases order.len(),
{
    if order.len() == 0 {
        Seq::empty()
    } else {
        spec_flow_table(gm, order.drop_last()) + spec_flows_of(gm, order.last())
    }
}

/// Appends an id unless it is already queued.
pub open spec fn spec_push_new(order: Seq<usize>, x: usize) -> Seq<usize> {
    if order.contains(x) {
        order
    } else {
        order.push(x)
    }
}

/// Enqueues a list of ids one after the other.
pub open spec fn spec_enqueue_all(order: Seq<usize>, xs: Seq<usize>) -> Seq<usize>
    decreases xs.len(),
{
    if xs.len() == 0 {
        order
    } else {
        spec_enqueue_all(spec_push_new(order, xs.first()), xs.drop_first())
    }
}

/// The resolvable data-flow targets of a list of operations, in order.
pub open spec fn spec_res_ops(gm: Map<usize, Node>, ops: Seq<OperationV>) -> Seq<usize>
    decreases ops.len(),
{
    if ops.len() == 0 {
        Seq::empty()
    } else {
        spec_res_ops(gm, ops.drop_last()) + (if gm.contains_key(ops.last().to) {
            seq![ops.last().to]
        } else {
            Seq::empty()
        })
    }
}

/// The ids enqueued while closing a node: its spatial neighbors in
/// declaration order (all resolvable when the node does not dangle),
/// then its resolvable data-flow targets.
pub open spec fn spec_targets(gm: Map<usize, Node>, id: usize) -> Seq<usize> {
    let n = gm[id].deep_view();
    Seq::new(
        n.neighbors.len(),
        |i: int| spec_link_or_zero(spec_dir_link(n, n.neighbors[i])),
    ) + spec_res_ops(gm, spec_node_ops(n))
}

/// One step of the traversal: closing the node at the queue head.
pub open spec fn spec_close(gm: Map<usize, Node>, order: Seq<usize>, id: usize) -> Seq<usize> {
    spec_enqueue_all(order, spec_targets(gm, id))
}

/// The closed order the traversal reaches from a queue state, with fuel
/// bounding the number of steps.
pub open spec fn spec_bfs_from(gm: Map<usize, Node>, order: Seq<usize>, qi: int, fuel: nat) -> Seq<
    usize,
>
    decreases fuel,
{
    if fuel == 0 || qi >= order.len() {
        order
    } else {
        spec_bfs_from(gm, spec_close(gm, order, order[qi]), qi + 1, (fuel - 1) as nat)
    }
}

/// The breadth-first closed order of a graph: discovery's result is this
/// value and no other, which pins the whole traversal down.
pub open spec fn spec_bfs_order(gm: Map<usize, Node>, start: usize) -> Seq<usize> {
    spec_bfs_from(gm, seq![start], 0, gm.dom().len())
}

/// Enqueueing distributes over appending one id to the list.
proof fn lemma_enqueue_all_push(order: Seq<usize>, xs: Seq<usize>, x: usize)
    ensures
        spec_enqueue_all(order, xs.push(x)) == spec_push_new(spec_enqueue_all(order, xs), x),
    decreases xs.len(),
{
    if xs.len() == 0 {
        assert(xs.push(x).drop_first() =~= Seq::<usize>::empty());
        assert(spec_enqueue_all(order, xs.push(x)) == spec_enqueue_all(
            spec_push_new(order, x),
            Seq::<usize>::empty(),
        ));
    } else {
        assert(xs.push(x).first() == xs.first());
        assert(xs.push(x).drop_first() =~= xs.drop_first().push(x));
        lemma_enqueue_all_push(spec_push_new(order, xs.first()), xs.drop_first(), x);
    }
}

/// Enqueueing distributes over list concatenation.
proof fn lemma_enqueue_all_concat(order: Seq<usize>, a: Seq<usize>, b: Seq<usize>)
    ensures
        spec_enqueue_all(order, a + b) == spec_enqueue_all(spec_enqueue_all(order, a), b),
    decreases b.len(),
{
    if b.len() == 0 {
        assert(a + b =~= a);
    } else {
        lemma_enqueue_all_concat(order, a, b.drop_last());
        assert(a + b =~= (a + b.drop_last()).push(b.last()));
        assert(b =~= b.drop_last().push(b.last()));
        lemma_enqueue_all_push(order, a + b.drop_last(), b.last());
        lemma_enqueue_all_push(spec_enqueue_all(order, a), b.drop_last(), b.last());
    }
}

/// A sequence of distinct keys of a finite map is no longer than the map.
proof fn lemma_no_dup_len_bound(gm: Map<usize, Node>, s: Seq<usize>)
    requires
        s.no_duplicates(),
        forall|i: int| 0 <= i < s.len() ==> gm.contains_key(#[trigger] s[i]),
        gm.dom().finite(),
    ensures
        s.len() <= gm.dom().len(),
{
    s.unique_seq_to_set();
    assert forall|x: usize| s.to_set().contains(x) implies gm.dom().contains(x) by {
        let i = choose|i: int| 0 <= i < s.len() && s[i] == x;
        assert(gm.contains_key(s[i]));
    }
    vstd::set_lib::lemma_len_subset(s.to_set(), gm.dom());
}

/// One step extends reachability.
proof fn lemma_reach_step(gm: Map<usize, Node>, s: usize, a: usize, b: usize)
    requires
        spec_reachable(gm, s, a),
        spec_edge(gm, a, b),
    ensures
        spec_reachable(gm, s, b),
{
    let p = choose|p: Seq<usize>| spec_is_path(gm, p) && p[0] == s && p.last() == a;
    let q = p.push(b);
    assert forall|i: int| 0 <= i < q.len() - 1 implies spec_edge(gm, #[trigger] q[i], q[i + 1]) by {
        if i < p.len() - 1 {
            assert(spec_edge(gm, p[i], p[i + 1]));
        } else {
            assert(q[i] == p.last());
        }
    }
    assert(spec_is_path(gm, q) && q[0] == s && q.last() == b);
}

/// A set of ids that holds the first node of a path and is closed under
/// traversal steps holds the last node of the path.
proof fn lemma_path_covered(gm: Map<usize, Node>, order: Seq<usize>, p: Seq<usize>)
    requires
        spec_is_path(gm, p),
        order.contains(p[0]),
        forall|i: int, b: usize|
            0 <= i < order.len() && #[trigger] spec_edge(gm, order[i], b) ==> order.contains(b),
    ensures
        order.contains(p.last()),
    decreases p.len(),
{
    if p.len() == 1 {
    } else {
        let q = p.drop_last();
        assert forall|i: int|
            0 <= i < q.len() - 1 implies spec_edge(gm, #[trigger] q[i], q[i + 1]) by {
            assert(spec_edge(gm, p[i], p[i + 1]));
        }
        lemma_path_covered(gm, order, q);
        let i = choose|i: int| 0 <= i < order.len() && order[i] == q.last();
        assert(spec_edge(gm, p[p.len() - 2], p[p.len() - 1]));
        assert(spec_edge(gm, order[i], p.last()));
    }
}

/// Breadth-first discovery from the start node.
///
/// Closes every node reachable over spatial relations and resolvable
/// data-flow edges exactly once, recording one alignment edge per
/// declared spatial relation of a closed node and one data-flow edge per
/// declared operation whose target resolves. A spatial relation that does
/// not resolve is fatal; a data-flow target that does not resolve is
/// silently dropped.
#[verifier::loop_isolation(false)]
#[verifier::rlimit(100)]
pub fn iterate_graph(graph: &DLVis) -> (r: Result<Discovery, DiscoverError>)
    requires
        wf_graph(*graph),
    ensures
        match r {
            Ok(d) => {
                &&& d.order@ == spec_bfs_order(graph.nodes@, graph.start)
                &&& d.order@.no_duplicates()
                &&& d.order@.len() > 0 && d.order@[0] == graph.start
                &&& forall|b: usize|
                    #[trigger] d.order@.contains(b) <==> spec_reachable(
                        graph.nodes@,
                        graph.start,
                        b,
                    )
                &&& forall|i: int|
                    0 <= i < d.order@.len() ==> graph.nodes@.contains_key(#[trigger] d.order@[i])
                &&& forall|i: int|
                    0 <= i < d.order@.len() ==> !spec_node_dangles(
                        graph.nodes@,
                        graph.nodes@[#[trigger] d.order@[i]].deep_view(),
                    )
                &&& d.alignment_edges@ == spec_align_table(graph.nodes@, d.order@)
                &&& d.flow_edges@ == spec_flow_table(graph.nodes@, d.order@)
                &&& forall|q: int|
                    0 <= q < d.alignment_edges@.len() ==> d.order@.contains(
                        (#[trigger] d.alignment_edges@[q]).from,
                    ) && d.order@.contains(d.alignment_edges@[q].to)
                &&& forall|q: int|
                    0 <= q < d.flow_edges@.len() ==> d.order@.contains(
                        (#[trigger] d.flow_edges@[q]).from,
                    ) && d.order@.contains(d.flow_edges@[q].to)
            },
            Err(DiscoverError::StartMissing(s)) => {
                &&& s == graph.start
                &&& !graph.nodes@.contains_key(graph.start)
            },
            Err(DiscoverError::DanglingRelation { node, direction }) => {
                &&& graph.nodes@.contains_key(node)
                &&& spec_reachable(graph.nodes@, graph.start, node)
                &&& graph.nodes@[node].deep_view().neighbors.contains(direction)
                &&& spec_unresolved(graph.nodes@, graph.nodes@[node].deep_view(), direction)
            },
        },
{
    let ghost gm = graph.nodes@;
    let start_id = graph.start;
    match graph.get_node(start_id) {
        Some(_) => {},
        None => {
            return Err(DiscoverError::StartMissing(start_id));
        },
    }
    let mut order: Vec<usize> = Vec::new();
    order.push(start_id);
    let mut alignment_edges: Vec<AlignmentEdge> = Vec::new();
    let mut flow_edges: Vec<DataFlowEdge> = Vec::new();
    let mut qi: usize = 0;
    let ghost total_fuel: nat = gm.dom().len();
    proof {
        let p = seq![start_id];
        assert(spec_is_path(gm, p) && p[0] == start_id && p.last() == start_id);
        assert(spec_reachable(gm, start_id, start_id));
        assert(order@ =~= seq![start_id]);
    }
    while qi < order.len()
        invariant
            qi <= order@.len(),
            qi <= total_fuel,
            total_fuel == gm.dom().len(),
            spec_bfs_from(gm, order@, qi as int, (total_fuel - qi) as nat) == spec_bfs_order(
                gm,
                start_id,
            ),
            order@.len() > 0,
            order@[0] == start_id,
            order@.no_duplicates(),
            forall|i: int| 0 <= i < order@.len() ==> gm.contains_key(#[trigger] order@[i]),
            forall|i: int|
                0 <= i < order@.len() ==> spec_reachable(gm, start_id, #[trigger] order@[i]),
            forall|i: int|
                0 <= i < qi ==> !spec_node_dangles(gm, gm[#[trigger] order@[i]].deep_view()),
            forall|i: int, b: usize|
                0 <= i < qi && #[trigger] spec_edge(gm, order@[i], b) ==> order@.contains(b),
            alignment_edges@ == spec_align_table(gm, order@.take(qi as int)),
            flow_edges@ == spec_flow_table(gm, order@.take(qi as int)),
            forall|q: int|
                0 <= q < alignment_edges@.len() ==> order@.contains(
                    (#[trigger] alignment_edges@[q]).from,
                ) && order@.contains(alignment_edges@[q].to),
            forall|q: int|
                0 <= q < flow_edges@.len() ==> order@.contains(
                    (#[trigger] flow_edges@[q]).from,
                ) && order@.contains(flow_edges@[q].to),
        decreases gm.dom().len() - qi,
    {
        proof {
            lemma_no_dup_len_bound(gm, order@);
        }
        let pid = order[qi];
        proof {
            assert(gm.contains_key(pid));
        }
        let node = match graph.get_node(pid) {
            Some(n) => n,
            None => vstd::pervasive::unreached(),
        };
        let ghost nv = node.deep_view();
        let ghost table_before = alignment_edges@;
        let ghost order_entry = order@;
        let ghost spatial = Seq::new(
            nv.neighbors.len(),
            |i: int| spec_link_or_zero(spec_dir_link(nv, nv.neighbors[i])),
        );
        // spatial relations: resolve each declared neighbor, enqueue it,
        // and record the alignment edge; failure to resolve is fatal
        let mut j: usize = 0;
        while j < node.neighbors.len()
            invariant
                j <= nv.neighbors.len(),
                node.neighbors@ == nv.neighbors,
                qi < order@.len(),
                order@[qi as int] == pid,
                order@.len() > 0,
                order@[0] == start_id,
                order@.no_duplicates(),
                forall|i: int| 0 <= i < order@.len() ==> gm.contains_key(#[trigger] order@[i]),
                forall|i: int|
                    0 <= i < order@.len() ==> spec_reachable(gm, start_id, #[trigger] order@[i]),
                forall|i: int, b: usize|
                    0 <= i < qi && #[trigger] spec_edge(gm, order@[i], b) ==> order@.contains(b),
                forall|i: int|
                    0 <= i < qi ==> !spec_node_dangles(gm, gm[#[trigger] order@[i]].deep_view()),
                forall|i: int|
                    0 <= i < j ==> !spec_unresolved(gm, nv, #[trigger] nv.neighbors[i]),
                forall|i: int|
                    0 <= i < j ==> order@.contains(
                        spec_link_or_zero(spec_dir_link(nv, #[trigger] nv.neighbors[i])),
                    ),
                alignment_edges@ == table_before + Seq::new(
                    j as nat,
                    |i: int| spec_align_edge(nv, pid, i),
                ),
                table_before == spec_align_table(gm, order@.take(qi as int)),
                flow_edges@ == spec_flow_table(gm, order@.take(qi as int)),
                forall|q: int|
                    0 <= q < alignment_edges@.len() ==> order@.contains(
                        (#[trigger] alignment_edges@[q]).from,
                    ) && order@.contains(alignment_edges@[q].to),
                forall|q: int|
                    0 <= q < flow_edges@.len() ==> order@.contains(
                        (#[trigger] flow_edges@[q]).from,
                    ) && order@.contains(flow_edges@[q].to),
                order@ == spec_enqueue_all(order_entry, spatial.take(j as int)),
            decreases node.neighbors.len() - j,
        {
            let d = node.neighbors[j];
            let child = match graph.get_neighbor(node, d) {
                Some(c) => c,
                None => {
                    proof {
                        assert(nv.neighbors.contains(nv.neighbors[j as int]));
                    }
                    return Err(DiscoverError::DanglingRelation { node: pid, direction: d });
                },
            };
            let cid = child.id;
            proof {
                let l = spec_link_or_zero(spec_dir_link(nv, d));
                assert(gm.contains_key(l) && *child == gm[l]);
                assert(cid == l);
                assert(spec_edge(gm, pid, cid)) by {
                    assert(spec_dir_link(nv, nv.neighbors[j as int]) == Some(cid));
                }
                lemma_reach_step(gm, start_id, pid, cid);
            }
            if !contains_id(&order, cid) {
                let ghost old_order = order@;
                order.push(cid);
                proof {
                    assert(order@.drop_last() == old_order);
                    assert(order@.take(qi as int) =~= old_order.take(qi as int));
                    assert forall|y: usize| old_order.contains(y) implies order@.contains(y) by {
                        let w = choose|w: int| 0 <= w < old_order.len() && old_order[w] == y;
                        assert(order@[w] == y);
                    }
                    assert forall|i: int, b: usize|
                        0 <= i < qi && #[trigger] spec_edge(gm, order@[i], b) implies order@.contains(
                        b,
                    ) by {
                        assert(old_order[i] == order@[i]);
                        assert(old_order.contains(b));
                    }
                    assert(order@.last() == cid);
                }
            }
            proof {
                assert(order@.contains(cid));
                assert(spatial[j as int] == cid);
                assert(spatial.take(j as int + 1) =~= spatial.take(j as int).push(cid));
                lemma_enqueue_all_push(order_entry, spatial.take(j as int), cid);
                assert(order@ == spec_enqueue_all(order_entry, spatial.take(j as int + 1)));
            }
            alignment_edges.push(AlignmentEdge { from: pid, to: cid, direction: d });
            proof {
                assert(alignment_edges@ =~= table_before + Seq::new(
                    j as nat + 1,
                    |i: int| spec_align_edge(nv, pid, i),
                ));
            }
            j = j + 1;
        }
        proof {
            assert(Seq::new(nv.neighbors.len(), |i: int| spec_align_edge(nv, pid, i))
                =~= spec_align_of(gm, pid));
            assert(alignment_edges@ == table_before + spec_align_of(gm, pid));
            assert(spatial.take(nv.neighbors.len() as int) =~= spatial);
        }
        let ghost mid = spec_enqueue_all(order_entry, spatial);
        proof {
            assert(order@ == mid);
        }
        // data-flow edges: enqueue each resolvable target and record the
        // edge; an unresolvable target is dropped
        let ghost flows_before = flow_edges@;
        let ghost opsv = spec_node_ops(nv);
        match &node.operations {
            Some(operations) => {
                let mut k: usize = 0;
                while k < operations.len()
                    invariant
                        k <= opsv.len(),
                        node.operations matches Some(o) && o@ == operations@,
                        operations.deep_view() == opsv,
                        qi < order@.len(),
                        order@[qi as int] == pid,
                        order@.len() > 0,
                        order@[0] == start_id,
                        order@.no_duplicates(),
                        forall|i: int|
                            0 <= i < order@.len() ==> gm.contains_key(#[trigger] order@[i]),
                        forall|i: int|
                            0 <= i < order@.len() ==> spec_reachable(
                                gm,
                                start_id,
                                #[trigger] order@[i],
                            ),
                        forall|i: int, b: usize|
                            0 <= i < qi && #[trigger] spec_edge(gm, order@[i], b)
                                ==> order@.contains(b),
                        forall|i: int|
                            0 <= i < qi ==> !spec_node_dangles(
                                gm,
                                gm[#[trigger] order@[i]].deep_view(),
                            ),
                        forall|i: int|
                            0 <= i < nv.neighbors.len() ==> order@.contains(
                                spec_link_or_zero(spec_dir_link(nv, #[trigger] nv.neighbors[i])),
                            ),
                        forall|i: int|
                            0 <= i < k && gm.contains_key((#[trigger] opsv[i]).to)
                                ==> order@.contains(opsv[i].to),
                        flow_edges@ == flows_before + spec_flows_from(gm, pid, opsv.take(k as int)),
                        table_before == spec_align_table(gm, order@.take(qi as int)),
                        flows_before == spec_flow_table(gm, order@.take(qi as int)),
                        alignment_edges@ == table_before + spec_align_of(gm, pid),
                        forall|q: int|
                            0 <= q < alignment_edges@.len() ==> order@.contains(
                                (#[trigger] alignment_edges@[q]).from,
                            ) && order@.contains(alignment_edges@[q].to),
                        forall|q: int|
                            0 <= q < flow_edges@.len() ==> order@.contains(
                                (#[trigger] flow_edges@[q]).from,
                            ) && order@.contains(flow_edges@[q].to),
                        order@ == spec_enqueue_all(mid, spec_res_ops(gm, opsv.take(k as int))),
                    decreases operations.len() - k,
                {
                    let t = operations[k].to;
                    proof {
                        assert(operations@[k as int].deep_view() == opsv[k as int]);
                        assert(t == opsv[k as int].to);
                    }
                    match graph.get_node(t) {
                        Some(_) => {
                            proof {
                                assert(spec_edge(gm, pid, t)) by {
                                    assert(spec_node_ops(nv)[k as int].to == t);
                                }
                                lemma_reach_step(gm, start_id, pid, t);
                            }
                            if !contains_id(&order, t) {
                                let ghost old_order = order@;
                                order.push(t);
                                proof {
                                    assert(order@.drop_last() == old_order);
                                    assert(order@.take(qi as int) =~= old_order.take(qi as int));
                                    assert forall|y: usize| old_order.contains(y) implies order@.contains(
                                        y,
                                    ) by {
                                        let w = choose|w: int|
                                            0 <= w < old_order.len() && old_order[w] == y;
                                        assert(order@[w] == y);
                                    }
                                    assert forall|i: int, b: usize|
                                        0 <= i < qi && #[trigger] spec_edge(gm, order@[i], b)
                                        implies order@.contains(b) by {
                                        assert(old_order[i] == order@[i]);
                                        assert(old_order.contains(b));
                                    }
                                    assert(order@.last() == t);
                                }
                            }
                            proof {
                                assert(order@.contains(t));
                                assert(opsv.take(k as int + 1).drop_last() =~= opsv.take(k as int));
                                assert(spec_res_ops(gm, opsv.take(k as int + 1)) =~= spec_res_ops(
                                    gm,
                                    opsv.take(k as int),
                                ).push(t));
                                lemma_enqueue_all_push(mid, spec_res_ops(gm, opsv.take(k as int)), t);
                                assert(order@ == spec_enqueue_all(
                                    mid,
                                    spec_res_ops(gm, opsv.take(k as int + 1)),
                                ));
                            }
                            let kind = operations[k].operation.kind();
                            flow_edges.push(DataFlowEdge { from: pid, to: t, kind });
                            proof {
                                assert(opsv.take(k as int + 1).drop_last() =~= opsv.take(k as int));
                                assert(flow_edges@ =~= flows_before + spec_flows_from(
                                    gm,
                                    pid,
                                    opsv.take(k as int + 1),
                                ));
                            }
                        },
                        None => {
                            proof {
                                assert(opsv.take(k as int + 1).drop_last() =~= opsv.take(k as int));
                                assert(flow_edges@ =~= flows_before + spec_flows_from(
                                    gm,
                                    pid,
                                    opsv.take(k as int + 1),
                                ));
                                assert(spec_res_ops(gm, opsv.take(k as int + 1)) =~= spec_res_ops(
                                    gm,
                                    opsv.take(k as int),
                                ));
                                assert(order@ == spec_enqueue_all(
                                    mid,
                                    spec_res_ops(gm, opsv.take(k as int + 1)),
                                ));
                            }
                        },
                    }
                    k = k + 1;
                }
                proof {
                    assert(opsv.take(opsv.len() as int) =~= opsv);
                }
            },
            None => {
                proof {
                    assert(opsv =~= Seq::<OperationV>::empty());
                    assert(spec_flows_from(gm, pid, opsv) =~= Seq::<DataFlowEdge>::empty());
                    assert(flow_edges@ =~= flows_before + spec_flows_from(gm, pid, opsv));
                    assert(spec_res_ops(gm, opsv) =~= Seq::<usize>::empty());
                    assert(order@ == spec_enqueue_all(mid, spec_res_ops(gm, opsv)));
                }
            },
        }
        proof {
            assert(flow_edges@ == flows_before + spec_flows_of(gm, pid));
            // the enqueues of this node are exactly one traversal step,
            // so one unfolding of the pinned order's definition matches
            assert(order@ == spec_enqueue_all(mid, spec_res_ops(gm, opsv)));
            lemma_enqueue_all_concat(order_entry, spatial, spec_res_ops(gm, opsv));
            assert(spec_targets(gm, pid) =~= spatial + spec_res_ops(gm, opsv));
            assert(order@ == spec_close(gm, order_entry, pid));
            assert(qi < order_entry.len());
            assert(order_entry[qi as int] == pid);
            assert(order_entry.len() <= total_fuel);
            assert(spec_bfs_from(gm, order_entry, qi as int, (total_fuel - qi) as nat)
                == spec_bfs_from(gm, order@, qi as int + 1, (total_fuel - qi - 1) as nat));
            assert(spec_bfs_from(gm, order@, qi as int + 1, (total_fuel - (qi + 1)) as nat)
                == spec_bfs_order(gm, start_id));
        }
        qi = qi + 1;
        proof {
            assert forall|b: usize| #[trigger] spec_edge(gm, pid, b) implies order@.contains(b) by {
                if exists|i: int|
                    0 <= i < nv.neighbors.len() && spec_dir_link(nv, nv.neighbors[i]) == Some(b) {
                    let i = choose|i: int|
                        0 <= i < nv.neighbors.len() && spec_dir_link(nv, nv.neighbors[i]) == Some(
                            b,
                        );
                    assert(spec_link_or_zero(spec_dir_link(nv, nv.neighbors[i])) == b);
                    assert(order@.contains(
                        spec_link_or_zero(spec_dir_link(nv, nv.neighbors[i])),
                    ));
                } else {
                    let i = choose|i: int|
                        0 <= i < spec_node_ops(nv).len() && spec_node_ops(nv)[i].to == b;
                    assert(gm.contains_key(opsv[i].to));
                    assert(order@.contains(opsv[i].to));
                }
            }
            let pref = order@.take(qi as int);
            assert(pref.drop_last() =~= order@.take(qi as int - 1));
            assert(pref.last() == pid);
            assert(alignment_edges@ == spec_align_table(gm, order@.take(qi as int)));
            assert(flow_edges@ == spec_flow_table(gm, order@.take(qi as int)));
            assert forall|i: int|
                0 <= i < qi implies !spec_node_dangles(
                gm,
                gm[#[trigger] order@[i]].deep_view(),
            ) by {
                if i < qi - 1 {
                } else {
                    assert(order@[i] == pid);
                    if spec_node_dangles(gm, nv) {
                        let w = choose|w: int|
                            0 <= w < nv.neighbors.len() && spec_unresolved(
                                gm,
                                nv,
                                nv.neighbors[w],
                            );
                        assert(!spec_unresolved(gm, nv, nv.neighbors[w]));
                    }
                }
            }
        }
    }
    proof {
        assert(order@.take(qi as int) =~= order@);
        assert(spec_bfs_from(gm, order@, qi as int, (total_fuel - qi) as nat) == order@);
        assert(order@ == spec_bfs_order(gm, start_id));
        assert forall|b: usize|
            #[trigger] order@.contains(b) <==> spec_reachable(gm, start_id, b) by {
            if spec_reachable(gm, start_id, b) {
                let p = choose|p: Seq<usize>|
                    spec_is_path(gm, p) && p[0] == start_id && p.last() == b;
                assert(order@.contains(order@[0]));
                lemma_path_covered(gm, order@, p);
            }
            if order@.contains(b) {
                let i = choose|i: int| 0 <= i < order@.len() && order@[i] == b;
                assert(spec_reachable(gm, start_id, order@[i]));
            }
        }
    }
    Ok(Discovery { order, alignment_edges, flow_edges })
}

/// Whether the id is already in the list.
fn contains_id(v: &Vec<usize>, id: usize) -> (r: bool)
    ensures
        r == v@.contains(id),
{
    let mut i: usize = 0;
    while i < v.len()
        invariant
            i <= v@.len(),
            forall|j: int| 0 <= j < i ==> v@[j] != id,
        decreases v@.len() - i,
    {
        if v[i] == id {
            return true;
        }
        i = i + 1;
    }
    false
}

/// Determinism of discovery: the closed order is pinned to the
/// breadth-first traversal of the node table, so two discoveries of the
/// same graph agree on the order and, with it, on both edge tables.
pub proof fn lemma_discovery_deterministic(
    gm: Map<usize, Node>,
    start: usize,
    o1: Seq<usize>,
    a1: Seq<AlignmentEdge>,
    f1: Seq<DataFlowEdge>,
    o2: Seq<usize>,
    a2: Seq<AlignmentEdge>,
    f2: Seq<DataFlowEdge>,
)
    requires
        o1 == spec_bfs_order(gm, start),
        a1 == spec_align_table(gm, o1),
        f1 == spec_flow_table(gm, o1),
        o2 == spec_bfs_order(gm, start),
        a2 == spec_align_table(gm, o2),
        f2 == spec_flow_table(gm, o2),
    ensures
        o1 == o2,
        a1 == a2,
        f1 == f2,
{
}

/// The number of discovered nodes equals the number of nodes reachable
/// from the start, each counted once.
pub proof fn lemma_discovery_counts(gm: Map<usize, Node>, s: usize, order: Seq<usize>)
    requires
        order.no_duplicates(),
        forall|b: usize| #[trigger] order.contains(b) <==> spec_reachable(gm, s, b),
        gm.dom().finite(),
        forall|i: int| 0 <= i < order.len() ==> gm.contains_key(#[trigger] order[i]),
    ensures
        order.to_set() =~= spec_reachable_set(gm, s),
        order.len() == spec_reachable_set(gm, s).len(),
{
    assert forall|b: usize| order.to_set().contains(b) <==> spec_reachable_set(gm, s).contains(
        b,
    ) by {
        assert(order.to_set().contains(b) == order.contains(b));
    }
    assert(order.to_set() =~= spec_reachable_set(gm, s));
    order.unique_seq_to_set();
}

} // verus!
