//! Reading a solved constraint system back into concrete geometry: one
//! rectangle per discovered node, and the routed line segments of the
//! drawn data-flow edges, derived from the solved box positions.
use vstd::prelude::*;
use crate::graph::{DLVis, Node};
use crate::discover::{DataFlowEdge, Discovery, EdgeKind};
use crate::plan::{
    cv_const, cv_diff, cv_var, lemma_box_cs_index, lemma_box_cs_len, lemma_eval_const,
    lemma_eval_diff, lemma_eval_var, node_size, spec_box_cs, spec_box_cs_of, spec_holds,
    spec_node_size, spec_plan_holds_at, spec_rank, LayoutError, Strength, Var,
};
use crate::{NODE_SIZE, NODE_SPACING, LINE_SPACING, NODE_OVERLAY_STEP};

verus! {

broadcast use vstd::std_specs::hash::group_hash_axioms;

/// Solved coordinates are accepted in `[-COORD_LIMIT, COORD_LIMIT]`, so
/// that every derived coordinate fits an `i64`.
pub const COORD_LIMIT: i64 = 1099511627776;

/// One node's rectangle in solved coordinates.
#[derive(PartialEq, Eq, Structural, Debug, Copy, Clone)]
pub struct Square {
    pub left: i64,
    pub right: i64,
    pub upper: i64,
    pub lower: i64,
}

/// One routed line segment in solved coordinates.
#[derive(PartialEq, Eq, Structural, Debug, Copy, Clone)]
pub struct Line {
    pub x1: i64,
    pub y1: i64,
    pub x2: i64,
    pub y2: i64,
}

/// A complete layout result: the canvas size, one rectangle per
/// discovered node in discovery order, and the routed line segments in
/// data-flow table order.
#[derive(Debug)]
pub struct Layout {
    pub width: i64,
    pub height: i64,
    pub squares: Vec<Square>,
    pub lines: Vec<Line>,
}

/// A box has both orderings and the fixed size on both axes.
pub open spec fn spec_square_valid(s: Square, size: int) -> bool {
    &&& s.left <= s.right
    &&& s.upper <= s.lower
    &&& s.right - s.left == size
    &&& s.lower - s.upper == size
}

/// The rectangle of a node solved at `(left, upper)` with the given size.
pub open spec fn spec_square(left: i64, upper: i64, size: int) -> Square {
    Square { left, right: (left + size) as i64, upper, lower: (upper + size) as i64 }
}

/// The vertical midline coordinate of a box.
pub open spec fn spec_mid_y(s: Square) -> int {
    s.upper + (s.lower - s.upper) / 2
}

/// The horizontal midline coordinate of a box.
pub open spec fn spec_mid_x(s: Square) -> int {
    s.left + (s.right - s.left) / 2
}

/// The magnitude of a coordinate difference.
pub open spec fn spec_abs(x: int) -> int {
    if x < 0 {
        -x
    } else {
        x
    }
}

/// A pass-through line is horizontal when the horizontal gap between the
/// two boxes' left edges is at least the vertical gap of their upper
/// edges; ties resolve to horizontal.
pub open spec fn spec_pass_horizontal(from: Square, to: Square) -> bool {
    spec_abs(from.left - to.left) >= spec_abs(from.upper - to.upper)
}

/// The single line of a pass-through edge: it departs the box edge facing
/// the target at the midline, offset inward by `LINE_SPACING` on both
/// ends.
pub open spec fn spec_pass_line(from: Square, to: Square) -> Line {
    if spec_pass_horizontal(from, to) {
        let sx = if from.left < to.left {
            from.right
        } else {
            from.left
        };
        let ex = if from.left < to.left {
            to.left
        } else {
            to.right
        };
        Line {
            x1: (sx + LINE_SPACING) as i64,
            y1: spec_mid_y(from) as i64,
            x2: (ex - LINE_SPACING) as i64,
            y2: spec_mid_y(to) as i64,
        }
    } else {
        let sy = if from.upper < to.upper {
            from.lower
        } else {
            from.upper
        };
        let ey = if from.upper < to.upper {
            to.upper
        } else {
            to.lower
        };
        Line {
            x1: spec_mid_x(from) as i64,
            y1: (sy + LINE_SPACING) as i64,
            x2: spec_mid_x(to) as i64,
            y2: (ey - LINE_SPACING) as i64,
        }
    }
}

/// The trunk line of a skip connection: as a horizontal pass-through
/// line, but offset by `2 * LINE_SPACING` at the source end to set it
/// apart visually.
pub open spec fn spec_skip_trunk(from: Square, to: Square) -> Line {
    let sx = if from.left < to.left {
        from.right
    } else {
        from.left
    };
    let ex = if from.left < to.left {
        to.left
    } else {
        to.right
    };
    Line {
        x1: (sx + 2 * LINE_SPACING) as i64,
        y1: spec_mid_y(from) as i64,
        x2: (ex - LINE_SPACING) as i64,
        y2: spec_mid_y(to) as i64,
    }
}

/// The `i`-th fan-out connector of a skip connection: it taps the source
/// box's facing edge, one overlay step lower per channel, and joins the
/// trunk's start point.
pub open spec fn spec_skip_connector(from: Square, to: Square, i: int) -> Line {
    let trunk = spec_skip_trunk(from, to);
    let nx = if from.left < to.left {
        from.right
    } else {
        from.left
    };
    Line {
        x1: (nx + LINE_SPACING) as i64,
        y1: (from.lower - NODE_SIZE / 2 - i * NODE_OVERLAY_STEP) as i64,
        x2: trunk.x1,
        y2: trunk.y1,
    }
}

/// The line segments drawn for one data-flow edge: none for a transform,
/// one for a pass-through, and a trunk plus `depth` connectors for a skip
/// connection.
pub open spec fn spec_edge_lines(kind: EdgeKind, from: Square, to: Square, depth: u32) -> Seq<
    Line,
> {
    match kind {
        EdgeKind::Transform => Seq::empty(),
        EdgeKind::PassTo => seq![spec_pass_line(from, to)],
        EdgeKind::SkipTo => seq![spec_skip_trunk(from, to)] + Seq::new(
            depth as nat,
            |i: int| spec_skip_connector(from, to, i),
        ),
    }
}

/// The rectangle table: one square per discovered node, at its solved
/// position, with its fixed size.
pub open spec fn spec_squares_table(
    gm: Map<usize, Node>,
    order: Seq<usize>,
    solved: Seq<(i64, i64)>,
) -> Seq<Square> {
    Seq::new(
        order.len(),
        |i: int|
            spec_square(solved[i].0, solved[i].1, spec_node_size(gm[order[i]].deep_view())),
    )
}

/// The position of an id in the discovery order (unique when the order
/// has no duplicates).
pub open spec fn spec_idx(order: Seq<usize>, id: usize) -> int {
    choose|i: int| 0 <= i < order.len() && order[i] == id
}

/// The solved rectangle of the node with the given id.
pub open spec fn spec_box_of(
    gm: Map<usize, Node>,
    order: Seq<usize>,
    solved: Seq<(i64, i64)>,
    id: usize,
) -> Square {
    spec_squares_table(gm, order, solved)[spec_idx(order, id)]
}

/// The fan-out depth of a skip connection: the first entry of the source
/// node's dimension vector.
pub open spec fn spec_depth(gm: Map<usize, Node>, id: usize) -> u32 {
    gm[id].deep_view().dimension[0]
}

/// The lines of one recorded data-flow edge.
pub open spec fn spec_lines_for(
    gm: Map<usize, Node>,
    order: Seq<usize>,
    solved: Seq<(i64, i64)>,
    e: DataFlowEdge,
) -> Seq<Line> {
    spec_edge_lines(
        e.kind,
        spec_box_of(gm, order, solved, e.from),
        spec_box_of(gm, order, solved, e.to),
        spec_depth(gm, e.from),
    )
}

/// The line table of a prefix of the data-flow edge table.
pub open spec fn spec_lines_table(
    gm: Map<usize, Node>,
    order: Seq<usize>,
    solved: Seq<(i64, i64)>,
    flows: Seq<DataFlowEdge>,
) -> Seq<Line>
    decreases flows.len(),
{
    if flows.len() == 0 {
        Seq::empty()
    } else {
        spec_lines_table(gm, order, solved, flows.drop_last()) + spec_lines_for(
            gm,
            order,
            solved,
            flows.last(),
        )
    }
}

/// Every discovered id has a node in the table.
pub open spec fn spec_ids_sized(gm: Map<usize, Node>, order: Seq<usize>) -> bool {
    forall|i: int| 0 <= i < order.len() ==> gm.contains_key(#[trigger] order[i])
}

/// Every solved position is within the accepted coordinate range.
pub open spec fn spec_solved_in_range(solved: Seq<(i64, i64)>) -> bool {
    forall|i: int|
        0 <= i < solved.len() ==> {
            &&& -COORD_LIMIT <= (#[trigger] solved[i]).0 <= COORD_LIMIT
            &&& -COORD_LIMIT <= solved[i].1 <= COORD_LIMIT
        }
}

/// The solved canvas size is within the accepted coordinate range.
pub open spec fn spec_canvas_in_range(c: (i64, i64)) -> bool {
    &&& -COORD_LIMIT <= c.0 <= COORD_LIMIT
    &&& -COORD_LIMIT <= c.1 <= COORD_LIMIT
}

/// Every recorded data-flow edge joins two discovered ids.
pub open spec fn spec_edges_resolvable(order: Seq<usize>, flows: Seq<DataFlowEdge>) -> bool {
    forall|j: int|
        0 <= j < flows.len() ==> {
            &&& order.contains((#[trigger] flows[j]).from)
            &&& order.contains(flows[j].to)
        }
}

/// Every skip-connection source that has a node declares a non-empty
/// dimension vector, so its fan-out depth is defined.
pub open spec fn spec_skip_sized(gm: Map<usize, Node>, flows: Seq<DataFlowEdge>) -> bool {
    forall|j: int|
        0 <= j < flows.len() && (#[trigger] flows[j]).kind == EdgeKind::SkipTo && gm.contains_key(
            flows[j].from,
        ) ==> gm[flows[j].from].deep_view().dimension.len() > 0
}

/// The first position of an id in a list.
fn find_index(v: &Vec<usize>, id: usize) -> (r: Option<usize>)
    ensures
        match r {
            Some(i) => i < v@.len() && v@[i as int] == id,
            None => !v@.contains(id),
        },
{
    let mut i: usize = 0;
    while i < v.len()
        invariant
            i <= v@.len(),
            forall|j: int| 0 <= j < i ==> v@[j] != id,
        decreases v@.len() - i,
    {
        if v[i] == id {
            return Some(i);
        }
        i = i + 1;
    }
    None
}

/// Half of a non-negative value.
fn half_nonneg(d: i64) -> (h: i64)
    requires
        d >= 0,
    ensures
        h == d / 2,
{
    ((d as u64) / 2) as i64
}

/// A box derived from bounded solved positions: valid on both axes and
/// within twice the coordinate limit.
pub open spec fn spec_box_in_range(s: Square) -> bool {
    &&& -COORD_LIMIT <= s.left
    &&& s.right <= 2 * COORD_LIMIT
    &&& s.left <= s.right
    &&& -COORD_LIMIT <= s.upper
    &&& s.lower <= 2 * COORD_LIMIT
    &&& s.upper <= s.lower
}

/// The fixed box size of any node stays within a narrow band.
proof fn lemma_size_bound(n: crate::graph::NodeV)
    ensures
        NODE_SIZE <= spec_node_size(n) <= 25769803830,
{
}

/// The vertical midline coordinate of a box.
fn mid_y(s: Square) -> (m: i64)
    requires
        spec_box_in_range(s),
    ensures
        m == spec_mid_y(s),
        s.upper <= m <= s.lower,
{
    let h = half_nonneg(s.lower - s.upper);
    s.upper + h
}

/// The horizontal midline coordinate of a box.
fn mid_x(s: Square) -> (m: i64)
    requires
        spec_box_in_range(s),
    ensures
        m == spec_mid_x(s),
        s.left <= m <= s.right,
{
    let h = half_nonneg(s.right - s.left);
    s.left + h
}

/// The magnitude of the gap between two bounded coordinates.
fn abs_gap(a: i64, b: i64) -> (r: i64)
    requires
        -2 * COORD_LIMIT <= a <= 2 * COORD_LIMIT,
        -2 * COORD_LIMIT <= b <= 2 * COORD_LIMIT,
    ensures
        r == spec_abs(a - b),
{
    let d = a - b;
    if d < 0 {
        -d
    } else {
        d
    }
}

/// The single line of a pass-through edge.
fn pass_line(from: Square, to: Square) -> (l: Line)
    requires
        spec_box_in_range(from),
        spec_box_in_range(to),
    ensures
        l == spec_pass_line(from, to),
{
    let hgap = abs_gap(from.left, to.left);
    let vgap = abs_gap(from.upper, to.upper);
    let horizontal = hgap >= vgap;
    if horizontal {
        let is_left = from.left < to.left;
        let sx = if is_left {
            from.right
        } else {
            from.left
        };
        let ex = if is_left {
            to.left
        } else {
            to.right
        };
        Line { x1: sx + LINE_SPACING, y1: mid_y(from), x2: ex - LINE_SPACING, y2: mid_y(to) }
    } else {
        let is_above = from.upper < to.upper;
        let sy = if is_above {
            from.lower
        } else {
            from.upper
        };
        let ey = if is_above {
            to.upper
        } else {
            to.lower
        };
        Line { x1: mid_x(from), y1: sy + LINE_SPACING, x2: mid_x(to), y2: ey - LINE_SPACING }
    }
}

/// The trunk line of a skip connection.
fn skip_trunk(from: Square, to: Square) -> (l: Line)
    requires
        spec_box_in_range(from),
        spec_box_in_range(to),
    ensures
        l == spec_skip_trunk(from, to),
{
    let is_left = from.left < to.left;
    let sx = if is_left {
        from.right
    } else {
        from.left
    };
    let ex = if is_left {
        to.left
    } else {
        to.right
    };
    Line { x1: sx + 2 * LINE_SPACING, y1: mid_y(from), x2: ex - LINE_SPACING, y2: mid_y(to) }
}

/// The `i`-th fan-out connector of a skip connection.
fn skip_connector(from: Square, to: Square, i: u32) -> (l: Line)
    requires
        spec_box_in_range(from),
        spec_box_in_range(to),
    ensures
        l == spec_skip_connector(from, to, i as int),
{
    let trunk = skip_trunk(from, to);
    let is_left = from.left < to.left;
    let nx = if is_left {
        from.right
    } else {
        from.left
    };
    Line {
        x1: nx + LINE_SPACING,
        y1: from.lower - NODE_SPACING - (i as i64) * NODE_OVERLAY_STEP,
        x2: trunk.x1,
        y2: trunk.y1,
    }
}

/// Reads the solved box positions back into rectangles and derives the
/// routed lines of every drawn data-flow edge.
///
/// `solved` carries one `(left, upper)` pair per id of `d.order`, in
/// order; the remaining two box coordinates follow from the required
/// size equalities. Rejects positions outside the accepted coordinate
/// range, and reports an internal-consistency fault when a recorded id
/// has no node or no solved box.
#[verifier::loop_isolation(false)]
pub fn finish_layout(
    graph: &DLVis,
    d: &Discovery,
    solved: &Vec<(i64, i64)>,
    canvas: (i64, i64),
) -> (r: Result<Layout, LayoutError>)
    requires
        d.order@.no_duplicates(),
        spec_skip_sized(graph.nodes@, d.flow_edges@),
    ensures
        r is Ok <==> {
            &&& solved@.len() == d.order@.len()
            &&& spec_canvas_in_range(canvas)
            &&& spec_solved_in_range(solved@)
            &&& spec_ids_sized(graph.nodes@, d.order@)
            &&& spec_edges_resolvable(d.order@, d.flow_edges@)
        },
        match r {
            Ok(l) => {
                &&& l.width == canvas.0
                &&& l.height == canvas.1
                &&& l.squares@ == spec_squares_table(graph.nodes@, d.order@, solved@)
                &&& l.lines@ == spec_lines_table(
                    graph.nodes@,
                    d.order@,
                    solved@,
                    d.flow_edges@,
                )
                &&& forall|i: int|
                    0 <= i < l.squares@.len() ==> spec_square_valid(
                        #[trigger] l.squares@[i],
                        spec_node_size(graph.nodes@[d.order@[i]].deep_view()),
                    )
            },
            Err(LayoutError::SolvedLengthMismatch) => solved@.len() != d.order@.len(),
            Err(LayoutError::CanvasOutOfRange) => !spec_canvas_in_range(canvas),
            Err(LayoutError::BoxOutOfRange(id)) => exists|i: int|
                0 <= i < d.order@.len() && #[trigger] d.order@[i] == id && !(-COORD_LIMIT
                    <= solved@[i].0 <= COORD_LIMIT && -COORD_LIMIT <= solved@[i].1
                    <= COORD_LIMIT),
            Err(LayoutError::Inconsistent(id)) => {
                ||| d.order@.contains(id) && !graph.nodes@.contains_key(id)
                ||| !d.order@.contains(id) && exists|q: int|
                    0 <= q < d.flow_edges@.len() && ((#[trigger] d.flow_edges@[q]).from == id
                        || d.flow_edges@[q].to == id)
            },
        },
{
    let ghost gm = graph.nodes@;
    let n = d.order.len();
    if solved.len() != n {
        return Err(LayoutError::SolvedLengthMismatch);
    }
    if canvas.0 < -COORD_LIMIT || canvas.0 > COORD_LIMIT || canvas.1 < -COORD_LIMIT || canvas.1
        > COORD_LIMIT {
        return Err(LayoutError::CanvasOutOfRange);
    }
    // one rectangle per discovered node, snapped to its fixed size
    let mut squares: Vec<Square> = Vec::new();
    let mut i: usize = 0;
    while i < n
        invariant
            i <= n,
            n == d.order@.len(),
            solved@.len() == n,
            squares@.len() == i,
            forall|j: int| 0 <= j < i ==> gm.contains_key(#[trigger] d.order@[j]),
            forall|j: int|
                0 <= j < i ==> {
                    &&& -COORD_LIMIT <= (#[trigger] solved@[j]).0 <= COORD_LIMIT
                    &&& -COORD_LIMIT <= solved@[j].1 <= COORD_LIMIT
                },
            forall|j: int|
                0 <= j < i ==> #[trigger] squares@[j] == spec_squares_table(
                    gm,
                    d.order@,
                    solved@,
                )[j],
        decreases n - i,
    {
        let p = solved[i];
        let id = d.order[i];
        if p.0 < -COORD_LIMIT || p.0 > COORD_LIMIT || p.1 < -COORD_LIMIT || p.1 > COORD_LIMIT {
            return Err(LayoutError::BoxOutOfRange(id));
        }
        let node = match graph.get_node(id) {
            Some(nd) => nd,
            None => {
                proof {
                    assert(d.order@.contains(d.order@[i as int]));
                }
                return Err(LayoutError::Inconsistent(id));
            },
        };
        let size = node_size(node);
        proof {
            lemma_size_bound(node.deep_view());
        }
        squares.push(Square { left: p.0, right: p.0 + size, upper: p.1, lower: p.1 + size });
        i = i + 1;
    }
    proof {
        assert(squares@ =~= spec_squares_table(gm, d.order@, solved@));
    }
    // routed lines, one entry of the data-flow table at a time
    let mut lines: Vec<Line> = Vec::new();
    let mut j: usize = 0;
    while j < d.flow_edges.len()
        invariant
            j <= d.flow_edges@.len(),
            lines@ == spec_lines_table(gm, d.order@, solved@, d.flow_edges@.take(j as int)),
            forall|q: int|
                0 <= q < j ==> {
                    &&& d.order@.contains((#[trigger] d.flow_edges@[q]).from)
                    &&& d.order@.contains(d.flow_edges@[q].to)
                },
        decreases d.flow_edges@.len() - j,
    {
        let e = d.flow_edges[j];
        let fi = match find_index(&d.order, e.from) {
            Some(x) => x,
            None => {
                proof {
                    assert(d.flow_edges@[j as int].from == e.from);
                }
                return Err(LayoutError::Inconsistent(e.from));
            },
        };
        let ti = match find_index(&d.order, e.to) {
            Some(x) => x,
            None => {
                proof {
                    assert(d.flow_edges@[j as int].to == e.to);
                }
                return Err(LayoutError::Inconsistent(e.to));
            },
        };
        let fb = squares[fi];
        let tb = squares[ti];
        proof {
            assert(d.order@.contains(d.order@[fi as int]));
            assert(d.order@.contains(d.order@[ti as int]));
            let cf = spec_idx(d.order@, e.from);
            assert(0 <= cf < d.order@.len() && d.order@[cf] == e.from);
            if cf != fi as int {
                assert(d.order@[cf] != d.order@[fi as int]);
            }
            let ct = spec_idx(d.order@, e.to);
            assert(0 <= ct < d.order@.len() && d.order@[ct] == e.to);
            if ct != ti as int {
                assert(d.order@[ct] != d.order@[ti as int]);
            }
            assert(fb == spec_box_of(gm, d.order@, solved@, e.from));
            assert(tb == spec_box_of(gm, d.order@, solved@, e.to));
            lemma_size_bound(gm[e.from].deep_view());
            lemma_size_bound(gm[e.to].deep_view());
            assert(spec_box_in_range(fb));
            assert(spec_box_in_range(tb));
        }
        let ghost lines0 = lines@;
        match e.kind {
            EdgeKind::Transform => {},
            EdgeKind::PassTo => {
                lines.push(pass_line(fb, tb));
            },
            EdgeKind::SkipTo => {
                let node = match graph.get_node(e.from) {
                    Some(nd) => nd,
                    None => {
                        proof {
                            assert(d.order@.contains(e.from));
                        }
                        return Err(LayoutError::Inconsistent(e.from));
                    },
                };
                proof {
                    assert(d.flow_edges@[j as int].kind == EdgeKind::SkipTo);
                    assert(node.deep_view().dimension.len() > 0);
                }
                let depth = node.dimension[0];
                lines.push(skip_trunk(fb, tb));
                let mut ci: u32 = 0;
                while ci < depth
                    invariant
                        ci <= depth,
                        spec_box_in_range(fb),
                        spec_box_in_range(tb),
                        lines@ == lines0 + seq![spec_skip_trunk(fb, tb)] + Seq::new(
                            ci as nat,
                            |q: int| spec_skip_connector(fb, tb, q),
                        ),
                    decreases depth - ci,
                {
                    lines.push(skip_connector(fb, tb, ci));
                    proof {
                        assert(lines@ =~= lines0 + seq![spec_skip_trunk(fb, tb)] + Seq::new(
                            ci as nat + 1,
                            |q: int| spec_skip_connector(fb, tb, q),
                        ));
                    }
                    ci = ci + 1;
                }
                proof {
                    assert(depth == spec_depth(gm, e.from));
                    assert(lines@ =~= lines0 + spec_lines_for(gm, d.order@, solved@, e));
                }
            },
        }
        proof {
            let pref = d.flow_edges@.take(j as int + 1);
            assert(pref.drop_last() =~= d.flow_edges@.take(j as int));
            assert(pref.last() == d.flow_edges@[j as int]);
            assert(lines@ =~= spec_lines_table(gm, d.order@, solved@, pref));
        }
        j = j + 1;
    }
    proof {
        assert(d.flow_edges@.take(d.flow_edges@.len() as int) =~= d.flow_edges@);
        assert forall|i2: int|
            0 <= i2 < squares@.len() implies spec_square_valid(
            #[trigger] squares@[i2],
            spec_node_size(gm[d.order@[i2]].deep_view()),
        ) by {
            lemma_size_bound(gm[d.order@[i2]].deep_view());
        }
    }
    Ok(Layout { width: canvas.0, height: canvas.1, squares, lines })
}

/// Routing policy: when the horizontal gap between the boxes' left edges
/// is at least the vertical gap of their upper edges, the pass-through
/// line is horizontal, else vertical. The line joins the two boxes'
/// midlines, so it is exactly axis-parallel when those midlines agree —
/// as the weak alignment constraints arrange for aligned chains; two
/// boxes whose midlines differ give a slanted line instead.
pub proof fn lemma_pass_routing_policy(from: Square, to: Square)
    requires
        spec_box_in_range(from),
        spec_box_in_range(to),
    ensures
        spec_pass_horizontal(from, to) && spec_mid_y(from) == spec_mid_y(to)
            ==> spec_pass_line(from, to).y1 == spec_pass_line(from, to).y2,
        !spec_pass_horizontal(from, to) && spec_mid_x(from) == spec_mid_x(to)
            ==> spec_pass_line(from, to).x1 == spec_pass_line(from, to).x2,
{
    assert(0 <= (from.lower - from.upper) / 2 <= from.lower - from.upper);
    assert(0 <= (to.lower - to.upper) / 2 <= to.lower - to.upper);
    assert(0 <= (from.right - from.left) / 2 <= from.right - from.left);
    assert(0 <= (to.right - to.left) / 2 <= to.right - to.left);
}

/// Fan-out: a skip connection draws one trunk line plus one connector
/// per unit of the source node's first dimension entry; a pass-through
/// draws one line; a transform draws nothing.
pub proof fn lemma_edge_line_counts(from: Square, to: Square, depth: u32)
    ensures
        spec_edge_lines(EdgeKind::SkipTo, from, to, depth).len() == 1 + depth,
        spec_edge_lines(EdgeKind::PassTo, from, to, depth).len() == 1,
        spec_edge_lines(EdgeKind::Transform, from, to, depth).len() == 0,
{
}

/// The value a solved layout gives to one solver variable: the canvas
/// size for the canvas variables; for a discovered node's box, the
/// solved position on the left/upper side and the position plus the
/// fixed size on the right/lower side.
pub open spec fn spec_var_value(
    gm: Map<usize, Node>,
    order: Seq<usize>,
    solved: Seq<(i64, i64)>,
    canvas: (i64, i64),
    v: Var,
) -> int {
    match v {
        Var::CanvasWidth => canvas.0 as int,
        Var::CanvasHeight => canvas.1 as int,
        Var::BoxLeft(id) => if order.contains(id) {
            solved[spec_idx(order, id)].0 as int
        } else {
            0
        },
        Var::BoxRight(id) => if order.contains(id) {
            solved[spec_idx(order, id)].0 + spec_node_size(gm[id].deep_view())
        } else {
            0
        },
        Var::BoxUpper(id) => if order.contains(id) {
            solved[spec_idx(order, id)].1 as int
        } else {
            0
        },
        Var::BoxLower(id) => if order.contains(id) {
            solved[spec_idx(order, id)].1 + spec_node_size(gm[id].deep_view())
        } else {
            0
        },
    }
}

/// The assignment of every solver variable that a solved layout induces.
pub open spec fn spec_assignment(
    gm: Map<usize, Node>,
    order: Seq<usize>,
    solved: Seq<(i64, i64)>,
    canvas: (i64, i64),
) -> Map<Var, int> {
    Map::total(|v: Var| spec_var_value(gm, order, solved, canvas, v))
}

/// The extraction leaves box positions where the structural solve fixed
/// them: the assignment induced by the solved positions and the snapped
/// box sizes satisfies every required box constraint of the structural
/// system.
pub proof fn lemma_extraction_meets_box_constraints(
    gm: Map<usize, Node>,
    order: Seq<usize>,
    solved: Seq<(i64, i64)>,
    canvas: (i64, i64),
)
    requires
        order.no_duplicates(),
        solved.len() == order.len(),
    ensures
        spec_plan_holds_at(
            spec_box_cs(gm, order),
            spec_assignment(gm, order, solved, canvas),
            Strength::Required,
        ),
{
    let cs = spec_box_cs(gm, order);
    let m = spec_assignment(gm, order, solved, canvas);
    lemma_box_cs_len(gm, order);
    assert forall|i: int|
        0 <= i < cs.len() && spec_rank((#[trigger] cs[i]).strength) >= spec_rank(
            Strength::Required,
        ) implies spec_holds(cs[i], m) by {
        let k = i / 4;
        let j = i % 4;
        assert(0 <= k < order.len());
        assert(0 <= j < 4);
        assert(4 * k + j == i);
        lemma_box_cs_index(gm, order, k);
        let id = order[k];
        let size = spec_node_size(gm[id].deep_view());
        assert(cs[i] == spec_box_cs_of(id, size)[j]);
        assert(order.contains(id));
        let ci = spec_idx(order, id);
        assert(0 <= ci < order.len() && order[ci] == id);
        if ci != k {
            assert(order[ci] != order[k]);
        }
        lemma_size_bound(gm[id].deep_view());
        assert(m[Var::BoxLeft(id)] == solved[k].0 as int);
        assert(m[Var::BoxRight(id)] == solved[k].0 + size);
        assert(m[Var::BoxUpper(id)] == solved[k].1 as int);
        assert(m[Var::BoxLower(id)] == solved[k].1 + size);
        if j == 0 {
            lemma_eval_var(Var::BoxLeft(id), m);
            lemma_eval_var(Var::BoxRight(id), m);
        } else if j == 1 {
            lemma_eval_var(Var::BoxUpper(id), m);
            lemma_eval_var(Var::BoxLower(id), m);
        } else if j == 2 {
            lemma_eval_diff(Var::BoxRight(id), Var::BoxLeft(id), m);
            lemma_eval_const(size as i64, m);
        } else {
            lemma_eval_diff(Var::BoxLower(id), Var::BoxUpper(id), m);
            lemma_eval_const(size as i64, m);
        }
    }
}

/// One rectangle per reachable node: a rectangle table built over a
/// discovery order has exactly as many entries as there are nodes
/// reachable from the start, each counted once.
pub proof fn lemma_one_square_per_reachable_node(
    gm: Map<usize, Node>,
    s: usize,
    order: Seq<usize>,
    solved: Seq<(i64, i64)>,
    squares: Seq<Square>,
)
    requires
        squares == spec_squares_table(gm, order, solved),
        order.no_duplicates(),
        forall|b: usize|
            #[trigger] order.contains(b) <==> crate::discover::spec_reachable(gm, s, b),
        forall|i: int| 0 <= i < order.len() ==> gm.contains_key(#[trigger] order[i]),
        gm.dom().finite(),
    ensures
        squares.len() == crate::discover::spec_reachable_set(gm, s).len(),
{
    crate::discover::lemma_discovery_counts(gm, s, order);
}

/// Idempotence of the read-back: two layouts produced from the same node
/// table, discovery order, data-flow table, solved positions and canvas
/// size carry the same rectangles, lines and canvas. Together with the
/// exact tables in [`finish_layout`]'s postcondition, re-running the
/// layout on the same inputs yields the same coordinates; the one step
/// this cannot speak for is the external solve that produced `solved`.
pub proof fn lemma_layout_idempotent(
    gm: Map<usize, Node>,
    order: Seq<usize>,
    solved: Seq<(i64, i64)>,
    flows: Seq<DataFlowEdge>,
    canvas: (i64, i64),
    l1: Layout,
    l2: Layout,
)
    requires
        l1.squares@ == spec_squares_table(gm, order, solved),
        l2.squares@ == spec_squares_table(gm, order, solved),
        l1.lines@ == spec_lines_table(gm, order, solved, flows),
        l2.lines@ == spec_lines_table(gm, order, solved, flows),
        l1.width == canvas.0 && l2.width == canvas.0,
        l1.height == canvas.1 && l2.height == canvas.1,
    ensures
        l1.squares@ == l2.squares@,
        l1.lines@ == l2.lines@,
        l1.width == l2.width,
        l1.height == l2.height,
{
}

} // verus!
