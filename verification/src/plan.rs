//! The symbolic linear-constraint system the layout engine hands to an
//! incremental solver: variables named after the boxes they position,
//! constraints as linear expressions related at a priority, and the
//! canvas-size edit suggestions.
use vstd::prelude::*;
use crate::graph::{DLVis, Node, NodeV};
use crate::discover::{AlignmentEdge, Discovery};
use crate::{NODE_SIZE, NODE_SPACING, NODE_OVERLAY_STEP};

verus! {

broadcast use vstd::std_specs::hash::group_hash_axioms;

/// A solver variable, named after what it positions.
#[derive(PartialEq, Eq, Structural, Debug, Copy, Clone, Hash)]
pub enum Var {
    CanvasWidth,
    CanvasHeight,
    BoxLeft(usize),
    BoxRight(usize),
    BoxUpper(usize),
    BoxLower(usize),
}

/// A constraint priority, ordered from weakest to required.
#[derive(PartialEq, Eq, Structural, Debug, Copy, Clone)]
pub enum Strength {
    Weak,
    Medium,
    Strong,
    Required,
}

/// The relation between the two sides of a constraint.
#[derive(PartialEq, Eq, Structural, Debug, Copy, Clone)]
pub enum Rel {
    Le,
    Eq,
    Ge,
}

/// One term of a linear expression.
#[derive(PartialEq, Eq, Structural, Debug, Copy, Clone)]
pub struct Term {
    pub coeff: i64,
    pub var: Var,
}

impl DeepView for Term {
    type V = Term;

    open spec fn deep_view(&self) -> Term {
        *self
    }
}

/// A linear expression: a sum of terms plus a constant.
#[derive(Debug)]
pub struct LinExpr {
    pub terms: Vec<Term>,
    pub constant: i64,
}

/// Mathematical value of a `LinExpr`.
#[verifier::ext_equal]
pub struct LinExprV {
    pub terms: Seq<Term>,
    pub constant: i64,
}

impl DeepView for LinExpr {
    type V = LinExprV;

    open spec fn deep_view(&self) -> LinExprV {
        LinExprV { terms: self.terms@, constant: self.constant }
    }
}

/// One constraint: `lhs rel rhs`, tagged with a priority.
#[derive(Debug)]
pub struct Constraint {
    pub lhs: LinExpr,
    pub rel: Rel,
    pub rhs: LinExpr,
    pub strength: Strength,
}

/// Mathematical value of a `Constraint`.
#[verifier::ext_equal]
pub struct ConstraintV {
    pub lhs: LinExprV,
    pub rel: Rel,
    pub rhs: LinExprV,
    pub strength: Strength,
}

impl DeepView for Constraint {
    type V = ConstraintV;

    open spec fn deep_view(&self) -> ConstraintV {
        ConstraintV {
            lhs: self.lhs.deep_view(),
            rel: self.rel,
            rhs: self.rhs.deep_view(),
            strength: self.strength,
        }
    }
}

/// A canvas-size edit registration: the variable, its edit priority, and
/// the suggested value.
#[derive(PartialEq, Eq, Structural, Debug, Copy, Clone)]
pub struct EditVar {
    pub var: Var,
    pub strength: Strength,
    pub value: i64,
}

/// The full constraint system for one layout: structural constraints in a
/// fixed order, and the canvas edit suggestions.
#[derive(Debug)]
pub struct ConstraintPlan {
    pub constraints: Vec<Constraint>,
    pub edits: Vec<EditVar>,
}

/// The four solver variables of one node's box.
#[derive(PartialEq, Eq, Structural, Debug, Copy, Clone)]
pub struct NodeVariable {
    pub left: Var,
    pub right: Var,
    pub upper: Var,
    pub lower: Var,
}

/// The box variables of the node with the given id.
pub open spec fn spec_node_variable(id: usize) -> NodeVariable {
    NodeVariable {
        left: Var::BoxLeft(id),
        right: Var::BoxRight(id),
        upper: Var::BoxUpper(id),
        lower: Var::BoxLower(id),
    }
}

impl NodeVariable {
    /// The box variables of the node with the given id.
    pub fn new(id: usize) -> (v: NodeVariable)
        ensures
            v == spec_node_variable(id),
    {
        NodeVariable {
            left: Var::BoxLeft(id),
            right: Var::BoxRight(id),
            upper: Var::BoxUpper(id),
            lower: Var::BoxLower(id),
        }
    }
}

/// Start-node pinning flags and the suggested canvas size.
#[derive(PartialEq, Eq, Structural, Debug, Copy, Clone)]
pub struct LayoutOptions {
    pub align_left: bool,
    pub align_right: bool,
    pub align_up: bool,
    pub align_down: bool,
    pub canvas_width: i64,
    pub canvas_height: i64,
}

/// The default suggested canvas width.
pub const DEFAULT_CANVAS_WIDTH: i64 = 1280;

/// The default suggested canvas height.
pub const DEFAULT_CANVAS_HEIGHT: i64 = 600;

impl LayoutOptions {
    /// No pinning, default canvas suggestion.
    pub fn new() -> (o: LayoutOptions)
        ensures
            o == (LayoutOptions {
                align_left: false,
                align_right: false,
                align_up: false,
                align_down: false,
                canvas_width: DEFAULT_CANVAS_WIDTH,
                canvas_height: DEFAULT_CANVAS_HEIGHT,
            }),
    {
        LayoutOptions {
            align_left: false,
            align_right: false,
            align_up: false,
            align_down: false,
            canvas_width: DEFAULT_CANVAS_WIDTH,
            canvas_height: DEFAULT_CANVAS_HEIGHT,
        }
    }
}

/// A failure while building or reading back a layout.
#[derive(PartialEq, Eq, Structural, Debug, Copy, Clone)]
pub enum LayoutError {
    /// A recorded edge or box names an id the node table does not have:
    /// an internal-consistency fault.
    Inconsistent(usize),
    /// The solved positions do not carry one entry per discovered node.
    SolvedLengthMismatch,
    /// A solved canvas size is outside the accepted coordinate range.
    CanvasOutOfRange,
    /// A solved box position is outside the accepted coordinate range.
    BoxOutOfRange(usize),
}

/// A linear expression of one variable.
pub open spec fn cv_var(v: Var) -> LinExprV {
    LinExprV { terms: seq![Term { coeff: 1, var: v }], constant: 0 }
}

/// A constant linear expression.
pub open spec fn cv_const(k: i64) -> LinExprV {
    LinExprV { terms: Seq::empty(), constant: k }
}

/// The difference of two variables, `a - b`.
pub open spec fn cv_diff(a: Var, b: Var) -> LinExprV {
    LinExprV { terms: seq![Term { coeff: 1, var: a }, Term { coeff: -1i64, var: b }], constant: 0 }
}

/// The numeric rank of a priority.
pub open spec fn spec_rank(s: Strength) -> int {
    match s {
        Strength::Weak => 0,
        Strength::Medium => 1,
        Strength::Strong => 2,
        Strength::Required => 3,
    }
}

/// The value of a term sum under an assignment of the variables.
pub open spec fn spec_eval_terms(ts: Seq<Term>, m: Map<Var, int>) -> int
    decreases ts.len(),
{
    if ts.len() == 0 {
        0
    } else {
        spec_eval_terms(ts.drop_last(), m) + ts.last().coeff * m[ts.last().var]
    }
}

/// The value of a linear expression under an assignment.
pub open spec fn spec_eval(e: LinExprV, m: Map<Var, int>) -> int {
    e.constant + spec_eval_terms(e.terms, m)
}

/// Whether an assignment satisfies one constraint.
pub open spec fn spec_holds(c: ConstraintV, m: Map<Var, int>) -> bool {
    match c.rel {
        Rel::Le => spec_eval(c.lhs, m) <= spec_eval(c.rhs, m),
        Rel::Eq => spec_eval(c.lhs, m) == spec_eval(c.rhs, m),
        Rel::Ge => spec_eval(c.lhs, m) >= spec_eval(c.rhs, m),
    }
}

/// Whether an assignment satisfies every constraint at or above a
/// priority level.
pub open spec fn spec_plan_holds_at(cs: Seq<ConstraintV>, m: Map<Var, int>, level: Strength) -> bool {
    forall|i: int|
        0 <= i < cs.len() && spec_rank((#[trigger] cs[i]).strength) >= spec_rank(level)
            ==> spec_holds(cs[i], m)
}

/// The canvas-validity constraints: non-negative width and height.
pub open spec fn spec_base_cs() -> Seq<ConstraintV> {
    seq![
        ConstraintV {
            lhs: cv_var(Var::CanvasWidth),
            rel: Rel::Ge,
            rhs: cv_const(0),
            strength: Strength::Required,
        },
        ConstraintV {
            lhs: cv_var(Var::CanvasHeight),
            rel: Rel::Ge,
            rhs: cv_const(0),
            strength: Strength::Required,
        },
    ]
}

/// The pin constraints for the start node, one per set flag, in the
/// fixed order left, right, up, down.
pub open spec fn spec_pin_cs(opts: LayoutOptions, start: usize) -> Seq<ConstraintV> {
    (if opts.align_left {
        seq![
            ConstraintV {
                lhs: cv_var(Var::BoxLeft(start)),
                rel: Rel::Eq,
                rhs: cv_const(0),
                strength: Strength::Required,
            },
        ]
    } else {
        Seq::empty()
    }) + (if opts.align_right {
        seq![
            ConstraintV {
                lhs: cv_var(Var::BoxRight(start)),
                rel: Rel::Eq,
                rhs: cv_var(Var::CanvasWidth),
                strength: Strength::Required,
            },
        ]
    } else {
        Seq::empty()
    }) + (if opts.align_up {
        seq![
            ConstraintV {
                lhs: cv_var(Var::BoxUpper(start)),
                rel: Rel::Eq,
                rhs: cv_const(0),
                strength: Strength::Required,
            },
        ]
    } else {
        Seq::empty()
    }) + (if opts.align_down {
        seq![
            ConstraintV {
                lhs: cv_var(Var::BoxLower(start)),
                rel: Rel::Eq,
                rhs: cv_var(Var::CanvasHeight),
                strength: Strength::Required,
            },
        ]
    } else {
        Seq::empty()
    })
}

/// The three constraints recorded for one alignment edge: a required
/// ordering of the facing box edges, a strong minimum gap of
/// `NODE_SPACING`, and a weak cross-axis alignment.
pub open spec fn spec_align_cs_of(e: AlignmentEdge) -> Seq<ConstraintV> {
    match e.direction {
        crate::graph::Neighbors::Left => seq![
            ConstraintV {
                lhs: cv_var(Var::BoxRight(e.from)),
                rel: Rel::Le,
                rhs: cv_var(Var::BoxLeft(e.to)),
                strength: Strength::Required,
            },
            ConstraintV {
                lhs: cv_diff(Var::BoxLeft(e.to), Var::BoxRight(e.from)),
                rel: Rel::Ge,
                rhs: cv_const(NODE_SPACING),
                strength: Strength::Strong,
            },
            ConstraintV {
                lhs: cv_var(Var::BoxUpper(e.from)),
                rel: Rel::Eq,
                rhs: cv_var(Var::BoxUpper(e.to)),
                strength: Strength::Weak,
            },
        ],
        crate::graph::Neighbors::Right => seq![
            ConstraintV {
                lhs: cv_var(Var::BoxLeft(e.from)),
                rel: Rel::Ge,
                rhs: cv_var(Var::BoxRight(e.to)),
                strength: Strength::Required,
            },
            ConstraintV {
                lhs: cv_diff(Var::BoxLeft(e.from), Var::BoxRight(e.to)),
                rel: Rel::Ge,
                rhs: cv_const(NODE_SPACING),
                strength: Strength::Strong,
            },
            ConstraintV {
                lhs: cv_var(Var::BoxUpper(e.from)),
                rel: Rel::Eq,
                rhs: cv_var(Var::BoxUpper(e.to)),
                strength: Strength::Weak,
            },
        ],
        crate::graph::Neighbors::Above => seq![
            ConstraintV {
                lhs: cv_var(Var::BoxLower(e.from)),
                rel: Rel::Le,
                rhs: cv_var(Var::BoxUpper(e.to)),
                strength: Strength::Required,
            },
            ConstraintV {
                lhs: cv_diff(Var::BoxUpper(e.to), Var::BoxLower(e.from)),
                rel: Rel::Ge,
                rhs: cv_const(NODE_SPACING),
                strength: Strength::Strong,
            },
            ConstraintV {
                lhs: cv_var(Var::BoxLeft(e.from)),
                rel: Rel::Eq,
                rhs: cv_var(Var::BoxLeft(e.to)),
                strength: Strength::Weak,
            },
        ],
        crate::graph::Neighbors::Below => seq![
            ConstraintV {
                lhs: cv_var(Var::BoxUpper(e.from)),
                rel: Rel::Ge,
                rhs: cv_var(Var::BoxLower(e.to)),
                strength: Strength::Required,
            },
            ConstraintV {
                lhs: cv_diff(Var::BoxUpper(e.from), Var::BoxLower(e.to)),
                rel: Rel::Ge,
                rhs: cv_const(NODE_SPACING),
                strength: Strength::Strong,
            },
            ConstraintV {
                lhs: cv_var(Var::BoxLeft(e.from)),
                rel: Rel::Eq,
                rhs: cv_var(Var::BoxLeft(e.to)),
                strength: Strength::Weak,
            },
        ],
    }
}

/// The alignment constraints of a table of edges, in table order.
pub open spec fn spec_align_cs(edges: Seq<AlignmentEdge>) -> Seq<ConstraintV>
    decreases edges.len(),
{
    if edges.len() == 0 {
        Seq::empty()
    } else {
        spec_align_cs(edges.drop_last()) + spec_align_cs_of(edges.last())
    }
}

/// The fixed box size of a node: the base size, plus one overlay step per
/// unit of the first dimension entry when the dimension vector has more
/// than three entries.
pub open spec fn spec_node_size(n: NodeV) -> int {
    if n.dimension.len() > 3 {
        NODE_SIZE + NODE_OVERLAY_STEP * n.dimension[0]
    } else {
        NODE_SIZE as int
    }
}

/// The four box constraints of one node: validity of both axes and the
/// fixed size on both axes, all required.
pub open spec fn spec_box_cs_of(id: usize, size: int) -> Seq<ConstraintV> {
    seq![
        ConstraintV {
            lhs: cv_var(Var::BoxLeft(id)),
            rel: Rel::Le,
            rhs: cv_var(Var::BoxRight(id)),
            strength: Strength::Required,
        },
        ConstraintV {
            lhs: cv_var(Var::BoxUpper(id)),
            rel: Rel::Le,
            rhs: cv_var(Var::BoxLower(id)),
            strength: Strength::Required,
        },
        ConstraintV {
            lhs: cv_diff(Var::BoxRight(id), Var::BoxLeft(id)),
            rel: Rel::Eq,
            rhs: cv_const(size as i64),
            strength: Strength::Required,
        },
        ConstraintV {
            lhs: cv_diff(Var::BoxLower(id), Var::BoxUpper(id)),
            rel: Rel::Eq,
            rhs: cv_const(size as i64),
            strength: Strength::Required,
        },
    ]
}

/// The box constraints of every discovered node, in discovery order.
pub open spec fn spec_box_cs(gm: Map<usize, Node>, order: Seq<usize>) -> Seq<ConstraintV>
    decreases order.len(),
{
    if order.len() == 0 {
        Seq::empty()
    } else {
        spec_box_cs(gm, order.drop_last()) + spec_box_cs_of(
            order.last(),
            spec_node_size(gm[order.last()].deep_view()),
        )
    }
}

/// The whole structural constraint system, in the order it is built:
/// canvas validity, pins, alignment constraints, box constraints.
pub open spec fn spec_structural_cs(
    gm: Map<usize, Node>,
    order: Seq<usize>,
    edges: Seq<AlignmentEdge>,
    opts: LayoutOptions,
    start: usize,
) -> Seq<ConstraintV> {
    spec_base_cs() + spec_pin_cs(opts, start) + spec_align_cs(edges) + spec_box_cs(gm, order)
}

/// The canvas edit registrations: width then height, both strong, with
/// the suggested values.
pub open spec fn spec_edits(opts: LayoutOptions) -> Seq<EditVar> {
    seq![
        EditVar { var: Var::CanvasWidth, strength: Strength::Strong, value: opts.canvas_width },
        EditVar { var: Var::CanvasHeight, strength: Strength::Strong, value: opts.canvas_height },
    ]
}

/// An expression of one variable.
fn e_var(v: Var) -> (e: LinExpr)
    ensures
        e.deep_view() == cv_var(v),
{
    let mut terms: Vec<Term> = Vec::new();
    terms.push(Term { coeff: 1, var: v });
    let e = LinExpr { terms, constant: 0 };
    proof {
        assert(e.deep_view() =~= cv_var(v));
    }
    e
}

/// A constant expression.
fn e_const(k: i64) -> (e: LinExpr)
    ensures
        e.deep_view() == cv_const(k),
{
    let e = LinExpr { terms: Vec::new(), constant: k };
    proof {
        assert(e.deep_view() =~= cv_const(k));
    }
    e
}

/// The difference of two variables, `a - b`.
fn e_diff(a: Var, b: Var) -> (e: LinExpr)
    ensures
        e.deep_view() == cv_diff(a, b),
{
    let mut terms: Vec<Term> = Vec::new();
    terms.push(Term { coeff: 1, var: a });
    terms.push(Term { coeff: -1, var: b });
    let e = LinExpr { terms, constant: 0 };
    proof {
        assert(e.deep_view() =~= cv_diff(a, b));
    }
    e
}

/// The fixed box size of a node.
pub fn node_size(n: &Node) -> (s: i64)
    ensures
        s == spec_node_size(n.deep_view()),
        NODE_SIZE <= s,
{
    if n.dimension.len() > 3 {
        let d0 = n.dimension[0];
        NODE_SIZE + NODE_OVERLAY_STEP * (d0 as i64)
    } else {
        NODE_SIZE
    }
}

/// The constraint triple of an edge has three entries.
proof fn lemma_align_of_len(e: AlignmentEdge)
    ensures
        spec_align_cs_of(e).len() == 3,
{
    match e.direction {
        crate::graph::Neighbors::Left => {},
        crate::graph::Neighbors::Right => {},
        crate::graph::Neighbors::Above => {},
        crate::graph::Neighbors::Below => {},
    }
}

/// The alignment table holds three constraints per edge.
proof fn lemma_align_cs_len(edges: Seq<AlignmentEdge>)
    ensures
        spec_align_cs(edges).len() == 3 * edges.len(),
    decreases edges.len(),
{
    if edges.len() > 0 {
        lemma_align_cs_len(edges.drop_last());
        lemma_align_of_len(edges.last());
    }
}

/// The `k`-th edge's triple sits at offset `3 * k` of the alignment table.
proof fn lemma_align_cs_index(edges: Seq<AlignmentEdge>, k: int)
    requires
        0 <= k < edges.len(),
    ensures
        forall|j: int|
            0 <= j < 3 ==> spec_align_cs(edges)[3 * k + j] == spec_align_cs_of(edges[k])[j],
    decreases edges.len(),
{
    lemma_align_cs_len(edges);
    lemma_align_cs_len(edges.drop_last());
    lemma_align_of_len(edges.last());
    if k < edges.len() - 1 {
        lemma_align_cs_index(edges.drop_last(), k);
        assert(edges.drop_last()[k] == edges[k]);
    }
}

/// The value of a one-variable expression.
pub proof fn lemma_eval_var(v: Var, m: Map<Var, int>)
    ensures
        spec_eval(cv_var(v), m) == m[v],
{
    let ts = cv_var(v).terms;
    assert(ts.drop_last() =~= Seq::<Term>::empty());
    assert(spec_eval_terms(ts.drop_last(), m) == 0);
    assert(spec_eval_terms(ts, m) == 1 * m[v]);
}

/// The value of the difference of two variables.
pub proof fn lemma_eval_diff(a: Var, b: Var, m: Map<Var, int>)
    ensures
        spec_eval(cv_diff(a, b), m) == m[a] - m[b],
{
    let ts = cv_diff(a, b).terms;
    assert(ts.drop_last() =~= seq![Term { coeff: 1, var: a }]);
    assert(ts.drop_last().drop_last() =~= Seq::<Term>::empty());
    assert(spec_eval_terms(ts.drop_last().drop_last(), m) == 0);
    assert(spec_eval_terms(ts.drop_last(), m) == 1 * m[a]);
    assert(spec_eval_terms(ts, m) == 1 * m[a] + (-1) * m[b]);
}

/// The value of a constant expression.
pub proof fn lemma_eval_const(k: i64, m: Map<Var, int>)
    ensures
        spec_eval(cv_const(k), m) == k,
{
    assert(spec_eval_terms(cv_const(k).terms, m) == 0);
}

/// The box-constraint table holds four constraints per discovered node.
pub proof fn lemma_box_cs_len(gm: Map<usize, Node>, order: Seq<usize>)
    ensures
        spec_box_cs(gm, order).len() == 4 * order.len(),
    decreases order.len(),
{
    if order.len() > 0 {
        lemma_box_cs_len(gm, order.drop_last());
    }
}

/// The `k`-th node's quad sits at offset `4 * k` of the box table.
pub proof fn lemma_box_cs_index(gm: Map<usize, Node>, order: Seq<usize>, k: int)
    requires
        0 <= k < order.len(),
    ensures
        forall|j: int|
            0 <= j < 4 ==> spec_box_cs(gm, order)[4 * k + j] == spec_box_cs_of(
                order[k],
                spec_node_size(gm[order[k]].deep_view()),
            )[j],
    decreases order.len(),
{
    lemma_box_cs_len(gm, order);
    lemma_box_cs_len(gm, order.drop_last());
    if k < order.len() - 1 {
        lemma_box_cs_index(gm, order.drop_last(), k);
        assert(order.drop_last()[k] == order[k]);
    }
}

/// For every alignment edge, an assignment that satisfies the structural
/// constraint system at strong priority and above keeps the minimum gap
/// of `NODE_SPACING` between the two facing box edges, on the side the
/// edge declares.
pub proof fn lemma_alignment_gap(
    gm: Map<usize, Node>,
    order: Seq<usize>,
    edges: Seq<AlignmentEdge>,
    opts: LayoutOptions,
    start: usize,
    m: Map<Var, int>,
    k: int,
)
    requires
        0 <= k < edges.len(),
        spec_plan_holds_at(
            spec_structural_cs(gm, order, edges, opts, start),
            m,
            Strength::Strong,
        ),
    ensures
        match edges[k].direction {
            crate::graph::Neighbors::Left => m[Var::BoxLeft(edges[k].to)] - m[Var::BoxRight(
                edges[k].from,
            )] >= NODE_SPACING,
            crate::graph::Neighbors::Right => m[Var::BoxLeft(edges[k].from)] - m[Var::BoxRight(
                edges[k].to,
            )] >= NODE_SPACING,
            crate::graph::Neighbors::Above => m[Var::BoxUpper(edges[k].to)] - m[Var::BoxLower(
                edges[k].from,
            )] >= NODE_SPACING,
            crate::graph::Neighbors::Below => m[Var::BoxUpper(edges[k].from)] - m[Var::BoxLower(
                edges[k].to,
            )] >= NODE_SPACING,
        },
{
    let table = spec_structural_cs(gm, order, edges, opts, start);
    let head = spec_base_cs() + spec_pin_cs(opts, start);
    let idx = head.len() + 3 * k + 1;
    lemma_align_cs_len(edges);
    lemma_align_cs_index(edges, k);
    assert(table[idx as int] == spec_align_cs(edges)[3 * k + 1]);
    let e = edges[k];
    lemma_align_of_len(e);
    let c = spec_align_cs_of(e)[1];
    assert(table[idx as int] == c);
    match e.direction {
        crate::graph::Neighbors::Left => {
            assert(c.strength == Strength::Strong);
            assert(spec_holds(c, m));
            lemma_eval_diff(Var::BoxLeft(e.to), Var::BoxRight(e.from), m);
            lemma_eval_const(NODE_SPACING, m);
        },
        crate::graph::Neighbors::Right => {
            assert(c.strength == Strength::Strong);
            assert(spec_holds(c, m));
            lemma_eval_diff(Var::BoxLeft(e.from), Var::BoxRight(e.to), m);
            lemma_eval_const(NODE_SPACING, m);
        },
        crate::graph::Neighbors::Above => {
            assert(c.strength == Strength::Strong);
            assert(spec_holds(c, m));
            lemma_eval_diff(Var::BoxUpper(e.to), Var::BoxLower(e.from), m);
            lemma_eval_const(NODE_SPACING, m);
        },
        crate::graph::Neighbors::Below => {
            assert(c.strength == Strength::Strong);
            assert(spec_holds(c, m));
            lemma_eval_diff(Var::BoxUpper(e.from), Var::BoxLower(e.to), m);
            lemma_eval_const(NODE_SPACING, m);
        },
    }
}

/// Idempotence of constraint building: two plans built from the same
/// node table, discovery, options and start id carry the same constraint
/// table and the same edit suggestions. Together with the exact table in
/// [`structural_constraints`]'s postcondition, re-building the system
/// for the same inputs yields the same system.
pub proof fn lemma_plan_idempotent(
    gm: Map<usize, Node>,
    order: Seq<usize>,
    edges: Seq<AlignmentEdge>,
    opts: LayoutOptions,
    start: usize,
    p1: ConstraintPlan,
    p2: ConstraintPlan,
)
    requires
        p1.constraints.deep_view() == spec_structural_cs(gm, order, edges, opts, start),
        p2.constraints.deep_view() == spec_structural_cs(gm, order, edges, opts, start),
        p1.edits@ == spec_edits(opts),
        p2.edits@ == spec_edits(opts),
    ensures
        p1.constraints.deep_view() == p2.constraints.deep_view(),
        p1.edits@ == p2.edits@,
{
}

/// The three constraints of one alignment edge.
fn align_cs_of(e: AlignmentEdge) -> (v: Vec<Constraint>)
    ensures
        v.deep_view() == spec_align_cs_of(e),
{
    let mut v: Vec<Constraint> = Vec::new();
    match e.direction {
        crate::graph::Neighbors::Left => {
            v.push(
                Constraint {
                    lhs: e_var(Var::BoxRight(e.from)),
                    rel: Rel::Le,
                    rhs: e_var(Var::BoxLeft(e.to)),
                    strength: Strength::Required,
                },
            );
            v.push(
                Constraint {
                    lhs: e_diff(Var::BoxLeft(e.to), Var::BoxRight(e.from)),
                    rel: Rel::Ge,
                    rhs: e_const(NODE_SPACING),
                    strength: Strength::Strong,
                },
            );
            v.push(
                Constraint {
                    lhs: e_var(Var::BoxUpper(e.from)),
                    rel: Rel::Eq,
                    rhs: e_var(Var::BoxUpper(e.to)),
                    strength: Strength::Weak,
                },
            );
            proof {
                assert(v.deep_view() =~~= spec_align_cs_of(e));
            }
        },
        crate::graph::Neighbors::Right => {
            v.push(
                Constraint {
                    lhs: e_var(Var::BoxLeft(e.from)),
                    rel: Rel::Ge,
                    rhs: e_var(Var::BoxRight(e.to)),
                    strength: Strength::Required,
                },
            );
            v.push(
                Constraint {
                    lhs: e_diff(Var::BoxLeft(e.from), Var::BoxRight(e.to)),
                    rel: Rel::Ge,
                    rhs: e_const(NODE_SPACING),
                    strength: Strength::Strong,
                },
            );
            v.push(
                Constraint {
                    lhs: e_var(Var::BoxUpper(e.from)),
                    rel: Rel::Eq,
                    rhs: e_var(Var::BoxUpper(e.to)),
                    strength: Strength::Weak,
                },
            );
            proof {
                assert(v.deep_view() =~~= spec_align_cs_of(e));
            }
        },
        crate::graph::Neighbors::Above => {
            v.push(
                Constraint {
                    lhs: e_var(Var::BoxLower(e.from)),
                    rel: Rel::Le,
                    rhs: e_var(Var::BoxUpper(e.to)),
                    strength: Strength::Required,
                },
            );
            v.push(
                Constraint {
                    lhs: e_diff(Var::BoxUpper(e.to), Var::BoxLower(e.from)),
                    rel: Rel::Ge,
                    rhs: e_const(NODE_SPACING),
                    strength: Strength::Strong,
                },
            );
            v.push(
                Constraint {
                    lhs: e_var(Var::BoxLeft(e.from)),
                    rel: Rel::Eq,
                    rhs: e_var(Var::BoxLeft(e.to)),
                    strength: Strength::Weak,
                },
            );
            proof {
                assert(v.deep_view() =~~= spec_align_cs_of(e));
            }
        },
        crate::graph::Neighbors::Below => {
            v.push(
                Constraint {
                    lhs: e_var(Var::BoxUpper(e.from)),
                    rel: Rel::Ge,
                    rhs: e_var(Var::BoxLower(e.to)),
                    strength: Strength::Required,
                },
            );
            v.push(
                Constraint {
                    lhs: e_diff(Var::BoxUpper(e.from), Var::BoxLower(e.to)),
                    rel: Rel::Ge,
                    rhs: e_const(NODE_SPACING),
                    strength: Strength::Strong,
                },
            );
            v.push(
                Constraint {
                    lhs: e_var(Var::BoxLeft(e.from)),
                    rel: Rel::Eq,
                    rhs: e_var(Var::BoxLeft(e.to)),
                    strength: Strength::Weak,
                },
            );
            proof {
                assert(v.deep_view() =~~= spec_align_cs_of(e));
            }
        },
    }
    v
}

/// The four box constraints of one node.
fn box_cs_quad(id: usize, size: i64) -> (v: Vec<Constraint>)
    ensures
        v.deep_view() == spec_box_cs_of(id, size as int),
{
    let mut v: Vec<Constraint> = Vec::new();
    v.push(
        Constraint {
            lhs: e_var(Var::BoxLeft(id)),
            rel: Rel::Le,
            rhs: e_var(Var::BoxRight(id)),
            strength: Strength::Required,
        },
    );
    v.push(
        Constraint {
            lhs: e_var(Var::BoxUpper(id)),
            rel: Rel::Le,
            rhs: e_var(Var::BoxLower(id)),
            strength: Strength::Required,
        },
    );
    v.push(
        Constraint {
            lhs: e_diff(Var::BoxRight(id), Var::BoxLeft(id)),
            rel: Rel::Eq,
            rhs: e_const(size),
            strength: Strength::Required,
        },
    );
    v.push(
        Constraint {
            lhs: e_diff(Var::BoxLower(id), Var::BoxUpper(id)),
            rel: Rel::Eq,
            rhs: e_const(size),
            strength: Strength::Required,
        },
    );
    proof {
        assert(v.deep_view() =~~= spec_box_cs_of(id, size as int));
    }
    v
}

/// Builds the structural constraint system and the canvas edit
/// suggestions for a discovery, in the fixed order of
/// [`spec_structural_cs`]. Fails with the offending id when a discovered
/// id has no node in the table, an internal-consistency fault.
#[verifier::loop_isolation(false)]
pub fn structural_constraints(graph: &DLVis, d: &Discovery, opts: &LayoutOptions) -> (r: Result<
    ConstraintPlan,
    LayoutError,
>)
    ensures
        match r {
            Ok(p) => {
                &&& p.constraints.deep_view() == spec_structural_cs(
                    graph.nodes@,
                    d.order@,
                    d.alignment_edges@,
                    *opts,
                    graph.start,
                )
                &&& p.edits@ == spec_edits(*opts)
                &&& forall|i: int|
                    0 <= i < d.order@.len() ==> graph.nodes@.contains_key(#[trigger] d.order@[i])
            },
            Err(LayoutError::Inconsistent(id)) => {
                &&& d.order@.contains(id)
                &&& !graph.nodes@.contains_key(id)
            },
            Err(_) => false,
        },
        (forall|i: int|
            0 <= i < d.order@.len() ==> graph.nodes@.contains_key(#[trigger] d.order@[i])) <==> r
            is Ok,
{
    let ghost gm = graph.nodes@;
    let start = graph.start;
    let mut cs: Vec<Constraint> = Vec::new();
    // canvas validity
    cs.push(
        Constraint {
            lhs: e_var(Var::CanvasWidth),
            rel: Rel::Ge,
            rhs: e_const(0),
            strength: Strength::Required,
        },
    );
    cs.push(
        Constraint {
            lhs: e_var(Var::CanvasHeight),
            rel: Rel::Ge,
            rhs: e_const(0),
            strength: Strength::Required,
        },
    );
    proof {
        assert(cs.deep_view() =~= spec_base_cs());
    }
    // start-node pins
    if opts.align_left {
        cs.push(
            Constraint {
                lhs: e_var(Var::BoxLeft(start)),
                rel: Rel::Eq,
                rhs: e_const(0),
                strength: Strength::Required,
            },
        );
    }
    if opts.align_right {
        cs.push(
            Constraint {
                lhs: e_var(Var::BoxRight(start)),
                rel: Rel::Eq,
                rhs: e_var(Var::CanvasWidth),
                strength: Strength::Required,
            },
        );
    }
    if opts.align_up {
        cs.push(
            Constraint {
                lhs: e_var(Var::BoxUpper(start)),
                rel: Rel::Eq,
                rhs: e_const(0),
                strength: Strength::Required,
            },
        );
    }
    if opts.align_down {
        cs.push(
            Constraint {
                lhs: e_var(Var::BoxLower(start)),
                rel: Rel::Eq,
                rhs: e_var(Var::CanvasHeight),
                strength: Strength::Required,
            },
        );
    }
    proof {
        assert(cs.deep_view() =~= spec_base_cs() + spec_pin_cs(*opts, start));
    }
    // alignment triples, in table order
    let ghost head = spec_base_cs() + spec_pin_cs(*opts, start);
    let mut i: usize = 0;
    while i < d.alignment_edges.len()
        invariant
            i <= d.alignment_edges@.len(),
            cs.deep_view() == head + spec_align_cs(d.alignment_edges@.take(i as int)),
        decreases d.alignment_edges@.len() - i,
    {
        let e = d.alignment_edges[i];
        let ghost cs0 = cs.deep_view();
        let mut triple = align_cs_of(e);
        cs.append(&mut triple);
        proof {
            let pref = d.alignment_edges@.take(i as int + 1);
            assert(pref.drop_last() =~= d.alignment_edges@.take(i as int));
            assert(pref.last() == d.alignment_edges@[i as int]);
            assert(cs.deep_view() =~~= cs0 + spec_align_cs_of(e));
            assert(cs.deep_view() =~~= head + spec_align_cs(pref));
        }
        i = i + 1;
    }
    proof {
        assert(d.alignment_edges@.take(d.alignment_edges@.len() as int) =~= d.alignment_edges@);
    }
    // box validity and size, in discovery order
    let ghost head2 = head + spec_align_cs(d.alignment_edges@);
    let mut b: usize = 0;
    while b < d.order.len()
        invariant
            b <= d.order@.len(),
            cs.deep_view() == head2 + spec_box_cs(gm, d.order@.take(b as int)),
            forall|j: int| 0 <= j < b ==> gm.contains_key(#[trigger] d.order@[j]),
        decreases d.order@.len() - b,
    {
        let id = d.order[b];
        let node = match graph.get_node(id) {
            Some(n) => n,
            None => {
                proof {
                    assert(d.order@.contains(d.order@[b as int]));
                }
                return Err(LayoutError::Inconsistent(id));
            },
        };
        let size = node_size(node);
        let ghost cs0 = cs.deep_view();
        let mut quad = box_cs_quad(id, size);
        cs.append(&mut quad);
        proof {
            let pref = d.order@.take(b as int + 1);
            assert(pref.drop_last() =~= d.order@.take(b as int));
            assert(pref.last() == d.order@[b as int]);
            assert(spec_node_size(gm[id].deep_view()) as i64 == size);
            assert(cs.deep_view() =~~= cs0 + spec_box_cs_of(id, size as int));
            assert(cs.deep_view() =~~= head2 + spec_box_cs(gm, pref));
        }
        b = b + 1;
    }
    proof {
        assert(d.order@.take(d.order@.len() as int) =~= d.order@);
    }
    // canvas edit registrations and suggested size
    let mut edits: Vec<EditVar> = Vec::new();
    edits.push(EditVar { var: Var::CanvasWidth, strength: Strength::Strong, value: opts.canvas_width });
    edits.push(
        EditVar { var: Var::CanvasHeight, strength: Strength::Strong, value: opts.canvas_height },
    );
    proof {
        assert(edits@ =~= spec_edits(*opts));
    }
    Ok(ConstraintPlan { constraints: cs, edits })
}

} // verus!
