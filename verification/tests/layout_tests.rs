//! End-to-end layout tests: the constraint plan is handed to the
//! cassowary solver, the solved positions are read back through
//! `finish_layout`, and the resulting geometry is checked.
use std::collections::HashMap;
use cassowary::strength::{MEDIUM, REQUIRED, STRONG, WEAK};
use cassowary::WeightedRelation::{EQ, GE, LE};
use cassowary::{Expression, Solver, Variable};
use dl_vis::discover::{iterate_graph, DataFlowEdge, Discovery, EdgeKind};
use dl_vis::graph::{Convolution, DLVis, DLVisToml, NodeToml, OperationToml};
use dl_vis::layout::{finish_layout, Layout, Line, Square, COORD_LIMIT};
use dl_vis::plan::{
    structural_constraints, ConstraintPlan, LayoutError, LayoutOptions, NodeVariable, Rel,
    Strength, Var,
};
use dl_vis::{LINE_SPACING, NODE_SIZE, NODE_SPACING};

fn bare_node(id: usize, dimension: Vec<u32>) -> NodeToml {
    NodeToml {
        id,
        dimension,
        skip_connection_to: None,
        operation: None,
        pass_to: None,
        below_of: None,
        above_of: None,
        right_of: None,
        left_of: None,
    }
}

fn strength_of(s: Strength) -> f64 {
    match s {
        Strength::Weak => WEAK,
        Strength::Medium => MEDIUM,
        Strength::Strong => STRONG,
        Strength::Required => REQUIRED,
    }
}

/// Feeds a constraint plan to the cassowary solver and returns the
/// solver together with the variable table.
fn solve_plan(plan: &ConstraintPlan) -> (Solver, HashMap<Var, Variable>) {
    let mut vars: HashMap<Var, Variable> = HashMap::new();
    for c in plan.constraints.iter() {
        for t in c.lhs.terms.iter().chain(c.rhs.terms.iter()) {
            vars.entry(t.var).or_insert_with(Variable::new);
        }
    }
    for e in plan.edits.iter() {
        vars.entry(e.var).or_insert_with(Variable::new);
    }
    let mut solver = Solver::new();
    for c in plan.constraints.iter() {
        let mut lhs = Expression::from_constant(c.lhs.constant as f64);
        for t in c.lhs.terms.iter() {
            lhs = lhs + vars[&t.var] * (t.coeff as f64);
        }
        let mut rhs = Expression::from_constant(c.rhs.constant as f64);
        for t in c.rhs.terms.iter() {
            rhs = rhs + vars[&t.var] * (t.coeff as f64);
        }
        let s = strength_of(c.strength);
        let constraint = match c.rel {
            Rel::Le => lhs | LE(s) | rhs,
            Rel::Eq => lhs | EQ(s) | rhs,
            Rel::Ge => lhs | GE(s) | rhs,
        };
        solver.add_constraint(constraint).unwrap();
    }
    for e in plan.edits.iter() {
        solver.add_edit_variable(vars[&e.var], strength_of(e.strength)).unwrap();
        solver.suggest_value(vars[&e.var], e.value as f64).unwrap();
    }
    (solver, vars)
}

fn value_of(solver: &Solver, vars: &HashMap<Var, Variable>, v: Var) -> i64 {
    match vars.get(&v) {
        Some(cv) => solver.get_value(*cv).round() as i64,
        None => 0,
    }
}

/// The whole pipeline: discovery, structural solve, routing read-back.
fn run_layout(graph: &DLVis, opts: &LayoutOptions) -> (Discovery, Layout) {
    let d = iterate_graph(graph).unwrap();
    let plan = structural_constraints(graph, &d, opts).unwrap();
    let (solver, vars) = solve_plan(&plan);
    let canvas = (
        value_of(&solver, &vars, Var::CanvasWidth),
        value_of(&solver, &vars, Var::CanvasHeight),
    );
    let mut solved: Vec<(i64, i64)> = Vec::new();
    for id in d.order.iter() {
        solved.push((
            value_of(&solver, &vars, Var::BoxLeft(*id)),
            value_of(&solver, &vars, Var::BoxUpper(*id)),
        ));
    }
    let layout = finish_layout(graph, &d, &solved, canvas).unwrap();
    (d, layout)
}

/// The three-node scenario: node 1 (dimension length 4) left of and
/// passing to node 2; node 2 above node 3 with a convolution edge;
/// start pinned left and top.
fn scenario_graph() -> DLVis {
    let mut node1 = bare_node(1, vec![5, 512, 512, 1]);
    node1.pass_to = Some(2);
    node1.left_of = Some(2);
    let mut node2 = bare_node(2, vec![5, 512, 512, 1]);
    node2.above_of = Some(3);
    node2.operation = Some(OperationToml {
        to: 3,
        convolution: Some(Convolution {
            dimension: 3,
            kernel_size: 3,
            num_outputs: 128,
            stride: Some(vec![1, 2, 2]),
            max_pool: None,
            activation_fn: Some("relu".to_string()),
            normalization_fn: None,
        }),
        deconvolution: None,
        fully_connected: None,
    });
    let node3 = bare_node(3, vec![5, 256, 256, 1]);
    DLVis::from_toml_input(DLVisToml { start: 1, end: 3, nodes: vec![node1, node2, node3] })
        .unwrap()
}

fn box_of(d: &Discovery, layout: &Layout, id: usize) -> Square {
    let i = d.order.iter().position(|x| *x == id).unwrap();
    layout.squares[i]
}

#[test]
fn three_node_scenario_pins_and_spacing() {
    let mut opts = LayoutOptions::new();
    opts.align_left = true;
    opts.align_up = true;
    let graph = scenario_graph();
    let (d, layout) = run_layout(&graph, &opts);

    assert_eq!(d.order.len(), 3);
    assert_eq!(d.alignment_edges.len(), 2);
    assert_eq!(d.flow_edges.len(), 2);
    assert_eq!(layout.squares.len(), 3);

    let b1 = box_of(&d, &layout, 1);
    let b2 = box_of(&d, &layout, 2);
    let b3 = box_of(&d, &layout, 3);

    // the pinned start box sits at the canvas origin
    assert_eq!(b1.left, 0);
    assert_eq!(b1.upper, 0);

    // the declared spatial relations keep the minimum gap
    assert!(b1.right + NODE_SPACING <= b2.left);
    assert!(b2.lower + NODE_SPACING <= b3.upper);

    // exactly one line: the pass-through edge; the transform draws nothing
    assert_eq!(layout.lines.len(), 1);
}

#[test]
fn boxes_keep_their_fixed_size() {
    let mut opts = LayoutOptions::new();
    opts.align_left = true;
    opts.align_up = true;
    let graph = scenario_graph();
    let (d, layout) = run_layout(&graph, &opts);

    // dimension [5, 512, 512, 1] has more than three entries, so the
    // size carries five overlay steps: 60 + 5 * 6
    let deep = NODE_SIZE + 5 * 6;
    for id in [1usize, 2, 3] {
        let b = box_of(&d, &layout, id);
        assert!(b.left <= b.right);
        assert!(b.upper <= b.lower);
        assert_eq!(b.right - b.left, deep);
        assert_eq!(b.lower - b.upper, deep);
    }
}

#[test]
fn shallow_dimension_leaves_base_size() {
    // three entries only: no overlay term
    let mut node1 = bare_node(1, vec![7, 8, 9]);
    node1.pass_to = Some(2);
    node1.left_of = Some(2);
    let node2 = bare_node(2, vec![7, 8, 9]);
    let graph =
        DLVis::from_toml_input(DLVisToml { start: 1, end: 2, nodes: vec![node1, node2] }).unwrap();
    let (d, layout) = run_layout(&graph, &LayoutOptions::new());
    let b1 = box_of(&d, &layout, 1);
    assert_eq!(b1.right - b1.left, NODE_SIZE);
    assert_eq!(b1.lower - b1.upper, NODE_SIZE);
}

#[test]
fn pass_line_between_horizontal_chain_is_horizontal() {
    let mut opts = LayoutOptions::new();
    opts.align_left = true;
    opts.align_up = true;
    let mut node1 = bare_node(1, vec![2, 2]);
    node1.pass_to = Some(2);
    node1.left_of = Some(2);
    let node2 = bare_node(2, vec![2, 2]);
    let graph =
        DLVis::from_toml_input(DLVisToml { start: 1, end: 2, nodes: vec![node1, node2] }).unwrap();
    let (d, layout) = run_layout(&graph, &opts);
    assert_eq!(layout.lines.len(), 1);
    let line = layout.lines[0];
    let b1 = box_of(&d, &layout, 1);
    let b2 = box_of(&d, &layout, 2);
    // horizontal gap dominates: the line is horizontal, leaving the
    // facing edges offset inward
    assert_eq!(line.y1, line.y2);
    assert_eq!(line.x1, b1.right + LINE_SPACING);
    assert_eq!(line.x2, b2.left - LINE_SPACING);
}

#[test]
fn pass_line_between_vertical_chain_is_vertical() {
    let mut opts = LayoutOptions::new();
    opts.align_left = true;
    opts.align_up = true;
    // node 1 is below node 2 and passes to it: the vertical gap
    // dominates, so the line is vertical
    let mut node1 = bare_node(1, vec![2, 2]);
    node1.pass_to = Some(2);
    node1.below_of = Some(2);
    let node2 = bare_node(2, vec![2, 2]);
    let graph =
        DLVis::from_toml_input(DLVisToml { start: 1, end: 2, nodes: vec![node1, node2] }).unwrap();
    let (d, layout) = run_layout(&graph, &opts);
    assert_eq!(layout.lines.len(), 1);
    let line = layout.lines[0];
    assert_eq!(line.x1, line.x2);
    let b1 = box_of(&d, &layout, 1);
    let b2 = box_of(&d, &layout, 2);
    // node 1 sits below node 2, so the line leaves node 1's upper edge
    assert_eq!(line.y1, b1.upper + LINE_SPACING);
    assert_eq!(line.y2, b2.lower - LINE_SPACING);
}

#[test]
fn skip_connection_fans_out_one_trunk_and_three_connectors() {
    let mut opts = LayoutOptions::new();
    opts.align_left = true;
    opts.align_up = true;
    // dimension [3, ...] on the source: one trunk plus three connectors
    let mut node1 = bare_node(1, vec![3, 64, 64]);
    node1.skip_connection_to = Some(2);
    node1.left_of = Some(2);
    let node2 = bare_node(2, vec![3, 64, 64]);
    let graph =
        DLVis::from_toml_input(DLVisToml { start: 1, end: 2, nodes: vec![node1, node2] }).unwrap();
    let (d, layout) = run_layout(&graph, &opts);
    assert_eq!(layout.lines.len(), 4);
    let b1 = box_of(&d, &layout, 1);
    let trunk = layout.lines[0];
    // the trunk is set apart by twice the line spacing at the source end
    assert_eq!(trunk.x1, b1.right + 2 * LINE_SPACING);
    // every connector joins the trunk's start point
    for i in 0..3usize {
        let connector = layout.lines[1 + i];
        assert_eq!(connector.x2, trunk.x1);
        assert_eq!(connector.y2, trunk.y1);
        assert_eq!(connector.x1, b1.right + LINE_SPACING);
        assert_eq!(connector.y1, b1.lower - NODE_SPACING - (i as i64) * 6);
    }
}

#[test]
fn layout_is_idempotent_from_solved_positions() {
    let graph = scenario_graph();
    let d = iterate_graph(&graph).unwrap();
    let opts = LayoutOptions::new();
    let plan1 = structural_constraints(&graph, &d, &opts).unwrap();
    let plan2 = structural_constraints(&graph, &d, &opts).unwrap();
    assert_eq!(plan1.constraints.len(), plan2.constraints.len());
    assert_eq!(plan1.edits, plan2.edits);

    let solved = vec![(0i64, 0i64), (200, 0), (200, 300)];
    let canvas = (1280i64, 600i64);
    let l1 = finish_layout(&graph, &d, &solved, canvas).unwrap();
    let l2 = finish_layout(&graph, &d, &solved, canvas).unwrap();
    assert_eq!(l1.squares, l2.squares);
    assert_eq!(l1.lines, l2.lines);
    assert_eq!(l1.width, l2.width);
    assert_eq!(l1.height, l2.height);
}

#[test]
fn canvas_suggestion_is_kept_when_feasible() {
    let mut opts = LayoutOptions::new();
    opts.canvas_width = 640;
    opts.canvas_height = 480;
    let graph = scenario_graph();
    let (_, layout) = run_layout(&graph, &opts);
    assert_eq!(layout.width, 640);
    assert_eq!(layout.height, 480);
}

#[test]
fn out_of_range_position_is_rejected() {
    let graph = scenario_graph();
    let d = iterate_graph(&graph).unwrap();
    let solved = vec![(0i64, 0i64), (COORD_LIMIT + 1, 0), (0, 0)];
    let err = finish_layout(&graph, &d, &solved, (1280, 600)).unwrap_err();
    assert_eq!(err, LayoutError::BoxOutOfRange(d.order[1]));
}

#[test]
fn wrong_solved_length_is_rejected() {
    let graph = scenario_graph();
    let d = iterate_graph(&graph).unwrap();
    let solved = vec![(0i64, 0i64)];
    let err = finish_layout(&graph, &d, &solved, (1280, 600)).unwrap_err();
    assert_eq!(err, LayoutError::SolvedLengthMismatch);
}

#[test]
fn out_of_range_canvas_is_rejected() {
    let graph = scenario_graph();
    let d = iterate_graph(&graph).unwrap();
    let solved = vec![(0i64, 0i64), (200, 0), (200, 300)];
    let err = finish_layout(&graph, &d, &solved, (COORD_LIMIT + 1, 600)).unwrap_err();
    assert_eq!(err, LayoutError::CanvasOutOfRange);
}

#[test]
fn unknown_id_in_discovery_is_an_internal_fault() {
    let graph = scenario_graph();
    let d = Discovery {
        order: vec![42],
        alignment_edges: Vec::new(),
        flow_edges: Vec::new(),
    };
    let err = structural_constraints(&graph, &d, &LayoutOptions::new()).unwrap_err();
    assert_eq!(err, LayoutError::Inconsistent(42));
    let err2 = finish_layout(&graph, &d, &vec![(0i64, 0i64)], (1280, 600)).unwrap_err();
    assert_eq!(err2, LayoutError::Inconsistent(42));
}

#[test]
fn flow_edge_with_undiscovered_endpoint_is_an_internal_fault() {
    let graph = scenario_graph();
    let d = iterate_graph(&graph).unwrap();
    let broken = Discovery {
        order: d.order.clone(),
        alignment_edges: Vec::new(),
        flow_edges: vec![DataFlowEdge { from: 1, to: 99, kind: EdgeKind::PassTo }],
    };
    let solved = vec![(0i64, 0i64), (200, 0), (200, 300)];
    let err = finish_layout(&graph, &broken, &solved, (1280, 600)).unwrap_err();
    assert_eq!(err, LayoutError::Inconsistent(99));
}

#[test]
fn alignment_gaps_hold_for_every_edge() {
    let mut opts = LayoutOptions::new();
    opts.align_left = true;
    opts.align_up = true;
    // a chain exercising all four directions
    let mut node1 = bare_node(1, vec![2, 2]);
    node1.left_of = Some(2);
    node1.pass_to = Some(2);
    let mut node2 = bare_node(2, vec![2, 2]);
    node2.above_of = Some(3);
    node2.pass_to = Some(3);
    let mut node3 = bare_node(3, vec![2, 2]);
    node3.right_of = Some(4);
    node3.pass_to = Some(4);
    let mut node4 = bare_node(4, vec![2, 2]);
    node4.below_of = Some(1);
    let graph = DLVis::from_toml_input(DLVisToml {
        start: 1,
        end: 4,
        nodes: vec![node1, node2, node3, node4],
    })
    .unwrap();
    let (d, layout) = run_layout(&graph, &opts);
    let b1 = box_of(&d, &layout, 1);
    let b2 = box_of(&d, &layout, 2);
    let b3 = box_of(&d, &layout, 3);
    let b4 = box_of(&d, &layout, 4);
    assert!(b1.right + NODE_SPACING <= b2.left);
    assert!(b2.lower + NODE_SPACING <= b3.upper);
    assert!(b3.left - NODE_SPACING >= b4.right);
    assert!(b4.upper - NODE_SPACING >= b1.lower);
}

#[test]
fn four_node_program_layout() {
    // the demonstration graph: a chain of pass-through edges with a
    // five-channel skip connection at the end
    let mut node1 = bare_node(1, vec![5, 512, 512, 1]);
    node1.pass_to = Some(2);
    node1.above_of = Some(2);
    let mut node2 = bare_node(2, vec![5, 512, 512, 1]);
    node2.left_of = Some(3);
    node2.above_of = Some(3);
    node2.pass_to = Some(3);
    let mut node3 = bare_node(3, vec![5, 256, 256, 1]);
    node3.left_of = Some(4);
    node3.below_of = Some(4);
    node3.skip_connection_to = Some(4);
    let node4 = bare_node(4, vec![5, 256, 256, 1]);
    let graph = DLVis::from_toml_input(DLVisToml {
        start: 1,
        end: 4,
        nodes: vec![node1, node2, node3, node4],
    })
    .unwrap();
    let mut opts = LayoutOptions::new();
    opts.align_left = true;
    opts.align_up = true;
    let (d, layout) = run_layout(&graph, &opts);
    assert_eq!(d.order, vec![1, 2, 3, 4]);
    assert_eq!(layout.squares.len(), 4);
    // two pass-through lines plus a trunk and five connectors
    assert_eq!(layout.lines.len(), 8);
    for i in 0..4usize {
        let b = layout.squares[i];
        assert_eq!(b.right - b.left, NODE_SIZE + 5 * 6);
        assert_eq!(b.lower - b.upper, NODE_SIZE + 5 * 6);
    }
    let text = dl_vis::render::render_file(&layout);
    assert_eq!(text.lines().count(), 12);
}

#[test]
fn node_variables_are_named_after_the_id() {
    let v = NodeVariable::new(7);
    assert_eq!(v.left, Var::BoxLeft(7));
    assert_eq!(v.right, Var::BoxRight(7));
    assert_eq!(v.upper, Var::BoxUpper(7));
    assert_eq!(v.lower, Var::BoxLower(7));
}

#[test]
fn default_options_suggest_the_default_canvas() {
    let o = LayoutOptions::new();
    assert!(!o.align_left && !o.align_right && !o.align_up && !o.align_down);
    assert_eq!(o.canvas_width, 1280);
    assert_eq!(o.canvas_height, 600);
}

#[test]
fn rendered_markup_matches_geometry() {
    let layout = Layout {
        width: 1280,
        height: 600,
        squares: vec![Square { left: 0, right: 90, upper: 0, lower: 90 }],
        lines: vec![Line { x1: 100, y1: 45, x2: 200, y2: 45 }],
    };
    let text = dl_vis::render::render_file(&layout);
    assert_eq!(
        text,
        "\\filldraw[fill=white, draw=black] (0,0) rectangle (90,90);\n\\draw (100,45) -- (200,45);\n"
    );
}

#[test]
fn rendered_markup_keeps_negative_coordinates() {
    let layout = Layout {
        width: 100,
        height: 100,
        squares: vec![Square { left: -30, right: 30, upper: -15, lower: 45 }],
        lines: Vec::new(),
    };
    let text = dl_vis::render::render_file(&layout);
    assert_eq!(text, "\\filldraw[fill=white, draw=black] (-30,-15) rectangle (30,45);\n");
}
