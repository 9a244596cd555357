use wyrm::binary::{AddNode, DivNode, DotNode, MulNode, SubNode};
use wyrm::counter::BackwardAction;
use wyrm::graph::{Delivery, Graph, Source};
use wyrm::graph_node::GraphNode;
use wyrm::leaves::{InputNode, ParameterNode};
use wyrm::node::{NodeKind, Operand, Propagation};
use wyrm::select::{IndexInputNode, IndexNode};
use wyrm::shape::Shape;
use wyrm::softmax::LogSoftmaxNode;
use wyrm::unary::{SquareNode, SumNode};

fn parameter(graph: &mut Graph, rows: usize, cols: usize) -> Operand {
    let id = graph
        .push(GraphNode::Parameter(ParameterNode::new(Shape::new(rows, cols))))
        .unwrap();
    graph.operand(id).unwrap()
}

fn input(graph: &mut Graph, rows: usize, cols: usize) -> Operand {
    let id = graph
        .push(GraphNode::Input(InputNode::new(Shape::new(rows, cols))))
        .unwrap();
    graph.operand(id).unwrap()
}

fn insert(graph: &mut Graph, node: GraphNode) -> Operand {
    let id = graph.push(node).unwrap();
    graph.operand(id).unwrap()
}

fn fold(action: BackwardAction, relay: bool) -> Propagation {
    Propagation::Fold { action, relay }
}

#[test]
fn test_sub_counter() {
    let mut graph = Graph::new();
    let x = parameter(&mut graph, 1, 1);
    let y = insert(&mut graph, GraphNode::Sub(SubNode::new(x, x)));
    let yy = insert(&mut graph, GraphNode::Add(AddNode::new(y, y)));
    let z = insert(&mut graph, GraphNode::Add(AddNode::new(yy, y)));

    graph.forward(z.id);
    assert_eq!(graph.forward_count(y.id), 3);
    graph.backward(z.id);
    assert_eq!(graph.backward_count(y.id), 3);
}

#[test]
fn shared_node_is_evaluated_once_and_before_its_consumers() {
    let mut graph = Graph::new();
    let x = parameter(&mut graph, 1, 1);
    let y = insert(&mut graph, GraphNode::Sub(SubNode::new(x, x)));
    let yy = insert(&mut graph, GraphNode::Add(AddNode::new(y, y)));
    let z = insert(&mut graph, GraphNode::Add(AddNode::new(yy, y)));

    let order = graph.forward(z.id);
    assert_eq!(order, vec![y.id, yy.id, z.id]);
    assert_eq!(graph.forward_count(z.id), 1);
    assert_eq!(graph.forward_count(yy.id), 1);
    assert_eq!(graph.forward_count(x.id), 0);
}

#[test]
fn gradients_reach_a_shared_node_once_from_every_consumer_slot() {
    let mut graph = Graph::new();
    let x = parameter(&mut graph, 1, 1);
    let y = insert(&mut graph, GraphNode::Sub(SubNode::new(x, x)));
    let yy = insert(&mut graph, GraphNode::Add(AddNode::new(y, y)));
    let z = insert(&mut graph, GraphNode::Add(AddNode::new(yy, y)));

    graph.forward(z.id);
    let plan = graph.backward(z.id);
    let expected = vec![
        Delivery {
            target: z.id,
            source: Source::Seed,
            handling: fold(BackwardAction::Assign, true),
        },
        Delivery {
            target: yy.id,
            source: Source::First(z.id),
            handling: fold(BackwardAction::Assign, true),
        },
        Delivery {
            target: y.id,
            source: Source::First(yy.id),
            handling: fold(BackwardAction::Assign, false),
        },
        Delivery {
            target: y.id,
            source: Source::Second(yy.id),
            handling: fold(BackwardAction::Increment, false),
        },
        Delivery {
            target: y.id,
            source: Source::Second(z.id),
            handling: fold(BackwardAction::Increment, true),
        },
        Delivery {
            target: x.id,
            source: Source::First(y.id),
            handling: Propagation::Accumulate,
        },
        Delivery {
            target: x.id,
            source: Source::Second(y.id),
            handling: Propagation::Accumulate,
        },
    ];
    assert_eq!(plan, expected);
    for id in [y.id, yy.id, z.id] {
        assert_eq!(graph.backward_count(id), graph.forward_count(id));
    }
}

#[test]
fn second_request_in_a_round_is_cached() {
    let mut graph = Graph::new();
    let x = parameter(&mut graph, 2, 2);
    let s = insert(&mut graph, GraphNode::Square(SquareNode::new(x)));
    let t = insert(&mut graph, GraphNode::Sum(SumNode::new(s)));

    assert_eq!(graph.forward(t.id), vec![s.id, t.id]);
    assert_eq!(graph.forward(t.id), Vec::<usize>::new());
    assert_eq!(graph.forward_count(t.id), 2);
    assert_eq!(graph.forward_count(s.id), 1);

    let first = graph.backward(t.id);
    assert_eq!(
        first,
        vec![Delivery {
            target: t.id,
            source: Source::Seed,
            handling: fold(BackwardAction::Assign, false),
        }]
    );
    let second = graph.backward(t.id);
    assert_eq!(second.len(), 3);
    assert_eq!(second[0].handling, fold(BackwardAction::Increment, true));
    assert_eq!(second[1].target, s.id);
    assert_eq!(second[1].source, Source::First(t.id));
    assert_eq!(second[1].handling, fold(BackwardAction::Assign, true));
    assert_eq!(second[2].target, x.id);
    assert_eq!(second[2].handling, Propagation::Accumulate);
}

#[test]
fn zero_gradient_resets_every_node_of_the_round() {
    let mut graph = Graph::new();
    let x = parameter(&mut graph, 2, 3);
    let w = parameter(&mut graph, 3, 2);
    let c = input(&mut graph, 2, 2);
    let d = insert(&mut graph, GraphNode::Dot(DotNode::new(x, w)));
    let m = insert(&mut graph, GraphNode::Mul(MulNode::new(d, c)));
    let a = insert(&mut graph, GraphNode::Add(AddNode::new(m, d)));
    let t = insert(&mut graph, GraphNode::Sum(SumNode::new(a)));

    graph.forward(t.id);
    graph.backward(t.id);
    assert_eq!(graph.forward_count(d.id), 2);
    assert_eq!(graph.backward_count(d.id), 2);

    let stores = graph.zero_gradient(t.id);
    assert_eq!(stores, vec![x.id, w.id]);
    for id in 0..graph.len() {
        assert_eq!(graph.forward_count(id), 0);
        assert_eq!(graph.backward_count(id), 0);
    }
    assert_eq!(graph.zero_gradient(t.id), Vec::<usize>::new());

    let order = graph.forward(t.id);
    assert_eq!(order, vec![d.id, m.id, a.id, t.id]);
}

#[test]
fn unvisited_parts_are_left_alone() {
    let mut graph = Graph::new();
    let x = parameter(&mut graph, 1, 1);
    let s = insert(&mut graph, GraphNode::Square(SquareNode::new(x)));
    let other = insert(&mut graph, GraphNode::Square(SquareNode::new(x)));

    assert_eq!(graph.forward(s.id), vec![s.id]);
    assert_eq!(graph.forward_count(other.id), 0);
    assert_eq!(graph.zero_gradient(other.id), Vec::<usize>::new());
    assert_eq!(graph.forward_count(s.id), 1);
}

#[test]
fn push_refuses_operands_of_another_graph() {
    let mut graph = Graph::new();
    let x = parameter(&mut graph, 2, 2);
    let stranger = Operand {
        id: 5,
        shape: Shape::new(2, 2),
        needs_gradient: true,
        parameter: true,
    };
    assert_eq!(graph.push(GraphNode::Add(AddNode::new(x, stranger))), None);
    let reshaped = Operand { shape: Shape::new(3, 3), ..x };
    assert_eq!(
        graph.push(GraphNode::Square(SquareNode::new(reshaped))),
        None
    );
    let relabelled = Operand { needs_gradient: false, ..x };
    assert_eq!(
        graph.push(GraphNode::Square(SquareNode::new(relabelled))),
        None
    );
    assert_eq!(graph.len(), 1);
    assert_eq!(graph.operand(7), None);
    assert_eq!(graph.operand(x.id), Some(x));
    assert_eq!(graph.describe(x.id).kind, NodeKind::Parameter);
}

#[test]
fn row_selection_scatters_every_gradient() {
    let mut graph = Graph::new();
    let table = parameter(&mut graph, 10, 4);
    let rows = graph
        .push(GraphNode::IndexInput(IndexInputNode::new(&[1, 3])))
        .unwrap();
    assert_eq!(graph.operand(rows), None);
    let picked = insert(
        &mut graph,
        GraphNode::Index(IndexNode::new(table, rows, &[1, 3])),
    );
    assert_eq!(picked.shape, Shape::new(2, 4));
    let doubled = insert(&mut graph, GraphNode::Add(AddNode::new(picked, picked)));
    assert!(graph.indices_fit());

    assert_eq!(graph.forward(doubled.id), vec![picked.id, doubled.id]);
    assert_eq!(graph.forward_count(picked.id), 2);
    let plan = graph.backward(doubled.id);
    assert_eq!(
        plan,
        vec![
            Delivery {
                target: doubled.id,
                source: Source::Seed,
                handling: fold(BackwardAction::Assign, true),
            },
            Delivery {
                target: picked.id,
                source: Source::First(doubled.id),
                handling: Propagation::Scatter,
            },
            Delivery {
                target: picked.id,
                source: Source::Second(doubled.id),
                handling: Propagation::Scatter,
            },
        ]
    );
    assert_eq!(graph.backward_count(picked.id), 2);
    assert_eq!(graph.zero_gradient(doubled.id), vec![table.id]);
    assert_eq!(graph.forward_count(picked.id), 0);
}

#[test]
fn row_selection_reads_its_indices_anew_in_every_round() {
    let mut graph = Graph::new();
    let table = parameter(&mut graph, 10, 4);
    let rows = graph
        .push(GraphNode::IndexInput(IndexInputNode::new(&[1, 3])))
        .unwrap();
    let picked = insert(
        &mut graph,
        GraphNode::Index(IndexNode::new(table, rows, &[1, 3])),
    );

    assert!(graph.set_indices(rows, &[8, 2]));
    assert!(!graph.set_indices(table.id, &[8, 2]));
    assert!(!graph.set_indices(99, &[8, 2]));
    assert_eq!(graph.node(picked.id).indices_copy(), vec![1, 3]);
    graph.forward(picked.id);
    assert_eq!(graph.node(picked.id).indices_copy(), vec![8, 2]);

    assert!(graph.set_indices(rows, &[5, 5]));
    graph.forward(picked.id);
    assert_eq!(graph.node(picked.id).indices_copy(), vec![8, 2]);
    graph.backward(picked.id);
    graph.backward(picked.id);
    graph.zero_gradient(picked.id);
    graph.forward(picked.id);
    assert_eq!(graph.node(picked.id).indices_copy(), vec![5, 5]);
    assert_eq!(graph.node(rows).indices_copy(), vec![5, 5]);
}

#[test]
fn indices_that_do_not_fit_are_found() {
    let mut graph = Graph::new();
    let table = parameter(&mut graph, 10, 4);
    let rows = graph
        .push(GraphNode::IndexInput(IndexInputNode::new(&[1, 3])))
        .unwrap();
    insert(
        &mut graph,
        GraphNode::Index(IndexNode::new(table, rows, &[1, 3])),
    );
    assert!(graph.indices_fit());
    graph.set_indices(rows, &[1, 10]);
    assert!(!graph.indices_fit());
    graph.set_indices(rows, &[1, 2, 3]);
    assert!(!graph.indices_fit());
    graph.set_indices(rows, &[9, 0]);
    assert!(graph.indices_fit());
}

#[test]
fn fused_loss_resets_the_log_softmax_counter() {
    let mut graph = Graph::new();
    let x = parameter(&mut graph, 1, 5);
    let l = insert(&mut graph, GraphNode::LogSoftmax(LogSoftmaxNode::new(x)));
    graph.forward(l.id);
    assert_eq!(graph.forward_count(l.id), 1);
    assert!(!graph.zero_counter(x.id));
    assert!(!graph.zero_counter(42));
    assert!(graph.zero_counter(l.id));
    assert_eq!(graph.forward_count(l.id), 0);
    assert_eq!(graph.backward_count(l.id), 0);
    assert_eq!(graph.forward(l.id), vec![l.id]);
}

#[test]
fn plan_drives_the_arithmetic_of_a_round() {
    // z = x * x + x at x = 3: the value is 12 and the gradient 2 * 3 + 1.
    let mut graph = Graph::new();
    let x = parameter(&mut graph, 1, 1);
    let p = insert(&mut graph, GraphNode::Mul(MulNode::new(x, x)));
    let z = insert(&mut graph, GraphNode::Add(AddNode::new(p, x)));

    let mut value = vec![0.0f32; graph.len()];
    let mut first = vec![0.0f32; graph.len()];
    let mut second = vec![0.0f32; graph.len()];
    let mut dense = 0.0f32;
    value[x.id] = 3.0;

    for id in graph.forward(z.id) {
        let profile = graph.describe(id);
        let a = value[profile.first.unwrap().id];
        let b = value[profile.second.unwrap().id];
        value[id] = match profile.kind {
            NodeKind::Mul => a * b,
            NodeKind::Add => a + b,
            _ => unreachable!(),
        };
    }
    assert_eq!(value[z.id], 12.0);

    for step in graph.backward(z.id) {
        let gradient = match step.source {
            Source::Seed => 1.0,
            Source::First(consumer) => first[consumer],
            Source::Second(consumer) => second[consumer],
        };
        match step.handling {
            Propagation::Accumulate => dense += gradient,
            Propagation::Fold { action, .. } => {
                let profile = graph.describe(step.target);
                let a = value[profile.first.unwrap().id];
                let b = value[profile.second.unwrap().id];
                let (to_first, to_second) = match profile.kind {
                    NodeKind::Mul => (b * gradient, a * gradient),
                    NodeKind::Add => (gradient, gradient),
                    _ => unreachable!(),
                };
                match action {
                    BackwardAction::Assign => {
                        first[step.target] = to_first;
                        second[step.target] = to_second;
                    }
                    BackwardAction::Increment => {
                        first[step.target] += to_first;
                        second[step.target] += to_second;
                    }
                }
            }
            _ => unreachable!(),
        }
    }
    assert_eq!(dense, 7.0);
}

#[test]
fn passes_are_refused_where_the_graph_is_not_ready() {
    let mut graph = Graph::new();
    let x = parameter(&mut graph, 1, 1);
    let s = insert(&mut graph, GraphNode::Square(SquareNode::new(x)));
    let t = insert(&mut graph, GraphNode::Sum(SumNode::new(s)));

    assert_eq!(graph.try_forward(17), None);
    assert_eq!(graph.try_backward(t.id), None);
    assert!(!graph.has_backward_room(t.id));
    assert!(graph.has_forward_room(t.id));
    assert_eq!(graph.try_forward(t.id), Some(vec![s.id, t.id]));
    assert_eq!(graph.try_backward(s.id), None);
    assert!(graph.has_backward_room(t.id));
    let plan = graph.try_backward(t.id).unwrap();
    assert_eq!(plan.len(), 3);
    assert_eq!(graph.try_backward(t.id), None);
    assert_eq!(graph.backward_count(t.id), 1);
    assert_eq!(graph.inflows(false), vec![1, 1, 0]);
    assert_eq!(graph.inflows(true), vec![1, 1, 0]);
}

#[test]
fn a_row_selection_with_unfit_indices_stops_the_forward_pass() {
    let mut graph = Graph::new();
    let table = parameter(&mut graph, 4, 2);
    let rows = graph
        .push(GraphNode::IndexInput(IndexInputNode::new(&[0, 1])))
        .unwrap();
    let picked = insert(
        &mut graph,
        GraphNode::Index(IndexNode::new(table, rows, &[0, 1])),
    );
    graph.set_indices(rows, &[0, 4]);
    assert_eq!(graph.try_forward(picked.id), None);
    assert_eq!(graph.forward_count(picked.id), 0);
    graph.set_indices(rows, &[3, 3]);
    assert_eq!(graph.try_forward(picked.id), Some(vec![picked.id]));
}

#[test]
fn passes_on_an_empty_graph_and_on_leaves() {
    let mut graph = Graph::new();
    assert_eq!(graph.len(), 0);
    assert_eq!(graph.try_forward(0), None);
    assert_eq!(graph.try_backward(0), None);
    assert!(graph.indices_fit());

    let x = parameter(&mut graph, 2, 2);
    let c = input(&mut graph, 2, 2);
    assert_eq!(graph.forward(x.id), Vec::<usize>::new());
    assert_eq!(graph.forward_count(x.id), 0);
    assert_eq!(
        graph.backward(x.id),
        vec![Delivery {
            target: x.id,
            source: Source::Seed,
            handling: Propagation::Accumulate,
        }]
    );
    assert_eq!(
        graph.backward(c.id),
        vec![Delivery {
            target: c.id,
            source: Source::Seed,
            handling: Propagation::Discard,
        }]
    );
    assert_eq!(graph.backward_count(x.id), 0);
    assert_eq!(graph.zero_gradient(x.id), vec![x.id]);
    assert_eq!(graph.zero_gradient(c.id), Vec::<usize>::new());
}

#[test]
fn push_refuses_a_row_selection_without_an_index_list() {
    let mut graph = Graph::new();
    let table = parameter(&mut graph, 4, 2);
    let other = input(&mut graph, 1, 1);
    assert_eq!(
        graph.push(GraphNode::Index(IndexNode::new(table, other.id, &[0]))),
        None
    );
    assert_eq!(
        graph.push(GraphNode::Index(IndexNode::new(table, 9, &[0]))),
        None
    );
    assert_eq!(graph.len(), 2);
}

fn run(x0: f32, y0: f32) -> (f32, f32, f32) {
    // z = (x * y) / (x - y) + x
    let mut graph = Graph::new();
    let x = parameter(&mut graph, 1, 1);
    let y = parameter(&mut graph, 1, 1);
    let p = insert(&mut graph, GraphNode::Mul(MulNode::new(x, y)));
    let d = insert(&mut graph, GraphNode::Sub(SubNode::new(x, y)));
    let q = insert(&mut graph, GraphNode::Div(DivNode::new(p, d)));
    let z = insert(&mut graph, GraphNode::Add(AddNode::new(q, x)));

    let mut value = vec![0.0f32; graph.len()];
    let mut first = vec![0.0f32; graph.len()];
    let mut second = vec![0.0f32; graph.len()];
    let mut dense = vec![0.0f32; graph.len()];
    value[x.id] = x0;
    value[y.id] = y0;
    for id in graph.forward(z.id) {
        let profile = graph.describe(id);
        let a = value[profile.first.unwrap().id];
        let b = value[profile.second.unwrap().id];
        value[id] = match profile.kind {
            NodeKind::Mul => a * b,
            NodeKind::Div => a / b,
            NodeKind::Sub => a - b,
            NodeKind::Add => a + b,
            _ => unreachable!(),
        };
    }
    for step in graph.backward(z.id) {
        let gradient = match step.source {
            Source::Seed => 1.0,
            Source::First(consumer) => first[consumer],
            Source::Second(consumer) => second[consumer],
        };
        match step.handling {
            Propagation::Accumulate => dense[step.target] += gradient,
            Propagation::Fold { action, .. } => {
                let profile = graph.describe(step.target);
                let a = value[profile.first.unwrap().id];
                let b = value[profile.second.unwrap().id];
                let (to_first, to_second) = match profile.kind {
                    NodeKind::Mul => (b * gradient, a * gradient),
                    NodeKind::Div => (gradient / b, -a / (b * b) * gradient),
                    NodeKind::Sub => (gradient, -gradient),
                    NodeKind::Add => (gradient, gradient),
                    _ => unreachable!(),
                };
                match action {
                    BackwardAction::Assign => {
                        first[step.target] = to_first;
                        second[step.target] = to_second;
                    }
                    BackwardAction::Increment => {
                        first[step.target] += to_first;
                        second[step.target] += to_second;
                    }
                }
            }
            _ => unreachable!(),
        }
    }
    (value[z.id], dense[x.id], dense[y.id])
}

#[test]
fn planned_gradients_agree_with_finite_differences() {
    let (x0, y0) = (3.0f32, 1.0f32);
    let eps = 1e-2f32;
    let (_, dx, dy) = run(x0, y0);
    let numeric_dx = (run(x0 + eps, y0).0 - run(x0 - eps, y0).0) / (2.0 * eps);
    let numeric_dy = (run(x0, y0 + eps).0 - run(x0, y0 - eps).0) / (2.0 * eps);
    assert!((dx - numeric_dx).abs() < 1e-2, "{} {}", dx, numeric_dx);
    assert!((dy - numeric_dy).abs() < 1e-2, "{} {}", dy, numeric_dy);
    assert_eq!(dx, 0.75);
    assert_eq!(dy, 2.25);
}
