use wyrm::binary::{
    AddNode, ConcatenateNode, DivNode, DotNode, MulNode, SubNode, VectorDotNode,
};
use wyrm::counter::{BackwardAction, ForwardAction};
use wyrm::leaves::{InputNode, ParameterNode};
use wyrm::node::{Clearing, Node, NodeKind, Operand, Propagation};
use wyrm::select::{IndexInputNode, IndexNode};
use wyrm::shape::{Axis, Shape};
use wyrm::softmax::{LogSoftmaxNode, SoftmaxNode};
use wyrm::unary::{
    ExpNode, LogNode, NegNode, ReluNode, SigmoidNode, SquareNode, SumNode, TanhNode, TransposeNode,
};

fn operand(id: usize, rows: usize, cols: usize, needs_gradient: bool) -> Operand {
    Operand {
        id,
        shape: Shape::new(rows, cols),
        needs_gradient,
        parameter: needs_gradient,
    }
}

#[test]
fn axis_numbers() {
    assert_eq!(Axis::from_index(0), Some(Axis::Rows));
    assert_eq!(Axis::from_index(1), Some(Axis::Columns));
    assert_eq!(Axis::from_index(2), None);
    assert_eq!(Axis::Rows.index(), 0);
    assert_eq!(Axis::Columns.index(), 1);
}

#[test]
fn shape_rules() {
    let a = Shape::new(2, 3);
    let b = Shape::new(3, 4);
    assert_eq!(a.transpose(), Shape::new(3, 2));
    assert!(a.can_multiply(&b));
    assert!(!b.can_multiply(&a));
    assert!(a.can_join(&Shape::new(5, 3), Axis::Rows));
    assert!(!a.can_join(&Shape::new(5, 3), Axis::Columns));
    assert!(a.can_join(&Shape::new(2, 7), Axis::Columns));
    assert!(!a.can_join(&Shape::new(usize::MAX, 3), Axis::Rows));
    assert_eq!(a.join(&Shape::new(5, 3), Axis::Rows), Shape::new(7, 3));
    assert_eq!(a.join(&Shape::new(2, 7), Axis::Columns), Shape::new(2, 10));
}

#[test]
fn leaves_have_fixed_answers() {
    let mut input = InputNode::new(Shape::new(2, 2));
    assert_eq!(input.value(), Shape::new(2, 2));
    assert!(!input.needs_gradient());
    assert_eq!(input.forward(), ForwardAction::Cached);
    assert_eq!(input.backward(), Propagation::Discard);
    assert_eq!(input.zero_gradient(), Clearing::Nothing);
    assert_eq!(input.visits(), (0, 0));

    let mut parameter = ParameterNode::new(Shape::new(4, 3));
    assert_eq!(parameter.value(), Shape::new(4, 3));
    assert_eq!(parameter.dense_shape(), (4, 3));
    assert!(parameter.needs_gradient());
    assert_eq!(parameter.forward(), ForwardAction::Cached);
    assert_eq!(parameter.backward(), Propagation::Accumulate);
    assert_eq!(parameter.zero_gradient(), Clearing::Accumulator);
    assert_eq!(parameter.describe().kind, NodeKind::Parameter);
}

#[test]
fn add_node_follows_its_operands() {
    let node = AddNode::new(operand(0, 2, 3, false), operand(1, 2, 3, true));
    assert_eq!(node.value(), Shape::new(2, 3));
    assert_eq!(node.gradient(), Shape::new(2, 3));
    assert!(node.needs_gradient());
    let profile = node.describe();
    assert_eq!(profile.kind, NodeKind::Add);
    assert_eq!(profile.first.unwrap().id, 0);
    assert_eq!(profile.second.unwrap().id, 1);
    assert_eq!(profile.index, None);

    let quiet = AddNode::new(operand(0, 2, 3, false), operand(1, 2, 3, false));
    assert!(!quiet.needs_gradient());
}

#[test]
fn elementwise_binary_nodes_keep_the_shape() {
    let lhs = operand(0, 3, 5, true);
    let rhs = operand(1, 3, 5, false);
    let sub = SubNode::new(lhs, rhs);
    assert_eq!(sub.value(), Shape::new(3, 5));
    assert_eq!(sub.lhs_gradient(), Shape::new(3, 5));
    assert_eq!(sub.rhs_gradient(), Shape::new(3, 5));
    assert!(sub.needs_gradient());
    let mul = MulNode::new(lhs, rhs);
    assert_eq!(mul.value(), Shape::new(3, 5));
    assert_eq!(mul.describe().kind, NodeKind::Mul);
    let div = DivNode::new(lhs, rhs);
    assert_eq!(div.value(), Shape::new(3, 5));
    assert_eq!(div.describe().kind, NodeKind::Div);
}

#[test]
fn dot_node_has_the_shape_of_the_product() {
    let node = DotNode::new(operand(0, 2, 3, false), operand(1, 3, 4, true));
    assert_eq!(node.value(), Shape::new(2, 4));
    assert_eq!(node.lhs_gradient(), Shape::new(2, 3));
    assert_eq!(node.rhs_gradient(), Shape::new(3, 4));
    assert!(node.needs_gradient());
}

#[test]
fn vector_dot_node_has_one_column() {
    let node = VectorDotNode::new(operand(0, 6, 3, false), operand(1, 6, 3, false));
    assert_eq!(node.value(), Shape::new(6, 1));
    assert_eq!(node.lhs_gradient(), Shape::new(6, 3));
    assert_eq!(node.rhs_gradient(), Shape::new(6, 3));
    assert!(!node.needs_gradient());
}

#[test]
fn concatenate_rows_of_two_by_three_and_three_by_three() {
    let node = ConcatenateNode::new(operand(0, 2, 3, true), operand(1, 3, 3, false), Axis::Rows);
    assert_eq!(node.value(), Shape::new(5, 3));
    assert_eq!(node.lhs_gradient(), Shape::new(2, 3));
    assert_eq!(node.rhs_gradient(), Shape::new(3, 3));
    assert_eq!(node.axis(), Axis::Rows);
    assert_eq!(node.describe().kind, NodeKind::Concatenate(Axis::Rows));
}

#[test]
fn concatenate_columns() {
    let node = ConcatenateNode::new(operand(0, 2, 3, false), operand(1, 2, 4, false), Axis::Columns);
    assert_eq!(node.value(), Shape::new(2, 7));
    assert_eq!(node.axis(), Axis::Columns);
}

#[test]
fn elementwise_unary_nodes_keep_the_shape() {
    let x = operand(7, 4, 2, true);
    assert_eq!(SquareNode::new(x).value(), Shape::new(4, 2));
    assert_eq!(SquareNode::new(x).operand_gradient(), Shape::new(4, 2));
    assert_eq!(LogNode::new(x).value(), Shape::new(4, 2));
    assert_eq!(TanhNode::new(x).value(), Shape::new(4, 2));
    assert_eq!(SigmoidNode::new(x).value(), Shape::new(4, 2));
    assert_eq!(ReluNode::new(x).value(), Shape::new(4, 2));
    assert_eq!(NegNode::new(x).value(), Shape::new(4, 2));
    assert_eq!(ExpNode::new(x).value(), Shape::new(4, 2));
    assert!(ExpNode::new(x).needs_gradient());
    assert!(!ExpNode::new(operand(7, 4, 2, false)).needs_gradient());
    assert_eq!(ReluNode::new(x).describe().first.unwrap().id, 7);
    assert_eq!(ReluNode::new(x).describe().second, None);
}

#[test]
fn transpose_sum_and_softmax_shapes() {
    let x = operand(0, 1, 5, true);
    let transpose = TransposeNode::new(x);
    assert_eq!(transpose.value(), Shape::new(5, 1));
    assert_eq!(transpose.gradient(), Shape::new(1, 5));
    let sum = SumNode::new(operand(0, 3, 4, true));
    assert_eq!(sum.value(), Shape::new(1, 1));
    assert_eq!(sum.operand_gradient(), Shape::new(3, 4));
    let softmax = SoftmaxNode::new(x);
    assert_eq!(softmax.value(), Shape::new(1, 5));
    assert_eq!(softmax.jacobian(), Shape::new(5, 5));
    assert_eq!(softmax.operand_gradient(), Shape::new(1, 5));
    let log_softmax = LogSoftmaxNode::new(x);
    assert_eq!(log_softmax.value(), Shape::new(1, 5));
    assert_eq!(log_softmax.operand_gradient(), Shape::new(1, 5));
}

#[test]
fn operator_counts_and_decides() {
    let mut node = MulNode::new(operand(0, 1, 1, true), operand(1, 1, 1, true));
    assert_eq!(node.forward(), ForwardAction::Evaluate);
    assert_eq!(node.forward(), ForwardAction::Cached);
    assert_eq!(node.visits(), (2, 0));
    assert_eq!(
        node.backward(),
        Propagation::Fold { action: BackwardAction::Assign, relay: false }
    );
    assert_eq!(
        node.backward(),
        Propagation::Fold { action: BackwardAction::Increment, relay: true }
    );
    assert_eq!(node.visits(), (2, 2));
    assert_eq!(node.zero_gradient(), Clearing::Operands);
    assert_eq!(node.visits(), (0, 0));
    assert_eq!(node.zero_gradient(), Clearing::Nothing);
}

#[test]
fn log_softmax_counter_can_be_reset_from_outside() {
    let mut node = LogSoftmaxNode::new(operand(0, 1, 3, true));
    node.forward();
    assert_eq!(node.visits(), (1, 0));
    node.zero_counter();
    assert_eq!(node.visits(), (0, 0));
    assert_eq!(node.forward(), ForwardAction::Evaluate);
}

#[test]
fn index_input_holds_a_copy_of_its_indices() {
    let mut node = IndexInputNode::new(&[3, 1, 4, 1, 5, 9]);
    assert_eq!(node.value(), vec![3, 1, 4, 1, 5, 9]);
    assert_eq!(node.as_slice(), &[3, 1, 4, 1, 5, 9]);
    assert!(!node.needs_gradient());
    node.set(&[2, 7]);
    assert_eq!(node.value(), vec![2, 7]);
    node.set(&[]);
    assert_eq!(node.value(), Vec::<usize>::new());
    assert_eq!(node.backward(), Propagation::Discard);
}

#[test]
fn index_node_selects_rows_of_its_parameter() {
    let parameter = operand(0, 10, 4, true);
    let mut node = IndexNode::new(parameter, 1, &[7, 0, 7]);
    assert_eq!(node.value(), Shape::new(3, 4));
    assert_eq!(node.operand_gradient(), Shape::new(3, 4));
    assert_eq!(node.indices(), &[7, 0, 7]);
    assert!(node.needs_gradient());
    let profile = node.describe();
    assert_eq!(profile.kind, NodeKind::Index);
    assert_eq!(profile.index, Some(1));
    assert_eq!(profile.first.unwrap().id, 0);

    assert!(node.can_take(&[9, 9, 9]));
    assert!(!node.can_take(&[9, 9]));
    assert!(!node.can_take(&[9, 10, 9]));
    node.refresh(&[1, 2, 3]);
    assert_eq!(node.indices(), &[1, 2, 3]);
    assert_eq!(node.value(), Shape::new(3, 4));

    assert_eq!(node.forward(), ForwardAction::Evaluate);
    assert_eq!(node.backward(), Propagation::Scatter);
    assert_eq!(node.visits(), (1, 1));
    assert_eq!(node.indices(), &[1, 2, 3]);
}

#[test]
fn index_lists_longer_than_the_inline_room() {
    let long: Vec<usize> = (0..40).collect();
    let parameter = operand(0, 100, 2, true);
    let mut node = IndexNode::new(parameter, 1, &long);
    assert_eq!(node.indices(), long.as_slice());
    let other: Vec<usize> = (0..40).map(|i| 99 - i).collect();
    node.refresh(&other);
    assert_eq!(node.indices(), other.as_slice());
}
