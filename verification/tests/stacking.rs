use wyrm::binary::ConcatenateNode;
use wyrm::counter::BackwardAction;
use wyrm::node::Operand;
use wyrm::shape::{Axis, Shape};
use wyrm::stack::{
    column_wise_stack, column_wise_stack_gradient, row_wise_stack, row_wise_stack_gradient,
};

fn operand(id: usize, rows: usize, cols: usize) -> Operand {
    Operand {
        id,
        shape: Shape::new(rows, cols),
        needs_gradient: true,
        parameter: false,
    }
}

fn plus(a: f32, b: f32) -> f32 {
    a + b
}

#[test]
fn rows_of_two_by_three_and_three_by_three() {
    let lhs: Vec<f32> = vec![1.0, 2.0, 3.0, 4.0, 5.0, 6.0];
    let rhs: Vec<f32> = vec![7.0, 8.0, 9.0, 10.0, 11.0, 12.0, 13.0, 14.0, 15.0];
    let node = ConcatenateNode::new(operand(0, 2, 3), operand(1, 3, 3), Axis::Rows);
    let mut dest = vec![0.0f32; 15];
    node.join_values(&mut dest, &lhs, &rhs);
    assert_eq!(&dest[0..6], lhs.as_slice());
    assert_eq!(&dest[6..15], rhs.as_slice());

    let gradient: Vec<f32> = (0..15).map(|x| x as f32 * 0.5).collect();
    let mut lhs_gradient = vec![100.0f32; 6];
    let mut rhs_gradient = vec![100.0f32; 9];
    node.split_gradient(
        &gradient,
        &mut lhs_gradient,
        &mut rhs_gradient,
        &BackwardAction::Assign,
        plus,
    );
    assert_eq!(lhs_gradient.as_slice(), &gradient[0..6]);
    assert_eq!(rhs_gradient.as_slice(), &gradient[6..15]);
}

#[test]
fn row_wise_stack_keeps_the_order() {
    let mut dest = vec![0u8; 5];
    row_wise_stack(&mut dest, &[1, 2], &[3, 4, 5]);
    assert_eq!(dest, vec![1, 2, 3, 4, 5]);
    let mut nothing: Vec<u8> = Vec::new();
    row_wise_stack(&mut nothing, &[], &[]);
    assert!(nothing.is_empty());
}

#[test]
fn column_wise_stack_interleaves_the_rows() {
    let lhs = [1, 2, 3, 4];
    let rhs = [5, 6, 7, 8, 9, 10];
    let mut dest = vec![0; 10];
    column_wise_stack(&mut dest, &lhs, &rhs, 2, 2, 3);
    assert_eq!(dest, vec![1, 2, 5, 6, 7, 3, 4, 8, 9, 10]);

    let node = ConcatenateNode::new(operand(0, 2, 2), operand(1, 2, 3), Axis::Columns);
    let mut again = vec![0; 10];
    node.join_values(&mut again, &lhs, &rhs);
    assert_eq!(again, dest);
}

#[test]
fn assign_then_increment_sums_both_gradients() {
    let g1: Vec<f32> = vec![1.0, 2.0, 3.0, 4.0, 5.0];
    let g2: Vec<f32> = vec![10.0, 20.0, 30.0, 40.0, 50.0];
    let mut lhs = vec![-1.0f32; 2];
    let mut rhs = vec![-1.0f32; 3];
    row_wise_stack_gradient(&g1, &mut lhs, &mut rhs, &BackwardAction::Assign, plus);
    assert_eq!(lhs, vec![1.0, 2.0]);
    assert_eq!(rhs, vec![3.0, 4.0, 5.0]);
    row_wise_stack_gradient(&g2, &mut lhs, &mut rhs, &BackwardAction::Increment, plus);
    assert_eq!(lhs, vec![11.0, 22.0]);
    assert_eq!(rhs, vec![33.0, 44.0, 55.0]);

    let both: Vec<f32> = g1.iter().zip(g2.iter()).map(|(a, b)| a + b).collect();
    let mut lhs_once = vec![0.0f32; 2];
    let mut rhs_once = vec![0.0f32; 3];
    row_wise_stack_gradient(&both, &mut lhs_once, &mut rhs_once, &BackwardAction::Assign, plus);
    assert_eq!(lhs_once, lhs);
    assert_eq!(rhs_once, rhs);
}

#[test]
fn column_wise_gradient_goes_back_to_its_columns() {
    let gradient: Vec<f32> = vec![1.0, 2.0, 5.0, 6.0, 7.0, 3.0, 4.0, 8.0, 9.0, 10.0];
    let mut lhs = vec![0.5f32; 4];
    let mut rhs = vec![0.5f32; 6];
    column_wise_stack_gradient(
        &gradient,
        &mut lhs,
        &mut rhs,
        2,
        2,
        3,
        &BackwardAction::Assign,
        plus,
    );
    assert_eq!(lhs, vec![1.0, 2.0, 3.0, 4.0]);
    assert_eq!(rhs, vec![5.0, 6.0, 7.0, 8.0, 9.0, 10.0]);
    column_wise_stack_gradient(
        &gradient,
        &mut lhs,
        &mut rhs,
        2,
        2,
        3,
        &BackwardAction::Increment,
        plus,
    );
    assert_eq!(lhs, vec![2.0, 4.0, 6.0, 8.0]);
    assert_eq!(rhs, vec![10.0, 12.0, 14.0, 16.0, 18.0, 20.0]);

    let node = ConcatenateNode::new(operand(0, 2, 2), operand(1, 2, 3), Axis::Columns);
    let mut lhs_again = vec![0.0f32; 4];
    let mut rhs_again = vec![0.0f32; 6];
    node.split_gradient(
        &gradient,
        &mut lhs_again,
        &mut rhs_again,
        &BackwardAction::Assign,
        plus,
    );
    assert_eq!(lhs_again, vec![1.0, 2.0, 3.0, 4.0]);
    assert_eq!(rhs_again, vec![5.0, 6.0, 7.0, 8.0, 9.0, 10.0]);
}
