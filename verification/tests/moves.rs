use wyrm::counter::BackwardAction;
use wyrm::indices::{rows_in_range, IndexList};
use wyrm::node::Operand;
use wyrm::rows::{merge_into, select_rows, transpose_gradient, transpose_into};
use wyrm::select::{copy_indices, IndexNode};
use wyrm::shape::Shape;
use wyrm::unary::TransposeNode;

fn plus(a: f32, b: f32) -> f32 {
    a + b
}

#[test]
fn index_list_holds_what_it_was_given() {
    let mut list = IndexList::from_slice(&[5, 6, 7, 8, 9, 10]);
    assert_eq!(list.len(), 6);
    assert_eq!(list.as_slice(), &[5, 6, 7, 8, 9, 10]);
    assert!(list.fits(6, 11));
    assert!(!list.fits(6, 10));
    assert!(!list.fits(5, 11));
    list.assign(&[1, 2]);
    assert_eq!(list.len(), 2);
    assert_eq!(list.as_slice(), &[1, 2]);
    list.assign(&[]);
    assert_eq!(list.len(), 0);
    assert_eq!(IndexList::from_slice(&[]).len(), 0);
}

#[test]
fn rows_in_range_checks_count_and_bound() {
    assert!(rows_in_range(&[0, 3, 2], 3, 4));
    assert!(!rows_in_range(&[0, 4, 2], 3, 4));
    assert!(!rows_in_range(&[0, 3], 3, 4));
    assert!(rows_in_range(&[], 0, 0));
    assert_eq!(copy_indices(&[4, 4, 1]), vec![4, 4, 1]);
}

#[test]
fn assign_then_increment_holds_the_sum() {
    let mut buffer = vec![9.0f32, 9.0, 9.0];
    merge_into(&mut buffer, &[1.0, 2.0, 3.0], &BackwardAction::Assign, plus);
    assert_eq!(buffer, vec![1.0, 2.0, 3.0]);
    merge_into(&mut buffer, &[0.5, 0.25, -3.0], &BackwardAction::Increment, plus);
    assert_eq!(buffer, vec![1.5, 2.25, 0.0]);
    let mut once = vec![9.0f32, 9.0, 9.0];
    merge_into(&mut once, &[1.5, 2.25, 0.0], &BackwardAction::Assign, plus);
    assert_eq!(once, buffer);
}

#[test]
fn selected_rows_follow_the_indices() {
    let source = [10, 11, 20, 21, 30, 31, 40, 41];
    let mut dest = vec![0; 6];
    select_rows(&mut dest, &source, &[3, 0, 3], 4, 2);
    assert_eq!(dest, vec![40, 41, 10, 11, 40, 41]);
    let mut none: Vec<i32> = Vec::new();
    select_rows(&mut none, &source, &[], 4, 2);
    assert!(none.is_empty());

    let parameter = Operand {
        id: 0,
        shape: Shape::new(4, 2),
        needs_gradient: true,
        parameter: true,
    };
    let node = IndexNode::new(parameter, 1, &[2, 2, 1]);
    let mut value = vec![0; 6];
    node.select(&mut value, &source);
    assert_eq!(value, vec![30, 31, 30, 31, 20, 21]);
}

#[test]
fn transposition_exchanges_rows_and_columns() {
    let source = [1, 2, 3, 4, 5, 6];
    let mut dest = vec![0; 6];
    transpose_into(&mut dest, &source, 2, 3);
    assert_eq!(dest, vec![1, 4, 2, 5, 3, 6]);

    let operand = Operand {
        id: 0,
        shape: Shape::new(2, 3),
        needs_gradient: true,
        parameter: false,
    };
    let node = TransposeNode::new(operand);
    let mut value = vec![0; 6];
    node.transpose_value(&mut value, &source);
    assert_eq!(value, vec![1, 4, 2, 5, 3, 6]);

    let gradient: Vec<f32> = vec![1.0, 4.0, 2.0, 5.0, 3.0, 6.0];
    let mut buffer = vec![0.0f32; 6];
    node.transpose_gradient(&gradient, &mut buffer, &BackwardAction::Assign, plus);
    assert_eq!(buffer, vec![1.0, 2.0, 3.0, 4.0, 5.0, 6.0]);
    transpose_gradient(&gradient, &mut buffer, 2, 3, &BackwardAction::Increment, plus);
    assert_eq!(buffer, vec![2.0, 4.0, 6.0, 8.0, 10.0, 12.0]);
}
