use neuronika::node::arithmetic::{AdditionBackward, NegationBackward};
use neuronika::node::forward::Input;
use neuronika::node::{
    backward_both, backward_left, Backward, Data, Differentiable, Gradient, Operands, Overwrite,
};
use neuronika::plan::{Buffer, Rule, WriteMode};
use neuronika::shape::Shape;

#[test]
fn shape_len_is_product() {
    let shape = Shape::new(vec![2, 2, 3]).unwrap();
    assert_eq!(shape.len(), 12);
    assert_eq!(shape.ndim(), 3);
}

#[test]
fn a_leaf_starts_with_its_flag_raised() {
    let input = Input::new(Shape::new(vec![3, 3]).unwrap());
    assert_eq!(input.data().dims(), vec![3, 3]);
    let mut leaf = input.differentiable();
    assert_eq!(leaf.gradient().dims(), vec![3, 3]);
    assert!(leaf.can_overwrite());
    leaf.set_overwrite(false);
    assert!(!leaf.can_overwrite());
    leaf.set_overwrite(true);
    assert!(leaf.can_overwrite());
}

#[test]
fn a_node_starts_with_its_flag_raised() {
    let leaf = Input::new(Shape::new(vec![3]).unwrap()).differentiable();
    let mut node = NegationBackward::new(&leaf);
    assert!(node.can_overwrite());
    node.set_overwrite(false);
    assert!(!node.can_overwrite());
    assert_eq!(node.gradient().dims(), vec![3]);
}

#[test]
fn a_node_can_be_the_operand_of_a_node() {
    let leaf = Input::new(Shape::new(vec![2, 3]).unwrap()).differentiable();
    let mut inner = NegationBackward::new(&leaf);
    let outer = NegationBackward::new(&inner);

    let plan = backward_left(&outer, &mut inner);
    assert_eq!(plan.len(), 1);
    assert_eq!(plan[0].rule(), Rule::Negation);
    assert_eq!(plan[0].mode(), WriteMode::Overwrite);
    assert!(!inner.can_overwrite());

    let plan = backward_left(&outer, &mut inner);
    assert_eq!(plan[0].mode(), WriteMode::Accumulate);
    assert!(!inner.can_overwrite());
}

#[test]
fn both_operands_are_written_left_first() {
    let mut left = Input::new(Shape::new(vec![3]).unwrap()).differentiable();
    let mut right = Input::new(Shape::new(vec![2, 3]).unwrap()).differentiable();
    let node = AdditionBackward::new(&left, &right);
    right.set_overwrite(false);

    let plan = backward_both(&node, &mut left, &mut right);
    assert_eq!(plan.len(), 2);
    assert_eq!(plan[0].target().buffer, Buffer::LeftGradient);
    assert_eq!(plan[0].mode(), WriteMode::Overwrite);
    assert_eq!(plan[1].target().buffer, Buffer::RightGradient);
    assert_eq!(plan[1].mode(), WriteMode::Accumulate);
    assert!(!left.can_overwrite());
    assert!(!right.can_overwrite());

    let mut operands = Operands { left: true, right: true };
    let plan = node.backward(&mut operands);
    assert_eq!(plan[0].mode(), WriteMode::Overwrite);
    assert_eq!(plan[1].mode(), WriteMode::Overwrite);
    assert_eq!(operands, Operands { left: false, right: false });
}
