//! Negation, addition, subtraction, multiplication and division, cell by
//! cell, of operands that broadcast to one shape.
//!
//! The gradient of such a node has the shape that the operands broadcast to.
//! What an operand receives is reduced to the operand's shape: the cell of an
//! index of the operand receives the sum over the indices of the gradient
//! that it broadcasts to.

use crate::index::volume;
use crate::layout::{broadcasts_to, Layout};
use crate::node::{
    contribute1, contribute2, contribute3, contribution, reduce, spread, whole, Backward,
    BackwardState, BackwardView, Data, Gradient, Operands, Overwrite,
};
use crate::plan::{Buffer, Rule, Step, StepView};
use crate::shape::{broadcast_dims, broadcastable, lemma_broadcast_dims, Shape};
use vstd::prelude::*;

verus! {

/// The backward node of a negation: the operand receives the negated
/// gradient.
pub struct NegationBackward {
    state: BackwardState,
}

impl NegationBackward {
    /// The node for an operand whose gradient `operand` holds.
    pub fn new<T: Gradient>(operand: &T) -> (node: NegationBackward)
        ensures
            node@ == ({
                let dims = operand.gradient_dims();
                BackwardView {
                    gradient: dims,
                    overwrite: true,
                    left: Some(
                        contribution(
                            Rule::Negation,
                            whole(Buffer::LeftGradient, dims),
                            seq![whole(Buffer::Gradient, dims)],
                        ),
                    ),
                    right: None,
                }
            }),
    {
        let shape = operand.gradient();
        let step = contribute1(
            Rule::Negation,
            Buffer::LeftGradient,
            Layout::contiguous(shape),
            Buffer::Gradient,
            Layout::contiguous(shape),
        );
        NegationBackward { state: BackwardState::new(shape.duplicate(), Some(step), None) }
    }
}

impl View for NegationBackward {
    type V = BackwardView;

    closed spec fn view(&self) -> BackwardView {
        self.state@
    }
}

impl Gradient for NegationBackward {
    open spec fn gradient_dims(&self) -> Seq<usize> {
        self@.gradient
    }

    fn gradient(&self) -> (shape: &Shape) {
        self.state.gradient()
    }
}

impl Overwrite for NegationBackward {
    open spec fn overwritable(&self) -> bool {
        self@.overwrite
    }

    fn can_overwrite(&self) -> (state: bool) {
        self.state.can_overwrite()
    }

    fn set_overwrite(&mut self, state: bool)
        ensures
            final(self)@ == (BackwardView { overwrite: state, ..old(self)@ }),
    {
        self.state.set_overwrite(state)
    }
}

impl Backward for NegationBackward {
    open spec fn left(&self) -> Option<StepView> {
        self@.left
    }

    open spec fn right(&self) -> Option<StepView> {
        self@.right
    }

    fn backward(&self, operands: &mut Operands) -> (plan: Vec<Step>) {
        self.state.backward(operands)
    }
}

/// The backward node of an addition: each operand receives the gradient.
pub struct AdditionBackward {
    state: BackwardState,
}

impl AdditionBackward {
    /// The node for operands whose gradients `left` and `right` hold.
    pub fn new<Lhs: Gradient, Rhs: Gradient>(left: &Lhs, right: &Rhs) -> (node: AdditionBackward)
        requires
            broadcastable(left.gradient_dims(), right.gradient_dims()),
            volume(broadcast_dims(left.gradient_dims(), right.gradient_dims())) <= usize::MAX,
        ensures
            node@ == ({
                let left = left.gradient_dims();
                let right = right.gradient_dims();
                let gradient = broadcast_dims(left, right);
                BackwardView {
                    gradient,
                    overwrite: true,
                    left: Some(
                        contribution(
                            Rule::Copy,
                            spread(Buffer::LeftGradient, left, gradient),
                            seq![whole(Buffer::Gradient, gradient)],
                        ),
                    ),
                    right: Some(
                        contribution(
                            Rule::Copy,
                            spread(Buffer::RightGradient, right, gradient),
                            seq![whole(Buffer::Gradient, gradient)],
                        ),
                    ),
                }
            }),
    {
        let lhs = left.gradient();
        let rhs = right.gradient();
        let gradient = lhs.broadcast(rhs).unwrap();
        proof {
            lemma_broadcast_dims(lhs@, rhs@);
        }
        let first = contribute1(
            Rule::Copy,
            Buffer::LeftGradient,
            reduce(lhs, &gradient),
            Buffer::Gradient,
            Layout::contiguous(&gradient),
        );
        let second = contribute1(
            Rule::Copy,
            Buffer::RightGradient,
            reduce(rhs, &gradient),
            Buffer::Gradient,
            Layout::contiguous(&gradient),
        );
        AdditionBackward { state: BackwardState::new(gradient, Some(first), Some(second)) }
    }
}

impl View for AdditionBackward {
    type V = BackwardView;

    closed spec fn view(&self) -> BackwardView {
        self.state@
    }
}

impl Gradient for AdditionBackward {
    open spec fn gradient_dims(&self) -> Seq<usize> {
        self@.gradient
    }

    fn gradient(&self) -> (shape: &Shape) {
        self.state.gradient()
    }
}

impl Overwrite for AdditionBackward {
    open spec fn overwritable(&self) -> bool {
        self@.overwrite
    }

    fn can_overwrite(&self) -> (state: bool) {
        self.state.can_overwrite()
    }

    fn set_overwrite(&mut self, state: bool)
        ensures
            final(self)@ == (BackwardView { overwrite: state, ..old(self)@ }),
    {
        self.state.set_overwrite(state)
    }
}

impl Backward for AdditionBackward {
    open spec fn left(&self) -> Option<StepView> {
        self@.left
    }

    open spec fn right(&self) -> Option<StepView> {
        self@.right
    }

    fn backward(&self, operands: &mut Operands) -> (plan: Vec<Step>) {
        self.state.backward(operands)
    }
}

/// The node for a left operand whose gradient `diff_operand` holds and another operand whose value `no_diff_operand` holds.
pub struct AdditionBackwardUnary {
    state: BackwardState,
}

impl AdditionBackwardUnary {
    /// The node for a left operand whose gradient `diff_operand` holds and another
    /// operand whose value `no_diff_operand` holds.
    pub fn new<T: Gradient, U: Data>(
        diff_operand: &T,
        no_diff_operand: &U,
    ) -> (node: AdditionBackwardUnary)
        requires
            broadcastable(diff_operand.gradient_dims(), no_diff_operand.data_dims()),
            volume(
                broadcast_dims(diff_operand.gradient_dims(), no_diff_operand.data_dims()),
            ) <= usize::MAX,
        ensures
            node@ == ({
                let left = diff_operand.gradient_dims();
                let right = no_diff_operand.data_dims();
                let gradient = broadcast_dims(left, right);
                BackwardView {
                    gradient,
                    overwrite: true,
                    left: Some(
                        contribution(
                            Rule::Copy,
                            spread(Buffer::LeftGradient, left, gradient),
                            seq![whole(Buffer::Gradient, gradient)],
                        ),
                    ),
                    right: None,
                }
            }),
    {
        let lhs = diff_operand.gradient();
        let rhs = no_diff_operand.data();
        let gradient = lhs.broadcast(rhs).unwrap();
        proof {
            lemma_broadcast_dims(lhs@, rhs@);
        }
        let step = contribute1(
            Rule::Copy,
            Buffer::LeftGradient,
            reduce(lhs, &gradient),
            Buffer::Gradient,
            Layout::contiguous(&gradient),
        );
        AdditionBackwardUnary { state: BackwardState::new(gradient, Some(step), None) }
    }
}

impl View for AdditionBackwardUnary {
    type V = BackwardView;

    closed spec fn view(&self) -> BackwardView {
        self.state@
    }
}

impl Gradient for AdditionBackwardUnary {
    open spec fn gradient_dims(&self) -> Seq<usize> {
        self@.gradient
    }

    fn gradient(&self) -> (shape: &Shape) {
        self.state.gradient()
    }
}

impl Overwrite for AdditionBackwardUnary {
    open spec fn overwritable(&self) -> bool {
        self@.overwrite
    }

    fn can_overwrite(&self) -> (state: bool) {
        self.state.can_overwrite()
    }

    fn set_overwrite(&mut self, state: bool)
        ensures
            final(self)@ == (BackwardView { overwrite: state, ..old(self)@ }),
    {
        self.state.set_overwrite(state)
    }
}

impl Backward for AdditionBackwardUnary {
    open spec fn left(&self) -> Option<StepView> {
        self@.left
    }

    open spec fn right(&self) -> Option<StepView> {
        self@.right
    }

    fn backward(&self, operands: &mut Operands) -> (plan: Vec<Step>) {
        self.state.backward(operands)
    }
}

/// The backward node of a subtraction: the left operand receives the
/// gradient, the right operand the negated gradient.
pub struct SubtractionBackward {
    state: BackwardState,
}

impl SubtractionBackward {
    /// The node for operands whose gradients `left` and `right` hold.
    pub fn new<Lhs: Gradient, Rhs: Gradient>(left: &Lhs, right: &Rhs) -> (node: SubtractionBackward)
        requires
            broadcastable(left.gradient_dims(), right.gradient_dims()),
            volume(broadcast_dims(left.gradient_dims(), right.gradient_dims())) <= usize::MAX,
        ensures
            node@ == ({
                let left = left.gradient_dims();
                let right = right.gradient_dims();
                let gradient = broadcast_dims(left, right);
                BackwardView {
                    gradient,
                    overwrite: true,
                    left: Some(
                        contribution(
                            Rule::Copy,
                            spread(Buffer::LeftGradient, left, gradient),
                            seq![whole(Buffer::Gradient, gradient)],
                        ),
                    ),
                    right: Some(
                        contribution(
                            Rule::Negation,
                            spread(Buffer::RightGradient, right, gradient),
                            seq![whole(Buffer::Gradient, gradient)],
                        ),
                    ),
                }
            }),
    {
        let lhs = left.gradient();
        let rhs = right.gradient();
        let gradient = lhs.broadcast(rhs).unwrap();
        proof {
            lemma_broadcast_dims(lhs@, rhs@);
        }
        let first = contribute1(
            Rule::Copy,
            Buffer::LeftGradient,
            reduce(lhs, &gradient),
            Buffer::Gradient,
            Layout::contiguous(&gradient),
        );
        let second = contribute1(
            Rule::Negation,
            Buffer::RightGradient,
            reduce(rhs, &gradient),
            Buffer::Gradient,
            Layout::contiguous(&gradient),
        );
        SubtractionBackward { state: BackwardState::new(gradient, Some(first), Some(second)) }
    }
}

impl View for SubtractionBackward {
    type V = BackwardView;

    closed spec fn view(&self) -> BackwardView {
        self.state@
    }
}

impl Gradient for SubtractionBackward {
    open spec fn gradient_dims(&self) -> Seq<usize> {
        self@.gradient
    }

    fn gradient(&self) -> (shape: &Shape) {
        self.state.gradient()
    }
}

impl Overwrite for SubtractionBackward {
    open spec fn overwritable(&self) -> bool {
        self@.overwrite
    }

    fn can_overwrite(&self) -> (state: bool) {
        self.state.can_overwrite()
    }

    fn set_overwrite(&mut self, state: bool)
        ensures
            final(self)@ == (BackwardView { overwrite: state, ..old(self)@ }),
    {
        self.state.set_overwrite(state)
    }
}

impl Backward for SubtractionBackward {
    open spec fn left(&self) -> Option<StepView> {
        self@.left
    }

    open spec fn right(&self) -> Option<StepView> {
        self@.right
    }

    fn backward(&self, operands: &mut Operands) -> (plan: Vec<Step>) {
        self.state.backward(operands)
    }
}

/// The node for a left operand whose gradient `diff_operand` holds and another operand whose value `operand` holds.
pub struct SubtractionBackwardLeft {
    state: BackwardState,
}

impl SubtractionBackwardLeft {
    /// The node for a left operand whose gradient `diff_operand` holds and another
    /// operand whose value `operand` holds.
    pub fn new<T: Gradient, U: Data>(
        diff_operand: &T,
        operand: &U,
    ) -> (node: SubtractionBackwardLeft)
        requires
            broadcastable(diff_operand.gradient_dims(), operand.data_dims()),
            volume(broadcast_dims(diff_operand.gradient_dims(), operand.data_dims())) <= usize::MAX,
        ensures
            node@ == ({
                let left = diff_operand.gradient_dims();
                let right = operand.data_dims();
                let gradient = broadcast_dims(left, right);
                BackwardView {
                    gradient,
                    overwrite: true,
                    left: Some(
                        contribution(
                            Rule::Copy,
                            spread(Buffer::LeftGradient, left, gradient),
                            seq![whole(Buffer::Gradient, gradient)],
                        ),
                    ),
                    right: None,
                }
            }),
    {
        let lhs = diff_operand.gradient();
        let rhs = operand.data();
        let gradient = lhs.broadcast(rhs).unwrap();
        proof {
            lemma_broadcast_dims(lhs@, rhs@);
        }
        let step = contribute1(
            Rule::Copy,
            Buffer::LeftGradient,
            reduce(lhs, &gradient),
            Buffer::Gradient,
            Layout::contiguous(&gradient),
        );
        SubtractionBackwardLeft { state: BackwardState::new(gradient, Some(step), None) }
    }
}

impl View for SubtractionBackwardLeft {
    type V = BackwardView;

    closed spec fn view(&self) -> BackwardView {
        self.state@
    }
}

impl Gradient for SubtractionBackwardLeft {
    open spec fn gradient_dims(&self) -> Seq<usize> {
        self@.gradient
    }

    fn gradient(&self) -> (shape: &Shape) {
        self.state.gradient()
    }
}

impl Overwrite for SubtractionBackwardLeft {
    open spec fn overwritable(&self) -> bool {
        self@.overwrite
    }

    fn can_overwrite(&self) -> (state: bool) {
        self.state.can_overwrite()
    }

    fn set_overwrite(&mut self, state: bool)
        ensures
            final(self)@ == (BackwardView { overwrite: state, ..old(self)@ }),
    {
        self.state.set_overwrite(state)
    }
}

impl Backward for SubtractionBackwardLeft {
    open spec fn left(&self) -> Option<StepView> {
        self@.left
    }

    open spec fn right(&self) -> Option<StepView> {
        self@.right
    }

    fn backward(&self, operands: &mut Operands) -> (plan: Vec<Step>) {
        self.state.backward(operands)
    }
}

/// The node for a right operand whose gradient `diff_operand` holds and another operand whose value `operand` holds.
pub struct SubtractionBackwardRight {
    state: BackwardState,
}

impl SubtractionBackwardRight {
    /// The node for a right operand whose gradient `diff_operand` holds and
    /// another operand whose value `operand` holds.
    pub fn new<T: Gradient, U: Data>(
        diff_operand: &T,
        operand: &U,
    ) -> (node: SubtractionBackwardRight)
        requires
            broadcastable(operand.data_dims(), diff_operand.gradient_dims()),
            volume(broadcast_dims(operand.data_dims(), diff_operand.gradient_dims())) <= usize::MAX,
        ensures
            node@ == ({
                let left = operand.data_dims();
                let right = diff_operand.gradient_dims();
                let gradient = broadcast_dims(left, right);
                BackwardView {
                    gradient,
                    overwrite: true,
                    left: None,
                    right: Some(
                        contribution(
                            Rule::Negation,
                            spread(Buffer::RightGradient, right, gradient),
                            seq![whole(Buffer::Gradient, gradient)],
                        ),
                    ),
                }
            }),
    {
        let lhs = operand.data();
        let rhs = diff_operand.gradient();
        let gradient = lhs.broadcast(rhs).unwrap();
        proof {
            lemma_broadcast_dims(lhs@, rhs@);
        }
        let step = contribute1(
            Rule::Negation,
            Buffer::RightGradient,
            reduce(rhs, &gradient),
            Buffer::Gradient,
            Layout::contiguous(&gradient),
        );
        SubtractionBackwardRight { state: BackwardState::new(gradient, None, Some(step)) }
    }
}

impl View for SubtractionBackwardRight {
    type V = BackwardView;

    closed spec fn view(&self) -> BackwardView {
        self.state@
    }
}

impl Gradient for SubtractionBackwardRight {
    open spec fn gradient_dims(&self) -> Seq<usize> {
        self@.gradient
    }

    fn gradient(&self) -> (shape: &Shape) {
        self.state.gradient()
    }
}

impl Overwrite for SubtractionBackwardRight {
    open spec fn overwritable(&self) -> bool {
        self@.overwrite
    }

    fn can_overwrite(&self) -> (state: bool) {
        self.state.can_overwrite()
    }

    fn set_overwrite(&mut self, state: bool)
        ensures
            final(self)@ == (BackwardView { overwrite: state, ..old(self)@ }),
    {
        self.state.set_overwrite(state)
    }
}

impl Backward for SubtractionBackwardRight {
    open spec fn left(&self) -> Option<StepView> {
        self@.left
    }

    open spec fn right(&self) -> Option<StepView> {
        self@.right
    }

    fn backward(&self, operands: &mut Operands) -> (plan: Vec<Step>) {
        self.state.backward(operands)
    }
}

/// The backward node of a multiplication: each operand receives the gradient
/// times the value of the other operand.
pub struct MultiplicationBackward {
    state: BackwardState,
}

impl MultiplicationBackward {
    /// The node for a left operand whose value `left_data` and whose gradient
    /// `left_grad` holds, and a right operand whose value `right_data` and whose
    /// gradient `right_grad` holds. The values may have any shape that broadcasts
    /// to the shape of the result.
    pub fn new<LhsD: Data, LhsG: Gradient, RhsD: Data, RhsG: Gradient>(
        left_data: &LhsD,
        left_grad: &LhsG,
        right_data: &RhsD,
        right_grad: &RhsG,
    ) -> (node: MultiplicationBackward)
        requires
            broadcastable(left_grad.gradient_dims(), right_grad.gradient_dims()),
            volume(
                broadcast_dims(left_grad.gradient_dims(), right_grad.gradient_dims()),
            ) <= usize::MAX,
            broadcasts_to(
                left_data.data_dims(),
                broadcast_dims(left_grad.gradient_dims(), right_grad.gradient_dims()),
            ),
            broadcasts_to(
                right_data.data_dims(),
                broadcast_dims(left_grad.gradient_dims(), right_grad.gradient_dims()),
            ),
        ensures
            node@ == ({
                let left = left_grad.gradient_dims();
                let right = right_grad.gradient_dims();
                let gradient = broadcast_dims(left, right);
                BackwardView {
                    gradient,
                    overwrite: true,
                    left: Some(
                        contribution(
                            Rule::Product,
                            spread(Buffer::LeftGradient, left, gradient),
                            seq![
                                whole(Buffer::Gradient, gradient),
                                spread(Buffer::RightData, right_data.data_dims(), gradient),
                            ],
                        ),
                    ),
                    right: Some(
                        contribution(
                            Rule::Product,
                            spread(Buffer::RightGradient, right, gradient),
                            seq![
                                whole(Buffer::Gradient, gradient),
                                spread(Buffer::LeftData, left_data.data_dims(), gradient),
                            ],
                        ),
                    ),
                }
            }),
    {
        let lhs = left_grad.gradient();
        let rhs = right_grad.gradient();
        let gradient = lhs.broadcast(rhs).unwrap();
        proof {
            lemma_broadcast_dims(lhs@, rhs@);
        }
        let first = contribute2(
            Rule::Product,
            Buffer::LeftGradient,
            reduce(lhs, &gradient),
            Buffer::Gradient,
            Layout::contiguous(&gradient),
            Buffer::RightData,
            reduce(right_data.data(), &gradient),
        );
        let second = contribute2(
            Rule::Product,
            Buffer::RightGradient,
            reduce(rhs, &gradient),
            Buffer::Gradient,
            Layout::contiguous(&gradient),
            Buffer::LeftData,
            reduce(left_data.data(), &gradient),
        );
        MultiplicationBackward { state: BackwardState::new(gradient, Some(first), Some(second)) }
    }
}

impl View for MultiplicationBackward {
    type V = BackwardView;

    closed spec fn view(&self) -> BackwardView {
        self.state@
    }
}

impl Gradient for MultiplicationBackward {
    open spec fn gradient_dims(&self) -> Seq<usize> {
        self@.gradient
    }

    fn gradient(&self) -> (shape: &Shape) {
        self.state.gradient()
    }
}

impl Overwrite for MultiplicationBackward {
    open spec fn overwritable(&self) -> bool {
        self@.overwrite
    }

    fn can_overwrite(&self) -> (state: bool) {
        self.state.can_overwrite()
    }

    fn set_overwrite(&mut self, state: bool)
        ensures
            final(self)@ == (BackwardView { overwrite: state, ..old(self)@ }),
    {
        self.state.set_overwrite(state)
    }
}

impl Backward for MultiplicationBackward {
    open spec fn left(&self) -> Option<StepView> {
        self@.left
    }

    open spec fn right(&self) -> Option<StepView> {
        self@.right
    }

    fn backward(&self, operands: &mut Operands) -> (plan: Vec<Step>) {
        self.state.backward(operands)
    }
}

/// The node for a left operand whose gradient `diff_operand` holds and another operand whose value `no_diff_operand` holds.
pub struct MultiplicationBackwardUnary {
    state: BackwardState,
}

impl MultiplicationBackwardUnary {
    /// The node for a left operand whose gradient `diff_operand` holds and another
    /// operand whose value `no_diff_operand` holds.
    pub fn new<T: Gradient, U: Data>(
        diff_operand: &T,
        no_diff_operand: &U,
    ) -> (node: MultiplicationBackwardUnary)
        requires
            broadcastable(diff_operand.gradient_dims(), no_diff_operand.data_dims()),
            volume(
                broadcast_dims(diff_operand.gradient_dims(), no_diff_operand.data_dims()),
            ) <= usize::MAX,
        ensures
            node@ == ({
                let left = diff_operand.gradient_dims();
                let right = no_diff_operand.data_dims();
                let gradient = broadcast_dims(left, right);
                BackwardView {
                    gradient,
                    overwrite: true,
                    left: Some(
                        contribution(
                            Rule::Product,
                            spread(Buffer::LeftGradient, left, gradient),
                            seq![
                                whole(Buffer::Gradient, gradient),
                                spread(Buffer::RightData, no_diff_operand.data_dims(), gradient),
                            ],
                        ),
                    ),
                    right: None,
                }
            }),
    {
        let lhs = diff_operand.gradient();
        let rhs = no_diff_operand.data();
        let gradient = lhs.broadcast(rhs).unwrap();
        proof {
            lemma_broadcast_dims(lhs@, rhs@);
        }
        let step = contribute2(
            Rule::Product,
            Buffer::LeftGradient,
            reduce(lhs, &gradient),
            Buffer::Gradient,
            Layout::contiguous(&gradient),
            Buffer::RightData,
            reduce(no_diff_operand.data(), &gradient),
        );
        MultiplicationBackwardUnary { state: BackwardState::new(gradient, Some(step), None) }
    }
}

impl View for MultiplicationBackwardUnary {
    type V = BackwardView;

    closed spec fn view(&self) -> BackwardView {
        self.state@
    }
}

impl Gradient for MultiplicationBackwardUnary {
    open spec fn gradient_dims(&self) -> Seq<usize> {
        self@.gradient
    }

    fn gradient(&self) -> (shape: &Shape) {
        self.state.gradient()
    }
}

impl Overwrite for MultiplicationBackwardUnary {
    open spec fn overwritable(&self) -> bool {
        self@.overwrite
    }

    fn can_overwrite(&self) -> (state: bool) {
        self.state.can_overwrite()
    }

    fn set_overwrite(&mut self, state: bool)
        ensures
            final(self)@ == (BackwardView { overwrite: state, ..old(self)@ }),
    {
        self.state.set_overwrite(state)
    }
}

impl Backward for MultiplicationBackwardUnary {
    open spec fn left(&self) -> Option<StepView> {
        self@.left
    }

    open spec fn right(&self) -> Option<StepView> {
        self@.right
    }

    fn backward(&self, operands: &mut Operands) -> (plan: Vec<Step>) {
        self.state.backward(operands)
    }
}

/// The backward node of a division: the left operand receives the gradient
/// divided by the value of the right operand, the right operand the negated
/// gradient times the value of the left operand, divided by the square of its
/// own value.
pub struct DivisionBackward {
    state: BackwardState,
}

impl DivisionBackward {
    /// The node for a left operand whose value `left_data` and whose gradient
    /// `left_grad` holds, and a right operand whose value `right_data` and whose
    /// gradient `right_grad` holds. The values may have any shape that broadcasts
    /// to the shape of the result.
    pub fn new<LhsD: Data, LhsG: Gradient, RhsD: Data, RhsG: Gradient>(
        left_data: &LhsD,
        left_grad: &LhsG,
        right_data: &RhsD,
        right_grad: &RhsG,
    ) -> (node: DivisionBackward)
        requires
            broadcastable(left_grad.gradient_dims(), right_grad.gradient_dims()),
            volume(
                broadcast_dims(left_grad.gradient_dims(), right_grad.gradient_dims()),
            ) <= usize::MAX,
            broadcasts_to(
                left_data.data_dims(),
                broadcast_dims(left_grad.gradient_dims(), right_grad.gradient_dims()),
            ),
            broadcasts_to(
                right_data.data_dims(),
                broadcast_dims(left_grad.gradient_dims(), right_grad.gradient_dims()),
            ),
        ensures
            node@ == ({
                let left = left_grad.gradient_dims();
                let right = right_grad.gradient_dims();
                let gradient = broadcast_dims(left, right);
                BackwardView {
                    gradient,
                    overwrite: true,
                    left: Some(
                        contribution(
                            Rule::Quotient,
                            spread(Buffer::LeftGradient, left, gradient),
                            seq![
                                whole(Buffer::Gradient, gradient),
                                spread(Buffer::RightData, right_data.data_dims(), gradient),
                            ],
                        ),
                    ),
                    right: Some(
                        contribution(
                            Rule::QuotientOfSquare,
                            spread(Buffer::RightGradient, right, gradient),
                            seq![
                                whole(Buffer::Gradient, gradient),
                                spread(Buffer::LeftData, left_data.data_dims(), gradient),
                                spread(Buffer::RightData, right_data.data_dims(), gradient),
                            ],
                        ),
                    ),
                }
            }),
    {
        let lhs = left_grad.gradient();
        let rhs = right_grad.gradient();
        let gradient = lhs.broadcast(rhs).unwrap();
        proof {
            lemma_broadcast_dims(lhs@, rhs@);
        }
        let first = contribute2(
            Rule::Quotient,
            Buffer::LeftGradient,
            reduce(lhs, &gradient),
            Buffer::Gradient,
            Layout::contiguous(&gradient),
            Buffer::RightData,
            reduce(right_data.data(), &gradient),
        );
        let second = contribute3(
            Rule::QuotientOfSquare,
            Buffer::RightGradient,
            reduce(rhs, &gradient),
            Buffer::Gradient,
            Layout::contiguous(&gradient),
            Buffer::LeftData,
            reduce(left_data.data(), &gradient),
            Buffer::RightData,
            reduce(right_data.data(), &gradient),
        );
        DivisionBackward { state: BackwardState::new(gradient, Some(first), Some(second)) }
    }
}

impl View for DivisionBackward {
    type V = BackwardView;

    closed spec fn view(&self) -> BackwardView {
        self.state@
    }
}

impl Gradient for DivisionBackward {
    open spec fn gradient_dims(&self) -> Seq<usize> {
        self@.gradient
    }

    fn gradient(&self) -> (shape: &Shape) {
        self.state.gradient()
    }
}

impl Overwrite for DivisionBackward {
    open spec fn overwritable(&self) -> bool {
        self@.overwrite
    }

    fn can_overwrite(&self) -> (state: bool) {
        self.state.can_overwrite()
    }

    fn set_overwrite(&mut self, state: bool)
        ensures
            final(self)@ == (BackwardView { overwrite: state, ..old(self)@ }),
    {
        self.state.set_overwrite(state)
    }
}

impl Backward for DivisionBackward {
    open spec fn left(&self) -> Option<StepView> {
        self@.left
    }

    open spec fn right(&self) -> Option<StepView> {
        self@.right
    }

    fn backward(&self, operands: &mut Operands) -> (plan: Vec<Step>) {
        self.state.backward(operands)
    }
}

/// The node for a left operand whose gradient `left_grad` holds and another operand whose value `right_data` holds.
pub struct DivisionBackwardLeft {
    state: BackwardState,
}

impl DivisionBackwardLeft {
    /// The node for a left operand whose gradient `left_grad` holds and another
    /// operand whose value `right_data` holds.
    pub fn new<LhsG: Gradient, RhsD: Data>(
        left_grad: &LhsG,
        right_data: &RhsD,
    ) -> (node: DivisionBackwardLeft)
        requires
            broadcastable(left_grad.gradient_dims(), right_data.data_dims()),
            volume(broadcast_dims(left_grad.gradient_dims(), right_data.data_dims())) <= usize::MAX,
        ensures
            node@ == ({
                let left = left_grad.gradient_dims();
                let right = right_data.data_dims();
                let gradient = broadcast_dims(left, right);
                BackwardView {
                    gradient,
                    overwrite: true,
                    left: Some(
                        contribution(
                            Rule::Quotient,
                            spread(Buffer::LeftGradient, left, gradient),
                            seq![
                                whole(Buffer::Gradient, gradient),
                                spread(Buffer::RightData, right_data.data_dims(), gradient),
                            ],
                        ),
                    ),
                    right: None,
                }
            }),
    {
        let lhs = left_grad.gradient();
        let rhs = right_data.data();
        let gradient = lhs.broadcast(rhs).unwrap();
        proof {
            lemma_broadcast_dims(lhs@, rhs@);
        }
        let step = contribute2(
            Rule::Quotient,
            Buffer::LeftGradient,
            reduce(lhs, &gradient),
            Buffer::Gradient,
            Layout::contiguous(&gradient),
            Buffer::RightData,
            reduce(right_data.data(), &gradient),
        );
        DivisionBackwardLeft { state: BackwardState::new(gradient, Some(step), None) }
    }
}

impl View for DivisionBackwardLeft {
    type V = BackwardView;

    closed spec fn view(&self) -> BackwardView {
        self.state@
    }
}

impl Gradient for DivisionBackwardLeft {
    open spec fn gradient_dims(&self) -> Seq<usize> {
        self@.gradient
    }

    fn gradient(&self) -> (shape: &Shape) {
        self.state.gradient()
    }
}

impl Overwrite for DivisionBackwardLeft {
    open spec fn overwritable(&self) -> bool {
        self@.overwrite
    }

    fn can_overwrite(&self) -> (state: bool) {
        self.state.can_overwrite()
    }

    fn set_overwrite(&mut self, state: bool)
        ensures
            final(self)@ == (BackwardView { overwrite: state, ..old(self)@ }),
    {
        self.state.set_overwrite(state)
    }
}

impl Backward for DivisionBackwardLeft {
    open spec fn left(&self) -> Option<StepView> {
        self@.left
    }

    open spec fn right(&self) -> Option<StepView> {
        self@.right
    }

    fn backward(&self, operands: &mut Operands) -> (plan: Vec<Step>) {
        self.state.backward(operands)
    }
}

/// The node for a left operand whose value `left_data` holds and a right operand whose value `right_data` and whose gradient `right_grad` holds.
pub struct DivisionBackwardRight {
    state: BackwardState,
}

impl DivisionBackwardRight {
    /// The node for a left operand whose value `left_data` holds and a right
    /// operand whose value `right_data` and whose gradient `right_grad` holds.
    pub fn new<LhsD: Data, RhsD: Data, RhsG: Gradient>(
        left_data: &LhsD,
        right_data: &RhsD,
        right_grad: &RhsG,
    ) -> (node: DivisionBackwardRight)
        requires
            broadcastable(left_data.data_dims(), right_grad.gradient_dims()),
            volume(broadcast_dims(left_data.data_dims(), right_grad.gradient_dims())) <= usize::MAX,
            broadcasts_to(
                right_data.data_dims(),
                broadcast_dims(left_data.data_dims(), right_grad.gradient_dims()),
            ),
        ensures
            node@ == ({
                let left = left_data.data_dims();
                let right = right_grad.gradient_dims();
                let gradient = broadcast_dims(left, right);
                BackwardView {
                    gradient,
                    overwrite: true,
                    left: None,
                    right: Some(
                        contribution(
                            Rule::QuotientOfSquare,
                            spread(Buffer::RightGradient, right, gradient),
                            seq![
                                whole(Buffer::Gradient, gradient),
                                spread(Buffer::LeftData, left_data.data_dims(), gradient),
                                spread(Buffer::RightData, right_data.data_dims(), gradient),
                            ],
                        ),
                    ),
                }
            }),
    {
        let lhs = left_data.data();
        let rhs = right_grad.gradient();
        let gradient = lhs.broadcast(rhs).unwrap();
        proof {
            lemma_broadcast_dims(lhs@, rhs@);
        }
        let step = contribute3(
            Rule::QuotientOfSquare,
            Buffer::RightGradient,
            reduce(rhs, &gradient),
            Buffer::Gradient,
            Layout::contiguous(&gradient),
            Buffer::LeftData,
            reduce(left_data.data(), &gradient),
            Buffer::RightData,
            reduce(right_data.data(), &gradient),
        );
        DivisionBackwardRight { state: BackwardState::new(gradient, None, Some(step)) }
    }
}

impl View for DivisionBackwardRight {
    type V = BackwardView;

    closed spec fn view(&self) -> BackwardView {
        self.state@
    }
}

impl Gradient for DivisionBackwardRight {
    open spec fn gradient_dims(&self) -> Seq<usize> {
        self@.gradient
    }

    fn gradient(&self) -> (shape: &Shape) {
        self.state.gradient()
    }
}

impl Overwrite for DivisionBackwardRight {
    open spec fn overwritable(&self) -> bool {
        self@.overwrite
    }

    fn can_overwrite(&self) -> (state: bool) {
        self.state.can_overwrite()
    }

    fn set_overwrite(&mut self, state: bool)
        ensures
            final(self)@ == (BackwardView { overwrite: state, ..old(self)@ }),
    {
        self.state.set_overwrite(state)
    }
}

impl Backward for DivisionBackwardRight {
    open spec fn left(&self) -> Option<StepView> {
        self@.left
    }

    open spec fn right(&self) -> Option<StepView> {
        self@.right
    }

    fn backward(&self, operands: &mut Operands) -> (plan: Vec<Step>) {
        self.state.backward(operands)
    }
}

} // verus!
