//! Powers, logarithms and activations. The gradient of such a node has the
//! shape of its operand, and what the operand receives at a cell depends on
//! the gradient at that cell and on the operand's value, or on the value that
//! the operation computed, at that cell; for the two softmax nodes, on the
//! cells of one lane.

use crate::index::{in_bounds, ravel, volume};
use crate::layout::{lemma_contiguous, Layout, LayoutView};
use crate::node::{
    access, contribute2, contribution, whole, Backward, BackwardState, BackwardView, Data,
    Gradient, Operands, Overwrite,
};
use crate::plan::{Buffer, Rule, Step, StepView};
use crate::shape::Shape;
use vstd::prelude::*;

verus! {

/// The lanes of the two softmax nodes run along the axis of the softmax: an
/// index of the step, which has the place along the lane last, is placed at
/// the cell of the index of the tensor that has that place on the axis
/// `axis`. So two indices of one lane differ on that axis alone.
pub proof fn lemma_lane_cells(dims: Seq<usize>, axis: int, idx: Seq<int>)
    requires
        volume(dims) <= usize::MAX,
        0 <= axis < dims.len(),
        in_bounds(idx, LayoutView::contiguous(dims).axis_last(axis).dims),
    ensures
        in_bounds(idx.drop_last().insert(axis, idx.last()), dims),
        LayoutView::contiguous(dims).axis_last(axis).at(idx) == ravel(
            dims,
            idx.drop_last().insert(axis, idx.last()),
        ),
{
    lemma_contiguous(dims);
    LayoutView::contiguous(dims).lemma_axis_last(axis, idx);
}

/// The backward node of a power with a whole exponent `e`: the operand
/// receives the gradient times its own value to the power `e - 1` times `e`.
pub struct PowerBackward {
    state: BackwardState,
}

impl PowerBackward {
    /// The node for an operand whose gradient `operand_grad` holds. `operand_data`
    /// holds the value of the operand, and `exp` is the exponent.
    pub fn new<T: Gradient, U: Data>(
        operand_grad: &T,
        operand_data: &U,
        exp: i32,
    ) -> (node: PowerBackward)
        requires
            operand_data.data_dims() == operand_grad.gradient_dims(),
        ensures
            node@ == ({
                let dims = operand_grad.gradient_dims();
                BackwardView {
                    gradient: dims,
                    overwrite: true,
                    left: Some(
                        contribution(
                            Rule::Power { exponent: exp },
                            whole(Buffer::LeftGradient, dims),
                            seq![
                                whole(Buffer::Gradient, dims),
                                whole(Buffer::LeftData, dims),
                            ],
                        ),
                    ),
                    right: None,
                }
            }),
    {
        let shape = operand_grad.gradient();
        let step = contribute2(
            Rule::Power { exponent: exp },
            Buffer::LeftGradient,
            Layout::contiguous(shape),
            Buffer::Gradient,
            Layout::contiguous(shape),
            Buffer::LeftData,
            Layout::contiguous(operand_data.data()),
        );
        PowerBackward { state: BackwardState::new(shape.duplicate(), Some(step), None) }
    }
}

impl View for PowerBackward {
    type V = BackwardView;

    closed spec fn view(&self) -> BackwardView {
        self.state@
    }
}

impl Gradient for PowerBackward {
    open spec fn gradient_dims(&self) -> Seq<usize> {
        self@.gradient
    }

    fn gradient(&self) -> (shape: &Shape) {
        self.state.gradient()
    }
}

impl Overwrite for PowerBackward {
    open spec fn overwritable(&self) -> bool {
        self@.overwrite
    }

    fn can_overwrite(&self) -> (state: bool) {
        self.state.can_overwrite()
    }

    fn set_overwrite(&mut self, state: bool)
        ensures
            final(self)@ == (BackwardView { overwrite: state, ..old(self)@ }),
    {
        self.state.set_overwrite(state)
    }
}

impl Backward for PowerBackward {
    open spec fn left(&self) -> Option<StepView> {
        self@.left
    }

    open spec fn right(&self) -> Option<StepView> {
        self@.right
    }

    fn backward(&self, operands: &mut Operands) -> (plan: Vec<Step>) {
        self.state.backward(operands)
    }
}

/// The backward node of the natural logarithm: the operand receives the
/// gradient divided by its own value.
pub struct LognBackward {
    state: BackwardState,
}

impl LognBackward {
    /// The node for an operand whose gradient `operand_grad` holds. `operand_data`
    /// holds the value of the operand.
    pub fn new<T: Gradient, U: Data>(operand_grad: &T, operand_data: &U) -> (node: LognBackward)
        requires
            operand_data.data_dims() == operand_grad.gradient_dims(),
        ensures
            node@ == ({
                let dims = operand_grad.gradient_dims();
                BackwardView {
                    gradient: dims,
                    overwrite: true,
                    left: Some(
                        contribution(
                            Rule::Quotient,
                            whole(Buffer::LeftGradient, dims),
                            seq![
                                whole(Buffer::Gradient, dims),
                                whole(Buffer::LeftData, dims),
                            ],
                        ),
                    ),
                    right: None,
                }
            }),
    {
        let shape = operand_grad.gradient();
        let step = contribute2(
            Rule::Quotient,
            Buffer::LeftGradient,
            Layout::contiguous(shape),
            Buffer::Gradient,
            Layout::contiguous(shape),
            Buffer::LeftData,
            Layout::contiguous(operand_data.data()),
        );
        LognBackward { state: BackwardState::new(shape.duplicate(), Some(step), None) }
    }
}

impl View for LognBackward {
    type V = BackwardView;

    closed spec fn view(&self) -> BackwardView {
        self.state@
    }
}

impl Gradient for LognBackward {
    open spec fn gradient_dims(&self) -> Seq<usize> {
        self@.gradient
    }

    fn gradient(&self) -> (shape: &Shape) {
        self.state.gradient()
    }
}

impl Overwrite for LognBackward {
    open spec fn overwritable(&self) -> bool {
        self@.overwrite
    }

    fn can_overwrite(&self) -> (state: bool) {
        self.state.can_overwrite()
    }

    fn set_overwrite(&mut self, state: bool)
        ensures
            final(self)@ == (BackwardView { overwrite: state, ..old(self)@ }),
    {
        self.state.set_overwrite(state)
    }
}

impl Backward for LognBackward {
    open spec fn left(&self) -> Option<StepView> {
        self@.left
    }

    open spec fn right(&self) -> Option<StepView> {
        self@.right
    }

    fn backward(&self, operands: &mut Operands) -> (plan: Vec<Step>) {
        self.state.backward(operands)
    }
}

/// The backward node of the rectifier: the operand receives the gradient
/// where its own value is above zero, and zero elsewhere.
pub struct ReLUBackward {
    state: BackwardState,
}

impl ReLUBackward {
    /// The node for an operand whose gradient `operand_grad` holds. `operand_data`
    /// holds the value of the operand.
    pub fn new<T: Gradient, U: Data>(operand_grad: &T, operand_data: &U) -> (node: ReLUBackward)
        requires
            operand_data.data_dims() == operand_grad.gradient_dims(),
        ensures
            node@ == ({
                let dims = operand_grad.gradient_dims();
                BackwardView {
                    gradient: dims,
                    overwrite: true,
                    left: Some(
                        contribution(
                            Rule::ReLU,
                            whole(Buffer::LeftGradient, dims),
                            seq![
                                whole(Buffer::Gradient, dims),
                                whole(Buffer::LeftData, dims),
                            ],
                        ),
                    ),
                    right: None,
                }
            }),
    {
        let shape = operand_grad.gradient();
        let step = contribute2(
            Rule::ReLU,
            Buffer::LeftGradient,
            Layout::contiguous(shape),
            Buffer::Gradient,
            Layout::contiguous(shape),
            Buffer::LeftData,
            Layout::contiguous(operand_data.data()),
        );
        ReLUBackward { state: BackwardState::new(shape.duplicate(), Some(step), None) }
    }
}

impl View for ReLUBackward {
    type V = BackwardView;

    closed spec fn view(&self) -> BackwardView {
        self.state@
    }
}

impl Gradient for ReLUBackward {
    open spec fn gradient_dims(&self) -> Seq<usize> {
        self@.gradient
    }

    fn gradient(&self) -> (shape: &Shape) {
        self.state.gradient()
    }
}

impl Overwrite for ReLUBackward {
    open spec fn overwritable(&self) -> bool {
        self@.overwrite
    }

    fn can_overwrite(&self) -> (state: bool) {
        self.state.can_overwrite()
    }

    fn set_overwrite(&mut self, state: bool)
        ensures
            final(self)@ == (BackwardView { overwrite: state, ..old(self)@ }),
    {
        self.state.set_overwrite(state)
    }
}

impl Backward for ReLUBackward {
    open spec fn left(&self) -> Option<StepView> {
        self@.left
    }

    open spec fn right(&self) -> Option<StepView> {
        self@.right
    }

    fn backward(&self, operands: &mut Operands) -> (plan: Vec<Step>) {
        self.state.backward(operands)
    }
}

/// The backward node of the leaky rectifier: the operand receives the gradient
/// where its own value is above zero, and a hundredth of the gradient
/// elsewhere.
pub struct LeakyReLUBackward {
    state: BackwardState,
}

impl LeakyReLUBackward {
    /// The node for an operand whose gradient `operand_grad` holds. `operand_data`
    /// holds the value of the operand.
    pub fn new<T: Gradient, U: Data>(
        operand_grad: &T,
        operand_data: &U,
    ) -> (node: LeakyReLUBackward)
        requires
            operand_data.data_dims() == operand_grad.gradient_dims(),
        ensures
            node@ == ({
                let dims = operand_grad.gradient_dims();
                BackwardView {
                    gradient: dims,
                    overwrite: true,
                    left: Some(
                        contribution(
                            Rule::LeakyReLU,
                            whole(Buffer::LeftGradient, dims),
                            seq![
                                whole(Buffer::Gradient, dims),
                                whole(Buffer::LeftData, dims),
                            ],
                        ),
                    ),
                    right: None,
                }
            }),
    {
        let shape = operand_grad.gradient();
        let step = contribute2(
            Rule::LeakyReLU,
            Buffer::LeftGradient,
            Layout::contiguous(shape),
            Buffer::Gradient,
            Layout::contiguous(shape),
            Buffer::LeftData,
            Layout::contiguous(operand_data.data()),
        );
        LeakyReLUBackward { state: BackwardState::new(shape.duplicate(), Some(step), None) }
    }
}

impl View for LeakyReLUBackward {
    type V = BackwardView;

    closed spec fn view(&self) -> BackwardView {
        self.state@
    }
}

impl Gradient for LeakyReLUBackward {
    open spec fn gradient_dims(&self) -> Seq<usize> {
        self@.gradient
    }

    fn gradient(&self) -> (shape: &Shape) {
        self.state.gradient()
    }
}

impl Overwrite for LeakyReLUBackward {
    open spec fn overwritable(&self) -> bool {
        self@.overwrite
    }

    fn can_overwrite(&self) -> (state: bool) {
        self.state.can_overwrite()
    }

    fn set_overwrite(&mut self, state: bool)
        ensures
            final(self)@ == (BackwardView { overwrite: state, ..old(self)@ }),
    {
        self.state.set_overwrite(state)
    }
}

impl Backward for LeakyReLUBackward {
    open spec fn left(&self) -> Option<StepView> {
        self@.left
    }

    open spec fn right(&self) -> Option<StepView> {
        self@.right
    }

    fn backward(&self, operands: &mut Operands) -> (plan: Vec<Step>) {
        self.state.backward(operands)
    }
}

/// The backward node of the softplus: the operand receives the gradient where
/// its own value is at least 15, zero where it is at most -15, and between the
/// two the gradient times the logistic function of its value.
pub struct SoftPlusBackward {
    state: BackwardState,
}

impl SoftPlusBackward {
    /// The node for an operand whose gradient `operand_grad` holds. `operand_data`
    /// holds the value of the operand.
    pub fn new<T: Gradient, U: Data>(operand_grad: &T, operand_data: &U) -> (node: SoftPlusBackward)
        requires
            operand_data.data_dims() == operand_grad.gradient_dims(),
        ensures
            node@ == ({
                let dims = operand_grad.gradient_dims();
                BackwardView {
                    gradient: dims,
                    overwrite: true,
                    left: Some(
                        contribution(
                            Rule::SoftPlus,
                            whole(Buffer::LeftGradient, dims),
                            seq![
                                whole(Buffer::Gradient, dims),
                                whole(Buffer::LeftData, dims),
                            ],
                        ),
                    ),
                    right: None,
                }
            }),
    {
        let shape = operand_grad.gradient();
        let step = contribute2(
            Rule::SoftPlus,
            Buffer::LeftGradient,
            Layout::contiguous(shape),
            Buffer::Gradient,
            Layout::contiguous(shape),
            Buffer::LeftData,
            Layout::contiguous(operand_data.data()),
        );
        SoftPlusBackward { state: BackwardState::new(shape.duplicate(), Some(step), None) }
    }
}

impl View for SoftPlusBackward {
    type V = BackwardView;

    closed spec fn view(&self) -> BackwardView {
        self.state@
    }
}

impl Gradient for SoftPlusBackward {
    open spec fn gradient_dims(&self) -> Seq<usize> {
        self@.gradient
    }

    fn gradient(&self) -> (shape: &Shape) {
        self.state.gradient()
    }
}

impl Overwrite for SoftPlusBackward {
    open spec fn overwritable(&self) -> bool {
        self@.overwrite
    }

    fn can_overwrite(&self) -> (state: bool) {
        self.state.can_overwrite()
    }

    fn set_overwrite(&mut self, state: bool)
        ensures
            final(self)@ == (BackwardView { overwrite: state, ..old(self)@ }),
    {
        self.state.set_overwrite(state)
    }
}

impl Backward for SoftPlusBackward {
    open spec fn left(&self) -> Option<StepView> {
        self@.left
    }

    open spec fn right(&self) -> Option<StepView> {
        self@.right
    }

    fn backward(&self, operands: &mut Operands) -> (plan: Vec<Step>) {
        self.state.backward(operands)
    }
}

/// The backward node of the logistic function: the operand receives the
/// gradient times `y * (1 - y)`, where `y` is the value that the function
/// computed.
pub struct SigmoidBackward {
    state: BackwardState,
}

impl SigmoidBackward {
    /// The node for an operand whose gradient `operand_grad` holds. `data` holds
    /// the value that the operation computed.
    pub fn new<T: Gradient, U: Data>(operand_grad: &T, data: &U) -> (node: SigmoidBackward)
        requires
            data.data_dims() == operand_grad.gradient_dims(),
        ensures
            node@ == ({
                let dims = operand_grad.gradient_dims();
                BackwardView {
                    gradient: dims,
                    overwrite: true,
                    left: Some(
                        contribution(
                            Rule::Sigmoid,
                            whole(Buffer::LeftGradient, dims),
                            seq![
                                whole(Buffer::Gradient, dims),
                                whole(Buffer::Data, dims),
                            ],
                        ),
                    ),
                    right: None,
                }
            }),
    {
        let shape = operand_grad.gradient();
        let step = contribute2(
            Rule::Sigmoid,
            Buffer::LeftGradient,
            Layout::contiguous(shape),
            Buffer::Gradient,
            Layout::contiguous(shape),
            Buffer::Data,
            Layout::contiguous(data.data()),
        );
        SigmoidBackward { state: BackwardState::new(shape.duplicate(), Some(step), None) }
    }
}

impl View for SigmoidBackward {
    type V = BackwardView;

    closed spec fn view(&self) -> BackwardView {
        self.state@
    }
}

impl Gradient for SigmoidBackward {
    open spec fn gradient_dims(&self) -> Seq<usize> {
        self@.gradient
    }

    fn gradient(&self) -> (shape: &Shape) {
        self.state.gradient()
    }
}

impl Overwrite for SigmoidBackward {
    open spec fn overwritable(&self) -> bool {
        self@.overwrite
    }

    fn can_overwrite(&self) -> (state: bool) {
        self.state.can_overwrite()
    }

    fn set_overwrite(&mut self, state: bool)
        ensures
            final(self)@ == (BackwardView { overwrite: state, ..old(self)@ }),
    {
        self.state.set_overwrite(state)
    }
}

impl Backward for SigmoidBackward {
    open spec fn left(&self) -> Option<StepView> {
        self@.left
    }

    open spec fn right(&self) -> Option<StepView> {
        self@.right
    }

    fn backward(&self, operands: &mut Operands) -> (plan: Vec<Step>) {
        self.state.backward(operands)
    }
}

/// The backward node of the hyperbolic tangent: the operand receives the
/// gradient times `1 - y^2`, where `y` is the value that the function computed.
pub struct TanHBackward {
    state: BackwardState,
}

impl TanHBackward {
    /// The node for an operand whose gradient `operand_grad` holds. `data` holds
    /// the value that the operation computed.
    pub fn new<T: Gradient, U: Data>(operand_grad: &T, data: &U) -> (node: TanHBackward)
        requires
            data.data_dims() == operand_grad.gradient_dims(),
        ensures
            node@ == ({
                let dims = operand_grad.gradient_dims();
                BackwardView {
                    gradient: dims,
                    overwrite: true,
                    left: Some(
                        contribution(
                            Rule::TanH,
                            whole(Buffer::LeftGradient, dims),
                            seq![
                                whole(Buffer::Gradient, dims),
                                whole(Buffer::Data, dims),
                            ],
                        ),
                    ),
                    right: None,
                }
            }),
    {
        let shape = operand_grad.gradient();
        let step = contribute2(
            Rule::TanH,
            Buffer::LeftGradient,
            Layout::contiguous(shape),
            Buffer::Gradient,
            Layout::contiguous(shape),
            Buffer::Data,
            Layout::contiguous(data.data()),
        );
        TanHBackward { state: BackwardState::new(shape.duplicate(), Some(step), None) }
    }
}

impl View for TanHBackward {
    type V = BackwardView;

    closed spec fn view(&self) -> BackwardView {
        self.state@
    }
}

impl Gradient for TanHBackward {
    open spec fn gradient_dims(&self) -> Seq<usize> {
        self@.gradient
    }

    fn gradient(&self) -> (shape: &Shape) {
        self.state.gradient()
    }
}

impl Overwrite for TanHBackward {
    open spec fn overwritable(&self) -> bool {
        self@.overwrite
    }

    fn can_overwrite(&self) -> (state: bool) {
        self.state.can_overwrite()
    }

    fn set_overwrite(&mut self, state: bool)
        ensures
            final(self)@ == (BackwardView { overwrite: state, ..old(self)@ }),
    {
        self.state.set_overwrite(state)
    }
}

impl Backward for TanHBackward {
    open spec fn left(&self) -> Option<StepView> {
        self@.left
    }

    open spec fn right(&self) -> Option<StepView> {
        self@.right
    }

    fn backward(&self, operands: &mut Operands) -> (plan: Vec<Step>) {
        self.state.backward(operands)
    }
}

/// The backward node of the exponential: the operand receives the gradient
/// times the value that the function computed.
pub struct ExpBackward {
    state: BackwardState,
}

impl ExpBackward {
    /// The node for an operand whose gradient `operand_grad` holds. `data` holds
    /// the value that the operation computed.
    pub fn new<T: Gradient, U: Data>(operand_grad: &T, data: &U) -> (node: ExpBackward)
        requires
            data.data_dims() == operand_grad.gradient_dims(),
        ensures
            node@ == ({
                let dims = operand_grad.gradient_dims();
                BackwardView {
                    gradient: dims,
                    overwrite: true,
                    left: Some(
                        contribution(
                            Rule::Product,
                            whole(Buffer::LeftGradient, dims),
                            seq![
                                whole(Buffer::Gradient, dims),
                                whole(Buffer::Data, dims),
                            ],
                        ),
                    ),
                    right: None,
                }
            }),
    {
        let shape = operand_grad.gradient();
        let step = contribute2(
            Rule::Product,
            Buffer::LeftGradient,
            Layout::contiguous(shape),
            Buffer::Gradient,
            Layout::contiguous(shape),
            Buffer::Data,
            Layout::contiguous(data.data()),
        );
        ExpBackward { state: BackwardState::new(shape.duplicate(), Some(step), None) }
    }
}

impl View for ExpBackward {
    type V = BackwardView;

    closed spec fn view(&self) -> BackwardView {
        self.state@
    }
}

impl Gradient for ExpBackward {
    open spec fn gradient_dims(&self) -> Seq<usize> {
        self@.gradient
    }

    fn gradient(&self) -> (shape: &Shape) {
        self.state.gradient()
    }
}

impl Overwrite for ExpBackward {
    open spec fn overwritable(&self) -> bool {
        self@.overwrite
    }

    fn can_overwrite(&self) -> (state: bool) {
        self.state.can_overwrite()
    }

    fn set_overwrite(&mut self, state: bool)
        ensures
            final(self)@ == (BackwardView { overwrite: state, ..old(self)@ }),
    {
        self.state.set_overwrite(state)
    }
}

impl Backward for ExpBackward {
    open spec fn left(&self) -> Option<StepView> {
        self@.left
    }

    open spec fn right(&self) -> Option<StepView> {
        self@.right
    }

    fn backward(&self, operands: &mut Operands) -> (plan: Vec<Step>) {
        self.state.backward(operands)
    }
}

/// The backward node of the softmax along an axis. On each lane along that
/// axis the operand receives `y * (g - s)`, where `y` is the value that the
/// softmax computed, `g` the gradient and `s` the sum of `g * y` over the lane.
pub struct SoftmaxBackward {
    state: BackwardState,
}

impl SoftmaxBackward {
    /// The node for an operand whose gradient `operand_grad` holds. `data` holds
    /// the value that the operation computed along the axis `axis`.
    pub fn new<T: Gradient, U: Data>(
        operand_grad: &T,
        data: &U,
        axis: usize,
    ) -> (node: SoftmaxBackward)
        requires
            data.data_dims() == operand_grad.gradient_dims(),
            axis < operand_grad.gradient_dims().len(),
        ensures
            node@ == ({
                let dims = operand_grad.gradient_dims();
                let lanes = LayoutView::contiguous(dims).axis_last(axis as int);
                BackwardView {
                    gradient: dims,
                    overwrite: true,
                    left: Some(
                        contribution(
                            Rule::Softmax,
                            access(Buffer::LeftGradient, lanes),
                            seq![
                                access(Buffer::Gradient, lanes),
                                access(Buffer::Data, lanes),
                            ],
                        ),
                    ),
                    right: None,
                }
            }),
    {
        let shape = operand_grad.gradient();
        let step = contribute2(
            Rule::Softmax,
            Buffer::LeftGradient,
            Layout::contiguous(shape).axis_last(axis),
            Buffer::Gradient,
            Layout::contiguous(shape).axis_last(axis),
            Buffer::Data,
            Layout::contiguous(data.data()).axis_last(axis),
        );
        SoftmaxBackward { state: BackwardState::new(shape.duplicate(), Some(step), None) }
    }
}

impl View for SoftmaxBackward {
    type V = BackwardView;

    closed spec fn view(&self) -> BackwardView {
        self.state@
    }
}

impl Gradient for SoftmaxBackward {
    open spec fn gradient_dims(&self) -> Seq<usize> {
        self@.gradient
    }

    fn gradient(&self) -> (shape: &Shape) {
        self.state.gradient()
    }
}

impl Overwrite for SoftmaxBackward {
    open spec fn overwritable(&self) -> bool {
        self@.overwrite
    }

    fn can_overwrite(&self) -> (state: bool) {
        self.state.can_overwrite()
    }

    fn set_overwrite(&mut self, state: bool)
        ensures
            final(self)@ == (BackwardView { overwrite: state, ..old(self)@ }),
    {
        self.state.set_overwrite(state)
    }
}

impl Backward for SoftmaxBackward {
    open spec fn left(&self) -> Option<StepView> {
        self@.left
    }

    open spec fn right(&self) -> Option<StepView> {
        self@.right
    }

    fn backward(&self, operands: &mut Operands) -> (plan: Vec<Step>) {
        self.state.backward(operands)
    }
}

/// The backward node of the logarithm of the softmax along an axis. On each
/// lane along that axis the operand receives `g - exp(y) * s`, where `y` is the
/// value that the operation computed, `g` the gradient and `s` the sum of `g`
/// over the lane.
pub struct LogSoftmaxBackward {
    state: BackwardState,
}

impl LogSoftmaxBackward {
    /// The node for an operand whose gradient `operand_grad` holds. `forward_data`
    /// holds the value that the operation computed along the axis `axis`.
    pub fn new<T: Gradient, U: Data>(
        operand_grad: &T,
        forward_data: &U,
        axis: usize,
    ) -> (node: LogSoftmaxBackward)
        requires
            forward_data.data_dims() == operand_grad.gradient_dims(),
            axis < operand_grad.gradient_dims().len(),
        ensures
            node@ == ({
                let dims = operand_grad.gradient_dims();
                let lanes = LayoutView::contiguous(dims).axis_last(axis as int);
                BackwardView {
                    gradient: dims,
                    overwrite: true,
                    left: Some(
                        contribution(
                            Rule::LogSoftmax,
                            access(Buffer::LeftGradient, lanes),
                            seq![
                                access(Buffer::Gradient, lanes),
                                access(Buffer::Data, lanes),
                            ],
                        ),
                    ),
                    right: None,
                }
            }),
    {
        let shape = operand_grad.gradient();
        let step = contribute2(
            Rule::LogSoftmax,
            Buffer::LeftGradient,
            Layout::contiguous(shape).axis_last(axis),
            Buffer::Gradient,
            Layout::contiguous(shape).axis_last(axis),
            Buffer::Data,
            Layout::contiguous(forward_data.data()).axis_last(axis),
        );
        LogSoftmaxBackward { state: BackwardState::new(shape.duplicate(), Some(step), None) }
    }
}

impl View for LogSoftmaxBackward {
    type V = BackwardView;

    closed spec fn view(&self) -> BackwardView {
        self.state@
    }
}

impl Gradient for LogSoftmaxBackward {
    open spec fn gradient_dims(&self) -> Seq<usize> {
        self@.gradient
    }

    fn gradient(&self) -> (shape: &Shape) {
        self.state.gradient()
    }
}

impl Overwrite for LogSoftmaxBackward {
    open spec fn overwritable(&self) -> bool {
        self@.overwrite
    }

    fn can_overwrite(&self) -> (state: bool) {
        self.state.can_overwrite()
    }

    fn set_overwrite(&mut self, state: bool)
        ensures
            final(self)@ == (BackwardView { overwrite: state, ..old(self)@ }),
    {
        self.state.set_overwrite(state)
    }
}

impl Backward for LogSoftmaxBackward {
    open spec fn left(&self) -> Option<StepView> {
        self@.left
    }

    open spec fn right(&self) -> Option<StepView> {
        self@.right
    }

    fn backward(&self, operands: &mut Operands) -> (plan: Vec<Step>) {
        self.state.backward(operands)
    }
}

} // verus!
