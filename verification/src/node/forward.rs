//! The leaves of a graph, and the nodes that compute a value from the value
//! of their operand.

use crate::index::size;
use crate::layout::{Layout, LayoutView};
use crate::node::reshape::{chunk_counts, chunk_layout, chunk_window, chunks_evenly};
use crate::node::{
    access, contribute, contribute1, contribution, whole, BackwardState, BackwardView, Data,
    Differentiable, Forward, ForwardState, ForwardView, Gradient, Overwrite,
};
use crate::plan::{AccessView, Buffer, Rule, Step, StepView};
use crate::shape::Shape;
use vstd::prelude::*;

verus! {

/// A leaf of the graph: a value that is given, not computed.
pub struct Input {
    shape: Shape,
}

impl View for Input {
    type V = Seq<usize>;

    closed spec fn view(&self) -> Seq<usize> {
        self.shape@
    }
}

impl Input {
    /// The leaf that holds a value of shape `shape`.
    pub fn new(shape: Shape) -> (node: Input)
        ensures
            node@ == shape@,
    {
        Input { shape }
    }
}

impl Data for Input {
    open spec fn data_dims(&self) -> Seq<usize> {
        self@
    }

    fn data(&self) -> (shape: &Shape) {
        &self.shape
    }
}

impl Differentiable for Input {
    type Output = InputBackward;

    fn differentiable(&self) -> (node: InputBackward)
        ensures
            node@ == (BackwardView { gradient: self@, overwrite: true, left: None, right: None }),
    {
        InputBackward { state: BackwardState::new(self.shape.duplicate(), None, None) }
    }
}

/// The gradient of a leaf. It is written to by the nodes that the leaf is an
/// operand of, and contributes to no node.
pub struct InputBackward {
    state: BackwardState,
}

impl View for InputBackward {
    type V = BackwardView;

    closed spec fn view(&self) -> BackwardView {
        self.state@
    }
}

impl InputBackward {
    /// The step that sets every cell of the gradient to zero.
    pub fn zero_grad(&self) -> (step: Step)
        ensures
            step@ == contribution(
                Rule::Zero,
                whole(Buffer::Gradient, self@.gradient),
                Seq::<AccessView>::empty(),
            ),
    {
        contribute(Rule::Zero, Buffer::Gradient, Layout::contiguous(self.state.gradient()))
    }
}

impl Gradient for InputBackward {
    open spec fn gradient_dims(&self) -> Seq<usize> {
        self@.gradient
    }

    fn gradient(&self) -> (shape: &Shape) {
        self.state.gradient()
    }
}

impl Overwrite for InputBackward {
    open spec fn overwritable(&self) -> bool {
        self@.overwrite
    }

    fn can_overwrite(&self) -> (state: bool) {
        self.state.can_overwrite()
    }

    fn set_overwrite(&mut self, state: bool)
        ensures
            final(self)@ == (BackwardView { overwrite: state, ..old(self)@ }),
    {
        self.state.set_overwrite(state)
    }
}

/// The natural logarithm of each cell of the operand.
pub struct Logn {
    state: ForwardState,
}

impl View for Logn {
    type V = ForwardView;

    closed spec fn view(&self) -> ForwardView {
        self.state@
    }
}

impl Data for Logn {
    open spec fn data_dims(&self) -> Seq<usize> {
        self@.data
    }

    fn data(&self) -> (shape: &Shape) {
        self.state.data()
    }
}

impl Forward for Logn {
    open spec fn computed(&self) -> bool {
        self@.computed
    }

    open spec fn step(&self) -> StepView {
        self@.step
    }

    fn forward(&mut self) -> (plan: Vec<Step>)
        ensures
            final(self)@ == (ForwardView { computed: true, ..old(self)@ }),
    {
        self.state.forward()
    }

    fn was_computed(&self) -> (state: bool) {
        self.state.was_computed()
    }

    fn reset_computation(&mut self)
        ensures
            final(self)@ == (ForwardView { computed: false, ..old(self)@ }),
    {
        self.state.reset_computation()
    }
}

impl Logn {
    /// The node for an operand whose value `operand` holds.
    pub fn new<T: Data>(operand: &T) -> (node: Logn)
        ensures
            node@ == ({
                let dims = operand.data_dims();
                ForwardView {
                    data: dims,
                    computed: false,
                    step: contribution(
                        Rule::Logarithm,
                        whole(Buffer::Data, dims),
                        seq![whole(Buffer::LeftData, dims)],
                    ),
                }
            }),
    {
        let shape = operand.data();
        let step = contribute1(
            Rule::Logarithm,
            Buffer::Data,
            Layout::contiguous(shape),
            Buffer::LeftData,
            Layout::contiguous(shape),
        );
        Logn { state: ForwardState::new(shape.duplicate(), step) }
    }
}

/// The softmax of the operand along an axis: on each lane along that axis,
/// the exponential of each cell divided by the sum of the exponentials of the
/// lane. The largest cell of the lane is subtracted from each cell first.
pub struct Softmax {
    state: ForwardState,
}

impl View for Softmax {
    type V = ForwardView;

    closed spec fn view(&self) -> ForwardView {
        self.state@
    }
}

impl Data for Softmax {
    open spec fn data_dims(&self) -> Seq<usize> {
        self@.data
    }

    fn data(&self) -> (shape: &Shape) {
        self.state.data()
    }
}

impl Forward for Softmax {
    open spec fn computed(&self) -> bool {
        self@.computed
    }

    open spec fn step(&self) -> StepView {
        self@.step
    }

    fn forward(&mut self) -> (plan: Vec<Step>)
        ensures
            final(self)@ == (ForwardView { computed: true, ..old(self)@ }),
    {
        self.state.forward()
    }

    fn was_computed(&self) -> (state: bool) {
        self.state.was_computed()
    }

    fn reset_computation(&mut self)
        ensures
            final(self)@ == (ForwardView { computed: false, ..old(self)@ }),
    {
        self.state.reset_computation()
    }
}

impl Softmax {
    /// The node for an operand whose value `operand` holds.
    pub fn new<T: Data>(operand: &T, axis: usize) -> (node: Softmax)
        requires
            axis < operand.data_dims().len(),
        ensures
            node@ == ({
                let dims = operand.data_dims();
                let lanes = LayoutView::contiguous(dims).axis_last(axis as int);
                ForwardView {
                    data: dims,
                    computed: false,
                    step: contribution(
                        Rule::Normalize,
                        access(Buffer::Data, lanes),
                        seq![access(Buffer::LeftData, lanes)],
                    ),
                }
            }),
    {
        let shape = operand.data();
        let step = contribute1(
            Rule::Normalize,
            Buffer::Data,
            Layout::contiguous(shape).axis_last(axis),
            Buffer::LeftData,
            Layout::contiguous(shape).axis_last(axis),
        );
        Softmax { state: ForwardState::new(shape.duplicate(), step) }
    }
}

/// One chunk of the operand: the cells that chunk `chunk_no` of the given
/// shape covers. The chunks are numbered in row-major order.
pub struct Chunk {
    state: ForwardState,
}

impl View for Chunk {
    type V = ForwardView;

    closed spec fn view(&self) -> ForwardView {
        self.state@
    }
}

impl Data for Chunk {
    open spec fn data_dims(&self) -> Seq<usize> {
        self@.data
    }

    fn data(&self) -> (shape: &Shape) {
        self.state.data()
    }
}

impl Forward for Chunk {
    open spec fn computed(&self) -> bool {
        self@.computed
    }

    open spec fn step(&self) -> StepView {
        self@.step
    }

    fn forward(&mut self) -> (plan: Vec<Step>)
        ensures
            final(self)@ == (ForwardView { computed: true, ..old(self)@ }),
    {
        self.state.forward()
    }

    fn was_computed(&self) -> (state: bool) {
        self.state.was_computed()
    }

    fn reset_computation(&mut self)
        ensures
            final(self)@ == (ForwardView { computed: false, ..old(self)@ }),
    {
        self.state.reset_computation()
    }
}

impl Chunk {
    /// The node for chunk `chunk_no` of an operand whose value `operand`
    /// holds. The chunks have the shape `chunk`.
    pub fn new<T: Data>(operand: &T, chunk: &Shape, chunk_no: usize) -> (node: Chunk)
        requires
            chunks_evenly(operand.data_dims(), chunk@),
            chunk_no < size(chunk_counts(operand.data_dims(), chunk@)),
        ensures
            node@ == (ForwardView {
                data: chunk@,
                computed: false,
                step: contribution(
                    Rule::Copy,
                    whole(Buffer::Data, chunk@),
                    seq![
                        access(
                            Buffer::LeftData,
                            chunk_layout(operand.data_dims(), chunk@, chunk_no as int),
                        ),
                    ],
                ),
            }),
    {
        let step = contribute1(
            Rule::Copy,
            Buffer::Data,
            Layout::contiguous(chunk),
            Buffer::LeftData,
            chunk_window(operand.data(), chunk, chunk_no),
        );
        Chunk { state: ForwardState::new(chunk.duplicate(), step) }
    }
}

} // verus!
