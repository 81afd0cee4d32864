//! The mean absolute error between an input and a target, and its backward
//! node.

use crate::index::size;
use crate::layout::{broadcasts_to, Layout};
use crate::node::{
    contribute, contribute2, contribute3, contribution, lowered, planned, reduce, spread, whole,
    Backward, BackwardState, BackwardView, Data, Forward, ForwardState, ForwardView, Gradient,
    Operands, Overwrite,
};
use crate::plan::{plan_view, AccessView, Buffer, Rule, Step, StepView};
use crate::shape::Shape;
use vstd::prelude::*;

verus! {

/// How the error of the cells is made one number.
#[derive(Clone, Copy, PartialEq, Eq, Debug, Structural)]
pub enum Reduction {
    /// The sum of the errors divided by their number.
    Mean,
    /// The sum of the errors.
    Sum,
}

/// The rule by which the error is computed.
pub open spec fn error_rule(reduction: Reduction, dims: Seq<usize>) -> Rule {
    match reduction {
        Reduction::Mean => Rule::MeanAbsoluteDifference { count: size(dims) as usize },
        Reduction::Sum => Rule::AbsoluteDifference,
    }
}

/// The rule by which the input receives its gradient.
pub open spec fn gradient_rule(reduction: Reduction, dims: Seq<usize>) -> Rule {
    match reduction {
        Reduction::Mean => Rule::MeanAbsoluteError { count: size(dims) as usize },
        Reduction::Sum => Rule::AbsoluteError,
    }
}

/// The absolute error between an input and a target of one shape: the sum
/// over the cells of the absolute value of the difference, divided by the
/// number of cells under `Reduction::Mean`. The value has no axis.
pub struct MAELoss {
    state: ForwardState,
}

impl View for MAELoss {
    type V = ForwardView;

    closed spec fn view(&self) -> ForwardView {
        self.state@
    }
}

impl Data for MAELoss {
    open spec fn data_dims(&self) -> Seq<usize> {
        self@.data
    }

    fn data(&self) -> (shape: &Shape) {
        self.state.data()
    }
}

impl Forward for MAELoss {
    open spec fn computed(&self) -> bool {
        self@.computed
    }

    open spec fn step(&self) -> StepView {
        self@.step
    }

    fn forward(&mut self) -> (plan: Vec<Step>)
        ensures
            final(self)@ == (ForwardView { computed: true, ..old(self)@ }),
    {
        self.state.forward()
    }

    fn was_computed(&self) -> (state: bool) {
        self.state.was_computed()
    }

    fn reset_computation(&mut self)
        ensures
            final(self)@ == (ForwardView { computed: false, ..old(self)@ }),
    {
        self.state.reset_computation()
    }
}

impl MAELoss {
    /// The node for an input and a target whose values `input` and `target`
    /// hold.
    pub fn new<T: Data, U: Data>(input: &T, target: &U, reduction: Reduction) -> (node: MAELoss)
        requires
            input.data_dims() == target.data_dims(),
        ensures
            node@ == ({
                let dims = input.data_dims();
                ForwardView {
                    data: Seq::<usize>::empty(),
                    computed: false,
                    step: contribution(
                        error_rule(reduction, dims),
                        spread(Buffer::Data, Seq::<usize>::empty(), dims),
                        seq![whole(Buffer::LeftData, dims), whole(Buffer::RightData, dims)],
                    ),
                }
            }),
    {
        let shape = input.data();
        let data = Shape::scalar();
        let rule = match reduction {
            Reduction::Mean => Rule::MeanAbsoluteDifference { count: shape.len() },
            Reduction::Sum => Rule::AbsoluteDifference,
        };
        proof {
            assert(broadcasts_to(data@, shape@));
        }
        let step = contribute2(
            rule,
            Buffer::Data,
            reduce(&data, shape),
            Buffer::LeftData,
            Layout::contiguous(shape),
            Buffer::RightData,
            Layout::contiguous(target.data()),
        );
        MAELoss { state: ForwardState::new(data, step) }
    }
}

/// The backward node of the absolute error. Its gradient has no axis. Each
/// cell of the input receives the one cell of the gradient times the sign of
/// the difference between input and target, divided by the number of cells
/// under `Reduction::Mean`; where the two are equal it receives zero.
///
/// The node can be told to hold no gradient, where the error is watched and
/// not learned from: it then contributes nothing.
pub struct MAELossBackward {
    state: BackwardState,
    active: bool,
}

impl View for MAELossBackward {
    type V = BackwardView;

    closed spec fn view(&self) -> BackwardView {
        self.state@
    }
}

impl MAELossBackward {
    #[verifier::type_invariant]
    spec fn well_formed(&self) -> bool {
        self.state@.right.is_none() && self.state@.gradient == Seq::<usize>::empty()
    }

    /// The node for an input whose value `input_data` and whose gradient
    /// `input_gradient` holds, and a target whose value `target_data` holds.
    pub fn new<T: Data, U: Data, V: Gradient>(
        input_data: &T,
        target_data: &U,
        input_gradient: &V,
        reduction: Reduction,
    ) -> (node: MAELossBackward)
        requires
            input_data.data_dims() == input_gradient.gradient_dims(),
            target_data.data_dims() == input_gradient.gradient_dims(),
        ensures
            node.has_gradient(),
            node@ == ({
                let dims = input_gradient.gradient_dims();
                BackwardView {
                    gradient: Seq::<usize>::empty(),
                    overwrite: true,
                    left: Some(
                        contribution(
                            gradient_rule(reduction, dims),
                            whole(Buffer::LeftGradient, dims),
                            seq![
                                spread(Buffer::Gradient, Seq::<usize>::empty(), dims),
                                whole(Buffer::LeftData, dims),
                                whole(Buffer::RightData, dims),
                            ],
                        ),
                    ),
                    right: None,
                }
            }),
    {
        let shape = input_gradient.gradient();
        let gradient = Shape::scalar();
        let rule = match reduction {
            Reduction::Mean => Rule::MeanAbsoluteError { count: shape.len() },
            Reduction::Sum => Rule::AbsoluteError,
        };
        proof {
            assert(broadcasts_to(gradient@, shape@));
        }
        let step = contribute3(
            rule,
            Buffer::LeftGradient,
            Layout::contiguous(shape),
            Buffer::Gradient,
            reduce(&gradient, shape),
            Buffer::LeftData,
            Layout::contiguous(input_data.data()),
            Buffer::RightData,
            Layout::contiguous(target_data.data()),
        );
        MAELossBackward { state: BackwardState::new(gradient, Some(step), None), active: true }
    }

    /// Whether the node holds a gradient.
    pub closed spec fn has_gradient(&self) -> bool {
        self.active
    }

    /// Whether the node holds a gradient.
    pub fn is_active(&self) -> (active: bool)
        ensures
            active == self.has_gradient(),
    {
        self.active
    }

    /// Gives up the gradient.
    pub fn no_grad(&mut self)
        ensures
            !final(self).has_gradient(),
            final(self)@ == old(self)@,
    {
        proof {
            use_type_invariant(&*self);
        }
        self.active = false;
    }

    /// Takes up a gradient again. Where the node held none, the step that
    /// sets the new gradient to zero is returned.
    pub fn with_grad(&mut self) -> (fresh: Option<Step>)
        ensures
            final(self).has_gradient(),
            final(self)@ == old(self)@,
            fresh.is_some() == !old(self).has_gradient(),
            fresh.is_some() ==> fresh.unwrap()@ == contribution(
                Rule::Zero,
                whole(Buffer::Gradient, Seq::<usize>::empty()),
                Seq::<AccessView>::empty(),
            ),
    {
        proof {
            use_type_invariant(&*self);
        }
        if self.active {
            None
        } else {
            self.active = true;
            let shape = self.state.gradient();
            Some(contribute(Rule::Zero, Buffer::Gradient, Layout::contiguous(shape)))
        }
    }
}

impl Gradient for MAELossBackward {
    open spec fn gradient_dims(&self) -> Seq<usize> {
        self@.gradient
    }

    fn gradient(&self) -> (shape: &Shape) {
        self.state.gradient()
    }
}

impl Overwrite for MAELossBackward {
    open spec fn overwritable(&self) -> bool {
        self@.overwrite
    }

    fn can_overwrite(&self) -> (state: bool) {
        self.state.can_overwrite()
    }

    fn set_overwrite(&mut self, state: bool)
        ensures
            final(self)@ == (BackwardView { overwrite: state, ..old(self)@ }),
            final(self).has_gradient() == old(self).has_gradient(),
    {
        proof {
            use_type_invariant(&*self);
        }
        self.state.set_overwrite(state)
    }
}

impl Backward for MAELossBackward {
    open spec fn left(&self) -> Option<StepView> {
        if self.has_gradient() {
            self@.left
        } else {
            None
        }
    }

    open spec fn right(&self) -> Option<StepView> {
        None
    }

    fn backward(&self, operands: &mut Operands) -> (plan: Vec<Step>) {
        proof {
            use_type_invariant(self);
        }
        if self.active {
            self.state.backward(operands)
        } else {
            let plan: Vec<Step> = Vec::new();
            proof {
                assert(plan_view(plan@) =~= planned(None, None, *old(operands)));
            }
            plan
        }
    }
}

} // verus!
