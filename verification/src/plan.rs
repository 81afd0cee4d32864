//! The steps that a node hands to whoever holds the buffers.
//!
//! A node knows the shapes of its buffers and not the numbers in them. What
//! it computes is a plan: a list of steps, each of which names a rule of
//! arithmetic, the buffers that the rule reads, the buffer that it writes,
//! and for each of them the layout that places the indices of the step's
//! shape in the buffer.
//!
//! A step is carried out over the indices of its shape in row-major order.
//! At each index the rule is applied to the cells that the sources' layouts
//! give, and the value goes to the cell that the target's layout gives. Where
//! several indices share a target cell the cell receives the sum of their
//! values. Under `WriteMode::Accumulate` what a cell receives is added to
//! what it holds, and a cell that receives nothing is left alone. Under
//! `WriteMode::Overwrite` what a cell receives replaces what it held; a cell
//! of the target buffer that receives nothing is set to zero where the
//! extent of the step is `Extent::Whole`, and left alone where it is
//! `Extent::Written`.
//!
//! A rule that works on lanes takes the last axis of the step's shape as the
//! lane: each run of indices that differ on the last axis alone is one lane.

use crate::index::{in_bounds, size, unravel};
use crate::layout::{Layout, LayoutView};
use vstd::prelude::*;

verus! {

/// Whether a step replaces what its target cells held or adds to it.
#[derive(Clone, Copy, PartialEq, Eq, Debug, Structural)]
pub enum WriteMode {
    Overwrite,
    Accumulate,
}

/// What a step replaces where it replaces.
#[derive(Clone, Copy, PartialEq, Eq, Debug, Structural)]
pub enum Extent {
    /// Every cell of the target buffer.
    Whole,
    /// The cells that the step writes, and no other.
    Written,
}

/// The buffers that a step can read or write, named from the point of view
/// of the node that planned the step. A node with one operand calls it the
/// left one.
#[derive(Clone, Copy, PartialEq, Eq, Debug, Structural)]
pub enum Buffer {
    /// The node's own gradient.
    Gradient,
    /// The value that the node's operation computed.
    Data,
    /// The gradient of the left operand.
    LeftGradient,
    /// The gradient of the right operand.
    RightGradient,
    /// The value of the left operand.
    LeftData,
    /// The value of the right operand.
    RightData,
}

/// The arithmetic of a step. `g` is the first source, `a` the second and `b`
/// the third.
#[derive(Clone, Copy, PartialEq, Eq, Debug, Structural)]
pub enum Rule {
    /// Zero, whatever the sources.
    Zero,
    /// `g`.
    Copy,
    /// `-g`.
    Negation,
    /// `g * a`.
    Product,
    /// `g / a`.
    Quotient,
    /// `-g * a / b^2`.
    QuotientOfSquare,
    /// `g * e * a^(e - 1)` for the exponent `e`.
    Power { exponent: i32 },
    /// `g` where `a` is above zero, zero elsewhere.
    ReLU,
    /// `g` where `a` is above zero, a hundredth of `g` elsewhere.
    LeakyReLU,
    /// `g` where `a` is at least 15, zero where `a` is at most -15, and
    /// `g / (1 + exp(-a))` between.
    SoftPlus,
    /// `g * a * (1 - a)`.
    Sigmoid,
    /// `g * (1 - a^2)`.
    TanH,
    /// On each lane, `a * (g - s)` where `s` is the sum of `g * a` over the
    /// lane.
    Softmax,
    /// On each lane, `g - exp(a) * s` where `s` is the sum of `g` over the
    /// lane.
    LogSoftmax,
    /// The sign of `a - b` times `g`, and zero where `a` equals `b`.
    AbsoluteError,
    /// The sign of `a - b` times `g` divided by `count`, and zero where `a`
    /// equals `b`.
    MeanAbsoluteError { count: usize },
    /// The natural logarithm of `g`.
    Logarithm,
    /// On each lane, `exp(g - m) / s` where `m` is the largest `g` of the
    /// lane and `s` the sum of `exp(g - m)` over the lane.
    Normalize,
    /// The absolute value of `g - a`.
    AbsoluteDifference,
    /// The absolute value of `g - a` divided by `count`.
    MeanAbsoluteDifference { count: usize },
}

/// What an access is, as plain values.
pub ghost struct AccessView {
    pub buffer: Buffer,
    pub layout: LayoutView,
}

/// A buffer together with the layout by which a step reaches into it.
pub struct Access {
    pub buffer: Buffer,
    pub layout: Layout,
}

impl View for Access {
    type V = AccessView;

    open spec fn view(&self) -> AccessView {
        AccessView { buffer: self.buffer, layout: self.layout@ }
    }
}

/// What a step is, as plain values.
pub ghost struct StepView {
    pub rule: Rule,
    pub mode: WriteMode,
    pub extent: Extent,
    pub target: AccessView,
    pub sources: Seq<AccessView>,
}

impl StepView {
    /// The shape whose indices the step runs over.
    pub open spec fn dims(self) -> Seq<usize> {
        self.target.layout.dims
    }

    /// All the layouts of the step are well formed and place the indices of
    /// one shape.
    pub open spec fn wf(self) -> bool {
        &&& self.target.layout.wf()
        &&& forall|k: int|
            0 <= k < self.sources.len() ==> (#[trigger] self.sources[k]).layout.wf()
                && self.sources[k].layout.dims == self.target.layout.dims
    }
}

/// The views of a sequence of accesses.
pub open spec fn access_views(accesses: Seq<Access>) -> Seq<AccessView> {
    Seq::new(accesses.len(), |k: int| accesses[k]@)
}

/// One step of a plan.
pub struct Step {
    rule: Rule,
    mode: WriteMode,
    extent: Extent,
    target: Access,
    sources: Vec<Access>,
}

impl View for Step {
    type V = StepView;

    closed spec fn view(&self) -> StepView {
        StepView {
            rule: self.rule,
            mode: self.mode,
            extent: self.extent,
            target: self.target@,
            sources: access_views(self.sources@),
        }
    }
}

impl Step {
    /// What holds of every step: its layouts are well formed and place the
    /// indices of one shape.
    #[verifier::type_invariant]
    pub open spec fn well_formed(&self) -> bool {
        self@.wf()
    }

    /// The step that writes to `buffer` through `layout` and reads nothing
    /// yet.
    pub fn new(
        rule: Rule,
        mode: WriteMode,
        extent: Extent,
        buffer: Buffer,
        layout: Layout,
    ) -> (step: Step)
        ensures
            step@ == (StepView {
                rule,
                mode,
                extent,
                target: AccessView { buffer, layout: layout@ },
                sources: Seq::<AccessView>::empty(),
            }),
            step@.wf(),
    {
        proof {
            use_type_invariant(&layout);
        }
        let step = Step {
            rule,
            mode,
            extent,
            target: Access { buffer, layout },
            sources: Vec::new(),
        };
        proof {
            assert(access_views(step.sources@) =~= Seq::<AccessView>::empty());
        }
        step
    }

    /// The step with one more source: `buffer`, read through `layout`.
    pub fn read(self, buffer: Buffer, layout: Layout) -> (step: Step)
        requires
            layout@.dims == self@.dims(),
        ensures
            step@ == (StepView {
                sources: self@.sources.push(AccessView { buffer, layout: layout@ }),
                ..self@
            }),
            step@.wf(),
    {
        proof {
            use_type_invariant(&self);
            use_type_invariant(&layout);
        }
        let Step { rule, mode, extent, target, sources } = self;
        let mut sources = sources;
        let ghost before = access_views(sources@);
        sources.push(Access { buffer, layout });
        proof {
            assert(access_views(sources@) =~= before.push(
                AccessView { buffer, layout: layout@ },
            ));
        }
        Step { rule, mode, extent, target, sources }
    }

    /// The step in another mode.
    pub fn with_mode(&self, mode: WriteMode) -> (step: Step)
        ensures
            step@ == (StepView { mode, ..self@ }),
            step@.wf(),
    {
        proof {
            use_type_invariant(self);
        }
        let n = self.sources.len();
        let mut sources: Vec<Access> = Vec::with_capacity(n);
        let mut k: usize = 0;
        while k < n
            invariant
                k <= n,
                n == self.sources@.len(),
                sources@.len() == k,
                forall|j: int| 0 <= j < k ==> (#[trigger] sources@[j])@ == self.sources@[j]@,
            decreases n - k,
        {
            let source = &self.sources[k];
            sources.push(Access { buffer: source.buffer, layout: source.layout.duplicate() });
            k += 1;
        }
        proof {
            assert(access_views(sources@) =~= access_views(self.sources@));
        }
        Step {
            rule: self.rule,
            mode,
            extent: self.extent,
            target: Access { buffer: self.target.buffer, layout: self.target.layout.duplicate() },
            sources,
        }
    }

    /// The arithmetic of the step.
    pub fn rule(&self) -> (rule: Rule)
        ensures
            rule == self@.rule,
    {
        self.rule
    }

    /// Whether the step replaces or adds.
    pub fn mode(&self) -> (mode: WriteMode)
        ensures
            mode == self@.mode,
    {
        self.mode
    }

    /// What the step replaces where it replaces.
    pub fn extent(&self) -> (extent: Extent)
        ensures
            extent == self@.extent,
    {
        self.extent
    }

    /// The buffer that the step writes, and the layout by which it does.
    pub fn target(&self) -> (target: &Access)
        ensures
            target@ == self@.target,
            self@.wf(),
    {
        proof {
            use_type_invariant(self);
        }
        &self.target
    }

    /// The number of sources.
    pub fn arity(&self) -> (n: usize)
        ensures
            n == self@.sources.len(),
    {
        self.sources.len()
    }

    /// The source `k`.
    pub fn source(&self, k: usize) -> (source: &Access)
        requires
            k < self@.sources.len(),
        ensures
            source@ == self@.sources[k as int],
    {
        &self.sources[k]
    }

    /// The number of indices that the step runs over.
    pub fn len(&self) -> (n: usize)
        ensures
            n == size(self@.dims()),
    {
        self.target.layout.shape().len()
    }

    /// The length of a lane: that of the last axis of the step's shape, and
    /// one where the shape has no axis.
    pub fn lane(&self) -> (n: usize)
        ensures
            n == if self@.dims().len() == 0 {
                1
            } else {
                self@.dims().last()
            },
    {
        let shape = self.target.layout.shape();
        let n = shape.ndim();
        if n == 0 {
            1
        } else {
            shape.axis(n - 1)
        }
    }

    /// For each index of the step, in row-major order, the cell of the
    /// target buffer that it is placed at.
    pub fn target_places(&self) -> (places: Vec<usize>)
        ensures
            places@.len() == size(self@.dims()),
            forall|pos: int|
                0 <= pos < places@.len() ==> #[trigger] places@[pos] == self@.target.layout.at(
                    unravel(self@.dims(), pos),
                ) && places@[pos] < self@.target.layout.len,
    {
        self.target.layout.places()
    }

    /// For each index of the step, in row-major order, the cell of the
    /// buffer of source `k` that it is placed at.
    pub fn source_places(&self, k: usize) -> (places: Vec<usize>)
        requires
            k < self@.sources.len(),
        ensures
            places@.len() == size(self@.dims()),
            forall|pos: int|
                0 <= pos < places@.len() ==> #[trigger] places@[pos]
                    == self@.sources[k as int].layout.at(unravel(self@.dims(), pos))
                    && places@[pos] < self@.sources[k as int].layout.len,
    {
        proof {
            use_type_invariant(self);
            assert(self@.sources[k as int] == self.sources@[k as int]@);
        }
        self.sources[k].layout.places()
    }
}

/// The views of the steps of a plan.
pub open spec fn plan_view(steps: Seq<Step>) -> Seq<StepView> {
    Seq::new(steps.len(), |k: int| steps[k]@)
}

} // verus!
