//! What all nodes share: the capabilities by which a scheduler treats them
//! alike, the rule by which a gradient is written over or added to, and the
//! reduction of a broadcast gradient to the shape of an operand.

use crate::index::{in_bounds, lemma_ravel_bounds, lemma_ravel_injective, ravel, size, volume};
use crate::layout::{broadcasts_to, lemma_contiguous, project, Layout, LayoutView};
use crate::plan::{plan_view, AccessView, Buffer, Extent, Rule, Step, StepView, WriteMode};
use crate::shape::Shape;
use std::rc::Rc;
use vstd::prelude::*;

pub mod activation;
pub mod arithmetic;
pub mod forward;
pub mod loss;
pub mod product;
pub mod reshape;

verus! {

/// A node that holds a value.
pub trait Data {
    /// The shape of the value.
    spec fn data_dims(&self) -> Seq<usize>;

    /// The shape of the value.
    fn data(&self) -> (shape: &Shape)
        ensures
            shape@ == self.data_dims(),
    ;
}

/// A node that holds a gradient.
pub trait Gradient {
    /// The shape of the gradient.
    spec fn gradient_dims(&self) -> Seq<usize>;

    /// The shape of the gradient.
    fn gradient(&self) -> (shape: &Shape)
        ensures
            shape@ == self.gradient_dims(),
    ;
}

/// A node whose gradient the next writer may write over. The flag is raised
/// before a backward pass begins; the first writer of the pass lowers it.
pub trait Overwrite {
    /// Whether the next write to the gradient replaces what it holds.
    spec fn overwritable(&self) -> bool;

    fn can_overwrite(&self) -> (state: bool)
        ensures
            state == self.overwritable(),
    ;

    fn set_overwrite(&mut self, state: bool)
        ensures
            final(self).overwritable() == state,
    ;
}

/// Whether the gradients of the operands of a node may be written over. A
/// node with one operand that takes a gradient reads the flag of the side on
/// which that operand stands, the left one where the operation has one
/// operand only.
#[derive(Clone, Copy, PartialEq, Eq, Debug, Structural)]
pub struct Operands {
    pub left: bool,
    pub right: bool,
}

/// The mode of a write to a gradient whose flag is `overwritable`.
pub open spec fn mode_of(overwritable: bool) -> WriteMode {
    if overwritable {
        WriteMode::Overwrite
    } else {
        WriteMode::Accumulate
    }
}

/// The plan of a backward pass through a node that contributes `left` to its
/// left operand and `right` to its right one: the contributions that there
/// are, the left one first, each in the mode that the operand's flag gives.
pub open spec fn planned(
    left: Option<StepView>,
    right: Option<StepView>,
    operands: Operands,
) -> Seq<StepView> {
    let first = match left {
        Some(step) => seq![StepView { mode: mode_of(operands.left), ..step }],
        None => Seq::<StepView>::empty(),
    };
    match right {
        Some(step) => first.push(StepView { mode: mode_of(operands.right), ..step }),
        None => first,
    }
}

/// The flags after that pass: lowered for each operand that was written.
pub open spec fn lowered(
    left: Option<StepView>,
    right: Option<StepView>,
    operands: Operands,
) -> Operands {
    Operands {
        left: operands.left && left.is_none(),
        right: operands.right && right.is_none(),
    }
}

/// A node that carries its gradient on to its operands.
pub trait Backward: Overwrite {
    /// What the node contributes to the gradient of its left operand.
    spec fn left(&self) -> Option<StepView>;

    /// What the node contributes to the gradient of its right operand.
    spec fn right(&self) -> Option<StepView>;

    /// The steps of one backward pass through the node. `operands` tells
    /// which operand gradients may be written over, and has the flag of each
    /// operand that the plan writes lowered on return.
    fn backward(&self, operands: &mut Operands) -> (plan: Vec<Step>)
        ensures
            plan_view(plan@) == planned(self.left(), self.right(), *old(operands)),
            *final(operands) == lowered(self.left(), self.right(), *old(operands)),
    ;
}

/// A node that computes its value from its operands, once in a forward
/// pass.
pub trait Forward {
    /// Whether the value is that of the present pass.
    spec fn computed(&self) -> bool;

    /// How the value is computed.
    spec fn step(&self) -> StepView;

    /// The steps that compute the value: none where it was computed in this
    /// pass already.
    fn forward(&mut self) -> (plan: Vec<Step>)
        ensures
            final(self).computed(),
            final(self).step() == old(self).step(),
            plan_view(plan@) == if old(self).computed() {
                Seq::<StepView>::empty()
            } else {
                seq![old(self).step()]
            },
    ;

    fn was_computed(&self) -> (state: bool)
        ensures
            state == self.computed(),
    ;

    fn reset_computation(&mut self)
        ensures
            !final(self).computed(),
            final(self).step() == old(self).step(),
    ;
}

/// A node that holds a value and can be given a gradient.
pub trait Differentiable {
    type Output: Gradient + Overwrite;

    /// The node that holds the gradient.
    fn differentiable(&self) -> (node: Self::Output)
        ensures
            node.overwritable(),
    ;
}

/// One backward pass through `node`, whose left or only operand is
/// `operand`. The gradient of a right operand, if the node has one that takes
/// a gradient, is added to.
pub fn backward_left<N: Backward, T: Overwrite>(node: &N, operand: &mut T) -> (plan: Vec<Step>)
    ensures
        plan_view(plan@) == planned(
            node.left(),
            node.right(),
            Operands { left: old(operand).overwritable(), right: false },
        ),
        final(operand).overwritable() == (old(operand).overwritable() && node.left().is_none()),
{
    let mut operands = Operands { left: operand.can_overwrite(), right: false };
    let plan = node.backward(&mut operands);
    operand.set_overwrite(operands.left);
    plan
}

/// One backward pass through `node`, whose right operand is `operand`. The
/// gradient of a left operand, if the node has one that takes a gradient, is
/// added to.
pub fn backward_right<N: Backward, T: Overwrite>(node: &N, operand: &mut T) -> (plan: Vec<Step>)
    ensures
        plan_view(plan@) == planned(
            node.left(),
            node.right(),
            Operands { left: false, right: old(operand).overwritable() },
        ),
        final(operand).overwritable() == (old(operand).overwritable() && node.right().is_none()),
{
    let mut operands = Operands { left: false, right: operand.can_overwrite() };
    let plan = node.backward(&mut operands);
    operand.set_overwrite(operands.right);
    plan
}

/// One backward pass through `node`, whose operands are `left` and `right`.
pub fn backward_both<N: Backward, L: Overwrite, R: Overwrite>(
    node: &N,
    left: &mut L,
    right: &mut R,
) -> (plan: Vec<Step>)
    ensures
        plan_view(plan@) == planned(
            node.left(),
            node.right(),
            Operands { left: old(left).overwritable(), right: old(right).overwritable() },
        ),
        final(left).overwritable() == (old(left).overwritable() && node.left().is_none()),
        final(right).overwritable() == (old(right).overwritable() && node.right().is_none()),
{
    let mut operands = Operands { left: left.can_overwrite(), right: right.can_overwrite() };
    let plan = node.backward(&mut operands);
    left.set_overwrite(operands.left);
    right.set_overwrite(operands.right);
    plan
}

/// The first write of a pass to an operand replaces what its gradient held
/// and lowers the flag; every later write of the pass adds; and once the flag
/// is raised again the plan is what it was at the first write.
pub proof fn lemma_overwrite_then_accumulate(
    left: Option<StepView>,
    right: Option<StepView>,
    operands: Operands,
)
    requires
        left.is_some(),
        operands.left,
    ensures
        planned(left, right, operands)[0] == (StepView {
            mode: WriteMode::Overwrite,
            ..left.unwrap()
        }),
        !lowered(left, right, operands).left,
        planned(left, right, lowered(left, right, operands))[0] == (StepView {
            mode: WriteMode::Accumulate,
            ..left.unwrap()
        }),
        lowered(left, right, lowered(left, right, operands)) == lowered(left, right, operands),
        planned(left, right, Operands { left: true, ..lowered(left, right, operands) })[0]
            == planned(left, right, operands)[0],
{
}

/// The same of the right operand.
pub proof fn lemma_overwrite_then_accumulate_right(
    left: Option<StepView>,
    right: Option<StepView>,
    operands: Operands,
)
    requires
        right.is_some(),
        operands.right,
    ensures
        planned(left, right, operands).last() == (StepView {
            mode: WriteMode::Overwrite,
            ..right.unwrap()
        }),
        !lowered(left, right, operands).right,
        planned(left, right, lowered(left, right, operands)).last() == (StepView {
            mode: WriteMode::Accumulate,
            ..right.unwrap()
        }),
        planned(left, right, Operands { right: true, ..lowered(left, right, operands) }).last()
            == planned(left, right, operands).last(),
{
}

/// What a backward node is, as plain values.
pub ghost struct BackwardView {
    /// The shape of the node's gradient.
    pub gradient: Seq<usize>,
    /// Whether the next write to the node's gradient replaces what it holds.
    pub overwrite: bool,
    /// What the node contributes to the gradient of its left operand.
    pub left: Option<StepView>,
    /// What the node contributes to the gradient of its right operand.
    pub right: Option<StepView>,
}

/// The views of an optional step.
pub open spec fn step_view(step: Option<Step>) -> Option<StepView> {
    match step {
        Some(step) => Some(step@),
        None => None,
    }
}

/// The state that every backward node holds: the shape of its gradient, its
/// flag, and its contributions to its operands.
pub struct BackwardState {
    gradient: Shape,
    overwrite: bool,
    left: Option<Step>,
    right: Option<Step>,
}

impl View for BackwardState {
    type V = BackwardView;

    closed spec fn view(&self) -> BackwardView {
        BackwardView {
            gradient: self.gradient@,
            overwrite: self.overwrite,
            left: step_view(self.left),
            right: step_view(self.right),
        }
    }
}

impl BackwardState {
    /// The state of a node that was not written to yet.
    pub fn new(gradient: Shape, left: Option<Step>, right: Option<Step>) -> (state: BackwardState)
        ensures
            state@ == (BackwardView {
                gradient: gradient@,
                overwrite: true,
                left: step_view(left),
                right: step_view(right),
            }),
    {
        BackwardState { gradient, overwrite: true, left, right }
    }

    /// The shape of the gradient.
    pub fn gradient(&self) -> (shape: &Shape)
        ensures
            shape@ == self@.gradient,
    {
        &self.gradient
    }

    /// Whether the next write to the gradient replaces what it holds.
    pub fn can_overwrite(&self) -> (state: bool)
        ensures
            state == self@.overwrite,
    {
        self.overwrite
    }

    /// Raises or lowers the flag, and changes nothing else.
    pub fn set_overwrite(&mut self, state: bool)
        ensures
            final(self)@ == (BackwardView { overwrite: state, ..old(self)@ }),
        no_unwind
    {
        self.overwrite = state;
    }

    /// The contributions that there are, the left one first, each in the
    /// mode that the flag of its operand gives; and the flags of the operands
    /// that the plan writes are lowered.
    pub fn backward(&self, operands: &mut Operands) -> (plan: Vec<Step>)
        ensures
            plan_view(plan@) == planned(self@.left, self@.right, *old(operands)),
            *final(operands) == lowered(self@.left, self@.right, *old(operands)),
    {
        let mut plan: Vec<Step> = Vec::new();
        match &self.left {
            Some(step) => {
                let mode = if operands.left {
                    WriteMode::Overwrite
                } else {
                    WriteMode::Accumulate
                };
                plan.push(step.with_mode(mode));
                operands.left = false;
            },
            None => {},
        }
        match &self.right {
            Some(step) => {
                let mode = if operands.right {
                    WriteMode::Overwrite
                } else {
                    WriteMode::Accumulate
                };
                plan.push(step.with_mode(mode));
                operands.right = false;
            },
            None => {},
        }
        proof {
            assert(plan_view(plan@) =~= planned(self@.left, self@.right, *old(operands)));
        }
        plan
    }
}

/// What a forward node is, as plain values.
pub ghost struct ForwardView {
    /// The shape of the node's value.
    pub data: Seq<usize>,
    /// Whether the value is that of the present pass.
    pub computed: bool,
    /// How the value is computed.
    pub step: StepView,
}

/// The state that every forward node holds: the shape of its value, whether
/// the value was computed in the present pass, and the step that computes it.
pub struct ForwardState {
    data: Shape,
    computed: bool,
    step: Step,
}

impl View for ForwardState {
    type V = ForwardView;

    closed spec fn view(&self) -> ForwardView {
        ForwardView { data: self.data@, computed: self.computed, step: self.step@ }
    }
}

impl ForwardState {
    /// The state of a node whose value was not computed yet.
    pub fn new(data: Shape, step: Step) -> (state: ForwardState)
        ensures
            state@ == (ForwardView { data: data@, computed: false, step: step@ }),
    {
        ForwardState { data, computed: false, step }
    }

    /// The shape of the value.
    pub fn data(&self) -> (shape: &Shape)
        ensures
            shape@ == self@.data,
    {
        &self.data
    }

    /// The step that computes the value, unless the value was computed in
    /// this pass already; and the value counts as computed.
    pub fn forward(&mut self) -> (plan: Vec<Step>)
        ensures
            final(self)@ == (ForwardView { computed: true, ..old(self)@ }),
            plan_view(plan@) == if old(self)@.computed {
                Seq::<StepView>::empty()
            } else {
                seq![old(self)@.step]
            },
    {
        let mut plan: Vec<Step> = Vec::new();
        if !self.computed {
            self.computed = true;
            let mode = self.step.mode();
            plan.push(self.step.with_mode(mode));
            proof {
                assert(plan_view(plan@) =~= seq![old(self)@.step]);
            }
        } else {
            proof {
                assert(plan_view(plan@) =~= Seq::<StepView>::empty());
            }
        }
        plan
    }

    /// Whether the value is that of the present pass.
    pub fn was_computed(&self) -> (state: bool)
        ensures
            state == self@.computed,
    {
        self.computed
    }

    /// Begins a new pass: the value counts as not computed.
    pub fn reset_computation(&mut self)
        ensures
            final(self)@ == (ForwardView { computed: false, ..old(self)@ }),
    {
        self.computed = false;
    }
}

/// The layout by which a gradient of shape `src` is reduced to an operand of
/// shape `dest`: it places each index of `src` at the cell, in a row-major
/// buffer of shape `dest`, of the index of `dest` that broadcasts to it. The
/// axes that `src` has in front are summed away, and so is every axis on
/// which `dest` has length one.
pub fn reduce(dest: &Shape, src: &Shape) -> (layout: Layout)
    requires
        broadcasts_to(dest@, src@),
    ensures
        layout@ == LayoutView::contiguous(dest@).broadcast(src@),
        layout@.wf(),
{
    Layout::contiguous(dest).broadcast(src).unwrap()
}

/// Whether a gradient of shape `src` reduces to an operand of shape `dest`.
pub fn reduces(dest: &Shape, src: &Shape) -> (reduces: bool)
    ensures
        reduces == broadcasts_to(dest@, src@),
{
    Layout::contiguous(dest).broadcast(src).is_some()
}

/// Reducing a gradient of shape `src` to the shape `dest` sends each index
/// of `src` to the cell of exactly one index of `dest`: the one that
/// broadcasts to it. So the cell of an index of `dest` receives the sum over
/// the indices of `src` that it broadcasts to, and the result has the shape
/// `dest`.
pub proof fn lemma_reduce_fiber(dest: Seq<usize>, src: Seq<usize>, idx: Seq<int>, cell: Seq<int>)
    requires
        volume(dest) <= usize::MAX,
        volume(src) <= usize::MAX,
        broadcasts_to(dest, src),
        in_bounds(idx, src),
        in_bounds(cell, dest),
    ensures
        LayoutView::contiguous(dest).broadcast(src).wf(),
        LayoutView::contiguous(dest).broadcast(src).len == size(dest),
        in_bounds(project(dest, idx), dest),
        LayoutView::contiguous(dest).broadcast(src).at(idx) == ravel(dest, project(dest, idx)),
        LayoutView::contiguous(dest).broadcast(src).at(idx) == ravel(dest, cell) <==> project(
            dest,
            idx,
        ) == cell,
{
    let flat = LayoutView::contiguous(dest);
    lemma_contiguous(dest);
    flat.lemma_broadcast(src, idx);
    lemma_ravel_bounds(dest, cell);
    if ravel(dest, project(dest, idx)) == ravel(dest, cell) {
        lemma_ravel_injective(dest, project(dest, idx), cell);
    }
}

/// Whether reducing from the shape `src` to the shape `dest` keeps the axis
/// `axis` of `src`: it does where `dest` has the axis with the same length.
pub open spec fn kept(dest: Seq<usize>, src: Seq<usize>, axis: int) -> bool {
    let k = axis - (src.len() - dest.len());
    k >= 0 && dest[k] == src[axis]
}

/// The lengths of the axes that reducing from the shape `src` to the shape
/// `dest` sums away, and one on the axes that it keeps.
pub open spec fn summed(dest: Seq<usize>, src: Seq<usize>) -> Seq<usize> {
    Seq::new(
        src.len(),
        |j: int|
            if kept(dest, src, j) {
                1usize
            } else {
                src[j]
            },
    )
}

/// The index of `src` that is made of the index `cell` of `dest` on the axes
/// that are kept and of `rest` on the axes that are summed away.
pub open spec fn joint(dest: Seq<usize>, src: Seq<usize>, cell: Seq<int>, rest: Seq<int>) -> Seq<
    int,
> {
    Seq::new(
        src.len(),
        |j: int|
            if kept(dest, src, j) {
                cell[j - (src.len() - dest.len())]
            } else {
                rest[j]
            },
    )
}

/// What an index of `src` has on the axes that are summed away, and zero on
/// the axes that are kept.
pub open spec fn remainder(dest: Seq<usize>, src: Seq<usize>, idx: Seq<int>) -> Seq<int> {
    Seq::new(
        src.len(),
        |j: int|
            if kept(dest, src, j) {
                0
            } else {
                idx[j]
            },
    )
}

/// The indices of `src` that a cell of `dest` receives from are as many as
/// the axes that are summed away have indices: each index of those axes gives
/// one, no two give the same, and there is no other. And there are as many
/// indices of `src` as indices of `dest` times indices of the axes that are
/// summed away.
pub proof fn lemma_reduce_fiber_size(
    dest: Seq<usize>,
    src: Seq<usize>,
    cell: Seq<int>,
    rest: Seq<int>,
    idx: Seq<int>,
)
    requires
        broadcasts_to(dest, src),
        in_bounds(cell, dest),
    ensures
        size(src) == size(dest) * size(summed(dest, src)),
        in_bounds(rest, summed(dest, src)) ==> {
            &&& in_bounds(joint(dest, src, cell, rest), src)
            &&& project(dest, joint(dest, src, cell, rest)) == cell
            &&& remainder(dest, src, joint(dest, src, cell, rest)) == rest
        },
        in_bounds(idx, src) && project(dest, idx) == cell ==> {
            &&& in_bounds(remainder(dest, src, idx), summed(dest, src))
            &&& joint(dest, src, cell, remainder(dest, src, idx)) == idx
        },
{
    let shift = src.len() - dest.len();
    let lost = summed(dest, src);
    lemma_summed_size(dest, src);
    if in_bounds(rest, lost) {
        let whole = joint(dest, src, cell, rest);
        assert forall|j: int| 0 <= j < src.len() implies 0 <= #[trigger] whole[j] < src[j] by {
            if kept(dest, src, j) {
                assert(0 <= cell[j - shift] < dest[j - shift]);
            } else {
                assert(0 <= rest[j] < lost[j]);
            }
        }
        assert(project(dest, whole) =~= cell) by {
            assert forall|k: int| 0 <= k < dest.len() implies project(dest, whole)[k]
                == cell[k] by {
                assert(dest[k] == src[k + shift] || dest[k] == 1);
                assert(0 <= cell[k] < dest[k]);
            }
        }
        assert(remainder(dest, src, whole) =~= rest) by {
            assert forall|j: int| 0 <= j < src.len() implies remainder(dest, src, whole)[j]
                == rest[j] by {
                assert(0 <= rest[j] < lost[j]);
            }
        }
    }
    if in_bounds(idx, src) && project(dest, idx) == cell {
        let left = remainder(dest, src, idx);
        assert forall|j: int| 0 <= j < src.len() implies 0 <= #[trigger] left[j] < lost[j] by {
            assert(0 <= idx[j] < src[j]);
        }
        assert(joint(dest, src, cell, left) =~= idx) by {
            assert forall|j: int| 0 <= j < src.len() implies joint(dest, src, cell, left)[j]
                == idx[j] by {
                assert(0 <= idx[j] < src[j]);
                if kept(dest, src, j) {
                    assert(cell[j - shift] == project(dest, idx)[j - shift]);
                }
            }
        }
    }
}

/// There are as many indices of `src` as indices of `dest` times indices of
/// the axes that reducing sums away.
pub proof fn lemma_summed_size(dest: Seq<usize>, src: Seq<usize>)
    requires
        broadcasts_to(dest, src),
    ensures
        size(src) == size(dest) * size(summed(dest, src)),
    decreases src.len(),
{
    let lost = summed(dest, src);
    if dest.len() == 0 {
        assert(lost =~= src);
        assert(size(dest) == 1);
        assert(1 * size(src) == size(src));
    } else {
        let n = src.len() - 1;
        let k = dest.len() - 1;
        assert(dest[k] == src[k + (src.len() - dest.len())] || dest[k] == 1);
        crate::layout::lemma_broadcasts_to_prefix(dest, src);
        lemma_summed_size(dest.drop_last(), src.drop_last());
        assert(lost.drop_last() =~= summed(dest.drop_last(), src.drop_last()));
        let a = size(dest.drop_last()) as int;
        let b = size(lost.drop_last()) as int;
        let s = src.last() as int;
        assert(size(src) == (a * b) * s);
        if dest[k] == src[n] {
            assert(lost.last() == 1);
            assert(size(dest) == a * s);
            assert(size(lost) == b * 1);
            assert((a * b) * s == (a * s) * (b * 1)) by (nonlinear_arith);
        } else {
            assert(lost.last() == src[n]);
            assert(size(dest) == a * 1);
            assert(size(lost) == b * s);
            assert((a * b) * s == (a * 1) * (b * s)) by (nonlinear_arith);
        }
    }
}

/// The access to `buffer` through `layout`.
pub open spec fn access(buffer: Buffer, layout: LayoutView) -> AccessView {
    AccessView { buffer, layout }
}

/// The access to a row-major buffer of shape `dims`, index by index.
pub open spec fn whole(buffer: Buffer, dims: Seq<usize>) -> AccessView {
    AccessView { buffer, layout: LayoutView::contiguous(dims) }
}

/// The access to a row-major buffer of shape `dims` from the indices of the
/// shape `to` that it broadcasts to.
pub open spec fn spread(buffer: Buffer, dims: Seq<usize>, to: Seq<usize>) -> AccessView {
    AccessView { buffer, layout: LayoutView::contiguous(dims).broadcast(to) }
}

/// A contribution to the whole of a buffer, as a node keeps it: the mode is
/// set when the plan is made.
pub open spec fn contribution(
    rule: Rule,
    target: AccessView,
    sources: Seq<AccessView>,
) -> StepView {
    StepView { rule, mode: WriteMode::Overwrite, extent: Extent::Whole, target, sources }
}

/// A contribution to the cells that it writes and to no other.
pub open spec fn confined(rule: Rule, target: AccessView, sources: Seq<AccessView>) -> StepView {
    StepView { rule, mode: WriteMode::Overwrite, extent: Extent::Written, target, sources }
}

/// The contribution that writes to `target` and reads nothing.
pub fn contribute(rule: Rule, target: Buffer, through: Layout) -> (step: Step)
    ensures
        step@ == contribution(rule, access(target, through@), Seq::<AccessView>::empty()),
        step@.wf(),
{
    Step::new(rule, WriteMode::Overwrite, Extent::Whole, target, through)
}

/// The contribution that writes to `target` and reads `g`.
pub fn contribute1(
    rule: Rule,
    target: Buffer,
    through: Layout,
    g: Buffer,
    g_through: Layout,
) -> (step: Step)
    requires
        g_through@.dims == through@.dims,
    ensures
        step@ == contribution(rule, access(target, through@), seq![access(g, g_through@)]),
        step@.wf(),
{
    let step = Step::new(rule, WriteMode::Overwrite, Extent::Whole, target, through).read(
        g,
        g_through,
    );
    proof {
        assert(step@.sources =~= seq![access(g, g_through@)]);
    }
    step
}

/// The contribution that writes to some cells of `target`, leaves the others
/// alone, and reads `g`.
pub fn contribute_within(
    rule: Rule,
    target: Buffer,
    through: Layout,
    g: Buffer,
    g_through: Layout,
) -> (step: Step)
    requires
        g_through@.dims == through@.dims,
    ensures
        step@ == confined(rule, access(target, through@), seq![access(g, g_through@)]),
        step@.wf(),
{
    let step = Step::new(rule, WriteMode::Overwrite, Extent::Written, target, through).read(
        g,
        g_through,
    );
    proof {
        assert(step@.sources =~= seq![access(g, g_through@)]);
    }
    step
}

/// The contribution that writes to `target` and reads `g` and `a`.
pub fn contribute2(
    rule: Rule,
    target: Buffer,
    through: Layout,
    g: Buffer,
    g_through: Layout,
    a: Buffer,
    a_through: Layout,
) -> (step: Step)
    requires
        g_through@.dims == through@.dims,
        a_through@.dims == through@.dims,
    ensures
        step@ == contribution(
            rule,
            access(target, through@),
            seq![access(g, g_through@), access(a, a_through@)],
        ),
        step@.wf(),
{
    let step = Step::new(rule, WriteMode::Overwrite, Extent::Whole, target, through).read(
        g,
        g_through,
    ).read(a, a_through);
    proof {
        assert(step@.sources =~= seq![access(g, g_through@), access(a, a_through@)]);
    }
    step
}

/// The contribution that writes to `target` and reads `g`, `a` and `b`.
pub fn contribute3(
    rule: Rule,
    target: Buffer,
    through: Layout,
    g: Buffer,
    g_through: Layout,
    a: Buffer,
    a_through: Layout,
    b: Buffer,
    b_through: Layout,
) -> (step: Step)
    requires
        g_through@.dims == through@.dims,
        a_through@.dims == through@.dims,
        b_through@.dims == through@.dims,
    ensures
        step@ == contribution(
            rule,
            access(target, through@),
            seq![access(g, g_through@), access(a, a_through@), access(b, b_through@)],
        ),
        step@.wf(),
{
    let step = Step::new(rule, WriteMode::Overwrite, Extent::Whole, target, through).read(
        g,
        g_through,
    ).read(a, a_through).read(b, b_through);
    proof {
        assert(step@.sources =~= seq![
            access(g, g_through@),
            access(a, a_through@),
            access(b, b_through@),
        ]);
    }
    step
}

/// A value that several holders share.
pub fn new_shared<T>(item: T) -> (shared: Rc<T>)
    ensures
        *shared == item,
{
    Rc::new(item)
}

} // verus!
