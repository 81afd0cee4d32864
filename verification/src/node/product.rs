//! Products of matrices and vectors.
//!
//! A product runs over the indices of a space that has one axis for the rows
//! of the result, one for the axis that is summed away, and one for the
//! columns of the result; a vector lacks the first or the last of them. Each
//! of the three tensors is laid out over that space, and each operand
//! receives the sum, over the axis that it lacks, of the gradient times the
//! value of the other operand.

use crate::index::{in_bounds, ravel, volume};
use crate::layout::{broadcasts_to, lemma_contiguous, project, Layout, LayoutView};
use crate::node::{
    access, contribute2, contribution, Backward, BackwardState, BackwardView, Data, Gradient,
    Operands, Overwrite,
};
use crate::plan::{Buffer, Rule, Step, StepView};
use crate::shape::{lemma_volume_remove, Shape};
use vstd::prelude::*;

verus! {

/// The space that the product of tensors of shapes `left` and `right` runs
/// over.
pub open spec fn space_of(left: Seq<usize>, right: Seq<usize>) -> Seq<usize> {
    if left.len() == 2 && right.len() == 2 {
        seq![left[0], left[1], right[1]]
    } else if left.len() == 2 {
        left
    } else if right.len() == 2 {
        right
    } else {
        left
    }
}

/// The shape of the product of tensors of shapes `left` and `right`: a
/// matrix for two matrices, a vector for a matrix and a vector, and a vector
/// of length one for two vectors.
pub open spec fn product_of(left: Seq<usize>, right: Seq<usize>) -> Seq<usize> {
    if left.len() == 2 && right.len() == 2 {
        seq![left[0], right[1]]
    } else if left.len() == 2 {
        seq![left[0]]
    } else if right.len() == 2 {
        seq![right[1]]
    } else {
        seq![1usize]
    }
}

/// The product of tensors of shapes `left` and `right` is defined: each is a
/// matrix or a vector, the last axis of the left one is as long as the first
/// of the right one, and the space of the product has a place in a `usize`.
pub open spec fn multipliable(left: Seq<usize>, right: Seq<usize>) -> bool {
    &&& 1 <= left.len() <= 2
    &&& 1 <= right.len() <= 2
    &&& left.last() == right[0]
    &&& volume(space_of(left, right)) <= usize::MAX
}

/// The layout of the left operand over the space of the product.
pub open spec fn left_over(left: Seq<usize>, right: Seq<usize>) -> LayoutView {
    if right.len() == 2 {
        LayoutView::contiguous(left).insert_axis(left.len() as int).broadcast(
            space_of(left, right),
        )
    } else {
        LayoutView::contiguous(left).broadcast(space_of(left, right))
    }
}

/// The layout of the right operand over the space of the product.
pub open spec fn right_over(left: Seq<usize>, right: Seq<usize>) -> LayoutView {
    LayoutView::contiguous(right).broadcast(space_of(left, right))
}

/// The layout of the product over its space.
pub open spec fn product_over(left: Seq<usize>, right: Seq<usize>) -> LayoutView {
    if left.len() == 2 {
        LayoutView::contiguous(product_of(left, right)).insert_axis(1).broadcast(
            space_of(left, right),
        )
    } else {
        LayoutView::contiguous(product_of(left, right)).broadcast(space_of(left, right))
    }
}

/// What the left operand of a product receives: at each of its cells the
/// sum, over the columns of the result, of the gradient times the value of
/// the right operand.
pub open spec fn to_left(left: Seq<usize>, right: Seq<usize>) -> StepView {
    contribution(
        Rule::Product,
        access(Buffer::LeftGradient, left_over(left, right)),
        seq![
            access(Buffer::Gradient, product_over(left, right)),
            access(Buffer::RightData, right_over(left, right)),
        ],
    )
}

/// What the right operand of a product receives: at each of its cells the
/// sum, over the rows of the result, of the gradient times the value of the
/// left operand.
pub open spec fn to_right(left: Seq<usize>, right: Seq<usize>) -> StepView {
    contribution(
        Rule::Product,
        access(Buffer::RightGradient, right_over(left, right)),
        seq![
            access(Buffer::Gradient, product_over(left, right)),
            access(Buffer::LeftData, left_over(left, right)),
        ],
    )
}

/// A row-major buffer of shape `dims`, given an axis of length one at
/// `axis` and broadcast to the shape `space`, is read at an index of `space`
/// where the index stands that the index projects to, without the new axis.
pub proof fn lemma_lifted(dims: Seq<usize>, axis: int, space: Seq<usize>, idx: Seq<int>)
    requires
        volume(dims) <= usize::MAX,
        volume(space) <= usize::MAX,
        0 <= axis <= dims.len(),
        broadcasts_to(dims.insert(axis, 1), space),
        in_bounds(idx, space),
    ensures
        LayoutView::contiguous(dims).insert_axis(axis).broadcast(space).wf(),
        in_bounds(project(dims.insert(axis, 1), idx).remove(axis), dims),
        LayoutView::contiguous(dims).insert_axis(axis).broadcast(space).at(idx) == ravel(
            dims,
            project(dims.insert(axis, 1), idx).remove(axis),
        ),
{
    let flat = LayoutView::contiguous(dims);
    let wide = flat.insert_axis(axis);
    let low = project(wide.dims, idx);
    lemma_contiguous(dims);
    flat.lemma_insert_axis(axis, low);
    wide.lemma_broadcast(space, idx);
}

/// In the product of two matrices the cell of the left operand at row `i`
/// and column `p` goes with the cell of the product at row `i` and column
/// `j` and the cell of the right operand at row `p` and column `j`, for
/// every `j`. So the left operand receives the gradient times the transposed
/// right operand, and the right operand the transposed left operand times
/// the gradient.
pub proof fn lemma_matrix_matrix_cells(left: Seq<usize>, right: Seq<usize>, i: int, p: int, j: int)
    requires
        multipliable(left, right),
        left.len() == 2,
        right.len() == 2,
        0 <= i < left[0],
        0 <= p < left[1],
        0 <= j < right[1],
    ensures
        in_bounds(seq![i, p, j], space_of(left, right)),
        left_over(left, right).at(seq![i, p, j]) == ravel(left, seq![i, p]),
        product_over(left, right).at(seq![i, p, j]) == ravel(product_of(left, right), seq![i, j]),
        right_over(left, right).at(seq![i, p, j]) == ravel(right, seq![p, j]),
{
    let space = space_of(left, right);
    let product = product_of(left, right);
    let idx = seq![i, p, j];
    assert(in_bounds(idx, space));
    lemma_parts_fit(space);
    assert(space.remove(2) =~= left);
    assert(space.remove(1) =~= product);
    assert(space.remove(0) =~= right);
    // the left operand
    assert(broadcasts_to(left.insert(2, 1), space)) by {
        assert forall|k: int| 0 <= k < 3 implies #[trigger] left.insert(2, 1)[k] == space[k + 0]
            || left.insert(2, 1)[k] == 1 by {}
    }
    lemma_lifted(left, 2, space, idx);
    assert(project(left.insert(2, 1), idx).remove(2) =~= seq![i, p]);
    // the product
    assert(broadcasts_to(product.insert(1, 1), space)) by {
        assert forall|k: int| 0 <= k < 3 implies #[trigger] product.insert(1, 1)[k] == space[k
            + 0] || product.insert(1, 1)[k] == 1 by {}
    }
    lemma_lifted(product, 1, space, idx);
    assert(project(product.insert(1, 1), idx).remove(1) =~= seq![i, j]);
    // the right operand
    assert(broadcasts_to(right, space)) by {
        assert forall|k: int| 0 <= k < 2 implies #[trigger] right[k] == space[k + 1] || right[k]
            == 1 by {}
    }
    lemma_contiguous(right);
    LayoutView::contiguous(right).lemma_broadcast(space, idx);
    assert(project(right, idx) =~= seq![p, j]);
}

/// In the product of a matrix and a vector the cell of the matrix at row `i`
/// and column `p` goes with the cell `i` of the product and the cell `p` of
/// the vector.
pub proof fn lemma_matrix_vector_cells(left: Seq<usize>, right: Seq<usize>, i: int, p: int)
    requires
        multipliable(left, right),
        left.len() == 2,
        right.len() == 1,
        0 <= i < left[0],
        0 <= p < left[1],
    ensures
        in_bounds(seq![i, p], space_of(left, right)),
        left_over(left, right).at(seq![i, p]) == ravel(left, seq![i, p]),
        product_over(left, right).at(seq![i, p]) == ravel(product_of(left, right), seq![i]),
        right_over(left, right).at(seq![i, p]) == ravel(right, seq![p]),
{
    let space = space_of(left, right);
    let product = product_of(left, right);
    let idx = seq![i, p];
    assert(in_bounds(idx, space));
    lemma_parts_fit(space);
    assert(space.remove(1) =~= product);
    assert(space.remove(0) =~= right);
    // the left operand
    assert(broadcasts_to(left, space));
    lemma_contiguous(left);
    LayoutView::contiguous(left).lemma_broadcast(space, idx);
    assert(project(left, idx) =~= idx);
    // the product
    assert(broadcasts_to(product.insert(1, 1), space)) by {
        assert forall|k: int| 0 <= k < 2 implies #[trigger] product.insert(1, 1)[k] == space[k
            + 0] || product.insert(1, 1)[k] == 1 by {}
    }
    lemma_lifted(product, 1, space, idx);
    assert(project(product.insert(1, 1), idx).remove(1) =~= seq![i]);
    // the right operand
    assert(broadcasts_to(right, space)) by {
        assert forall|k: int| 0 <= k < 1 implies #[trigger] right[k] == space[k + 1] || right[k]
            == 1 by {}
    }
    lemma_contiguous(right);
    LayoutView::contiguous(right).lemma_broadcast(space, idx);
    assert(project(right, idx) =~= seq![p]);
}

/// In the product of a vector and a matrix the cell `p` of the vector goes
/// with the cell `j` of the product and the cell of the matrix at row `p`
/// and column `j`.
pub proof fn lemma_vector_matrix_cells(left: Seq<usize>, right: Seq<usize>, p: int, j: int)
    requires
        multipliable(left, right),
        left.len() == 1,
        right.len() == 2,
        0 <= p < left[0],
        0 <= j < right[1],
    ensures
        in_bounds(seq![p, j], space_of(left, right)),
        left_over(left, right).at(seq![p, j]) == ravel(left, seq![p]),
        product_over(left, right).at(seq![p, j]) == ravel(product_of(left, right), seq![j]),
        right_over(left, right).at(seq![p, j]) == ravel(right, seq![p, j]),
{
    let space = space_of(left, right);
    let product = product_of(left, right);
    let idx = seq![p, j];
    assert(in_bounds(idx, space));
    lemma_parts_fit(space);
    assert(space.remove(1) =~= left);
    assert(space.remove(0) =~= product);
    // the left operand
    assert(broadcasts_to(left.insert(1, 1), space)) by {
        assert forall|k: int| 0 <= k < 2 implies #[trigger] left.insert(1, 1)[k] == space[k + 0]
            || left.insert(1, 1)[k] == 1 by {}
    }
    lemma_lifted(left, 1, space, idx);
    assert(project(left.insert(1, 1), idx).remove(1) =~= seq![p]);
    // the product
    assert(broadcasts_to(product, space)) by {
        assert forall|k: int| 0 <= k < 1 implies #[trigger] product[k] == space[k + 1]
            || product[k] == 1 by {}
    }
    lemma_contiguous(product);
    LayoutView::contiguous(product).lemma_broadcast(space, idx);
    assert(project(product, idx) =~= seq![j]);
    // the right operand
    assert(broadcasts_to(right, space));
    lemma_contiguous(right);
    LayoutView::contiguous(right).lemma_broadcast(space, idx);
    assert(project(right, idx) =~= idx);
}

/// In the product of two vectors the cell `p` of either vector goes with the
/// one cell of the product and the cell `p` of the other vector.
pub proof fn lemma_vector_vector_cells(left: Seq<usize>, right: Seq<usize>, p: int)
    requires
        multipliable(left, right),
        left.len() == 1,
        right.len() == 1,
        0 <= p < left[0],
    ensures
        in_bounds(seq![p], space_of(left, right)),
        left_over(left, right).at(seq![p]) == ravel(left, seq![p]),
        product_over(left, right).at(seq![p]) == 0,
        right_over(left, right).at(seq![p]) == ravel(right, seq![p]),
{
    let space = space_of(left, right);
    let product = product_of(left, right);
    let idx = seq![p];
    assert(in_bounds(idx, space));
    assert(left =~= right);
    // the operands
    assert(broadcasts_to(left, space));
    lemma_contiguous(left);
    LayoutView::contiguous(left).lemma_broadcast(space, idx);
    assert(project(left, idx) =~= idx);
    // the product
    assert(product.drop_last() =~= Seq::<usize>::empty());
    assert(volume(product.drop_last()) == 1);
    assert(product.last() == 1);
    assert(volume(product) == 1 * 1);
    assert(broadcasts_to(product, space));
    lemma_contiguous(product);
    LayoutView::contiguous(product).lemma_broadcast(space, idx);
    assert(project(product, idx) =~= seq![0int]);
    assert(seq![0int].drop_last() =~= Seq::<int>::empty());
    assert(ravel(product, seq![0int]) == 0) by {
        assert(ravel(product.drop_last(), seq![0int].drop_last()) == 0);
        assert(seq![0int].last() == 0);
    }
}

/// A shape without one of its axes has a place in a `usize` if the shape
/// has.
pub proof fn lemma_parts_fit(space: Seq<usize>)
    requires
        volume(space) <= usize::MAX,
    ensures
        forall|axis: int|
            0 <= axis < space.len() ==> volume(#[trigger] space.remove(axis)) <= usize::MAX,
{
    assert forall|axis: int| 0 <= axis < space.len() implies volume(
        #[trigger] space.remove(axis),
    ) <= usize::MAX by {
        lemma_volume_remove(space, axis);
        let v = volume(space.remove(axis)) as int;
        let x: int = if space[axis] == 0 {
            1
        } else {
            space[axis] as int
        };
        assert(v <= v * x) by (nonlinear_arith)
            requires
                v >= 0,
                x >= 1,
        ;
    }
}

/// Whether the product of tensors of shapes `left` and `right` is defined.
pub fn multiplies(left: &Shape, right: &Shape) -> (defined: bool)
    ensures
        defined == multipliable(left@, right@),
{
    let l = left.ndim();
    let r = right.ndim();
    if l < 1 || l > 2 || r < 1 || r > 2 {
        return false;
    }
    if left.axis(l - 1) != right.axis(0) {
        return false;
    }
    if l == 2 && r == 2 {
        let mut dims: Vec<usize> = Vec::new();
        dims.push(left.axis(0));
        dims.push(left.axis(1));
        dims.push(right.axis(1));
        proof {
            assert(dims@ =~= space_of(left@, right@));
        }
        Shape::new(dims).is_some()
    } else {
        proof {
            use_type_invariant(left);
            use_type_invariant(right);
        }
        true
    }
}

/// The shape of the product and the layouts of the left operand, the product
/// and the right operand over the space of the product.
fn contraction(left: &Shape, right: &Shape) -> (parts: (Shape, Layout, Layout, Layout))
    requires
        multipliable(left@, right@),
    ensures
        parts.0@ == product_of(left@, right@),
        parts.1@ == left_over(left@, right@),
        parts.2@ == product_over(left@, right@),
        parts.3@ == right_over(left@, right@),
        parts.1@.dims == space_of(left@, right@),
        parts.2@.dims == space_of(left@, right@),
        parts.3@.dims == space_of(left@, right@),
{
    let l = left.ndim();
    let r = right.ndim();
    let space = if l == 2 && r == 2 {
        let mut dims: Vec<usize> = Vec::new();
        dims.push(left.axis(0));
        dims.push(left.axis(1));
        dims.push(right.axis(1));
        proof {
            assert(dims@ =~= space_of(left@, right@));
        }
        Shape::new(dims).unwrap()
    } else if l == 2 {
        left.duplicate()
    } else if r == 2 {
        right.duplicate()
    } else {
        left.duplicate()
    };
    let product = if l == 2 && r == 2 {
        proof {
            lemma_volume_remove(space@, 1);
            assert(space@.remove(1) =~= product_of(left@, right@));
            let v = volume(space@.remove(1)) as int;
            let x: int = if space@[1] == 0 {
                1
            } else {
                space@[1] as int
            };
            assert(v <= v * x) by (nonlinear_arith)
                requires
                    v >= 0,
                    x >= 1,
            ;
        }
        let mut dims: Vec<usize> = Vec::new();
        dims.push(left.axis(0));
        dims.push(right.axis(1));
        proof {
            assert(dims@ =~= product_of(left@, right@));
        }
        Shape::new(dims).unwrap()
    } else if l == 2 {
        Shape::vector(left.axis(0))
    } else if r == 2 {
        Shape::vector(right.axis(1))
    } else {
        Shape::vector(1)
    };
    let over_left = if r == 2 {
        let wide = Layout::contiguous(left).insert_axis(l);
        proof {
            assert(broadcasts_to(wide@.dims, space@)) by {
                assert forall|k: int| 0 <= k < wide@.dims.len() implies #[trigger] wide@.dims[k]
                    == space@[k + (space@.len() - wide@.dims.len())] || wide@.dims[k] == 1 by {}
            }
        }
        wide.broadcast(&space).unwrap()
    } else {
        proof {
            assert(broadcasts_to(left@, space@));
        }
        Layout::contiguous(left).broadcast(&space).unwrap()
    };
    let over_product = if l == 2 {
        let wide = Layout::contiguous(&product).insert_axis(1);
        proof {
            assert(broadcasts_to(wide@.dims, space@)) by {
                assert forall|k: int| 0 <= k < wide@.dims.len() implies #[trigger] wide@.dims[k]
                    == space@[k + (space@.len() - wide@.dims.len())] || wide@.dims[k] == 1 by {}
            }
        }
        wide.broadcast(&space).unwrap()
    } else {
        proof {
            assert(broadcasts_to(product@, space@)) by {
                assert forall|k: int| 0 <= k < product@.len() implies #[trigger] product@[k]
                    == space@[k + (space@.len() - product@.len())] || product@[k] == 1 by {}
            }
        }
        Layout::contiguous(&product).broadcast(&space).unwrap()
    };
    proof {
        assert(broadcasts_to(right@, space@)) by {
            assert forall|k: int| 0 <= k < right@.len() implies #[trigger] right@[k] == space@[k
                + (space@.len() - right@.len())] || right@[k] == 1 by {}
        }
    }
    let over_right = Layout::contiguous(right).broadcast(&space).unwrap();
    (product, over_left, over_product, over_right)
}

/// The backward node of the product of two matrices.
pub struct MatrixMatrixMulBackward {
    state: BackwardState,
}

impl MatrixMatrixMulBackward {
    /// The node for a left operand whose value `left_data` and whose gradient
    /// `left_grad` holds, and a right operand whose value `right_data` and whose
    /// gradient `right_grad` holds.
    pub fn new<LhsD: Data, LhsG: Gradient, RhsD: Data, RhsG: Gradient>(
        left_data: &LhsD,
        left_grad: &LhsG,
        right_data: &RhsD,
        right_grad: &RhsG,
    ) -> (node: MatrixMatrixMulBackward)
        requires
            multipliable(left_grad.gradient_dims(), right_grad.gradient_dims()),
            left_grad.gradient_dims().len() == 2,
            right_grad.gradient_dims().len() == 2,
            left_data.data_dims() == left_grad.gradient_dims(),
            right_data.data_dims() == right_grad.gradient_dims(),
        ensures
            node@ == (BackwardView {
                gradient: product_of(left_grad.gradient_dims(), right_grad.gradient_dims()),
                overwrite: true,
                left: Some(to_left(left_grad.gradient_dims(), right_grad.gradient_dims())),
                right: Some(to_right(left_grad.gradient_dims(), right_grad.gradient_dims())),
            }),
    {
        let (gradient, over_left, over_product, over_right) = contraction(
            left_grad.gradient(),
            right_grad.gradient(),
        );
        let first = contribute2(
            Rule::Product,
            Buffer::LeftGradient,
            over_left.duplicate(),
            Buffer::Gradient,
            over_product.duplicate(),
            Buffer::RightData,
            over_right.duplicate(),
        );
        let second = contribute2(
            Rule::Product,
            Buffer::RightGradient,
            over_right,
            Buffer::Gradient,
            over_product,
            Buffer::LeftData,
            over_left,
        );
        MatrixMatrixMulBackward { state: BackwardState::new(gradient, Some(first), Some(second)) }
    }
}

impl View for MatrixMatrixMulBackward {
    type V = BackwardView;

    closed spec fn view(&self) -> BackwardView {
        self.state@
    }
}

impl Gradient for MatrixMatrixMulBackward {
    open spec fn gradient_dims(&self) -> Seq<usize> {
        self@.gradient
    }

    fn gradient(&self) -> (shape: &Shape) {
        self.state.gradient()
    }
}

impl Overwrite for MatrixMatrixMulBackward {
    open spec fn overwritable(&self) -> bool {
        self@.overwrite
    }

    fn can_overwrite(&self) -> (state: bool) {
        self.state.can_overwrite()
    }

    fn set_overwrite(&mut self, state: bool)
        ensures
            final(self)@ == (BackwardView { overwrite: state, ..old(self)@ }),
    {
        self.state.set_overwrite(state)
    }
}

impl Backward for MatrixMatrixMulBackward {
    open spec fn left(&self) -> Option<StepView> {
        self@.left
    }

    open spec fn right(&self) -> Option<StepView> {
        self@.right
    }

    fn backward(&self, operands: &mut Operands) -> (plan: Vec<Step>) {
        self.state.backward(operands)
    }
}

/// The backward node of the product of two matrices, of which the left operand alone
/// takes a gradient.
pub struct MatrixMatrixMulBackwardLeft {
    state: BackwardState,
}

impl MatrixMatrixMulBackwardLeft {
    /// The node for a left operand whose gradient `left_grad` holds and a right
    /// operand whose value `right_data` holds.
    pub fn new<LhsG: Gradient, RhsD: Data>(
        left_grad: &LhsG,
        right_data: &RhsD,
    ) -> (node: MatrixMatrixMulBackwardLeft)
        requires
            multipliable(left_grad.gradient_dims(), right_data.data_dims()),
            left_grad.gradient_dims().len() == 2,
            right_data.data_dims().len() == 2,
        ensures
            node@ == (BackwardView {
                gradient: product_of(left_grad.gradient_dims(), right_data.data_dims()),
                overwrite: true,
                left: Some(to_left(left_grad.gradient_dims(), right_data.data_dims())),
                right: None,
            }),
    {
        let (gradient, over_left, over_product, over_right) = contraction(
            left_grad.gradient(),
            right_data.data(),
        );
        let first = contribute2(
            Rule::Product,
            Buffer::LeftGradient,
            over_left,
            Buffer::Gradient,
            over_product,
            Buffer::RightData,
            over_right,
        );
        MatrixMatrixMulBackwardLeft { state: BackwardState::new(gradient, Some(first), None) }
    }
}

impl View for MatrixMatrixMulBackwardLeft {
    type V = BackwardView;

    closed spec fn view(&self) -> BackwardView {
        self.state@
    }
}

impl Gradient for MatrixMatrixMulBackwardLeft {
    open spec fn gradient_dims(&self) -> Seq<usize> {
        self@.gradient
    }

    fn gradient(&self) -> (shape: &Shape) {
        self.state.gradient()
    }
}

impl Overwrite for MatrixMatrixMulBackwardLeft {
    open spec fn overwritable(&self) -> bool {
        self@.overwrite
    }

    fn can_overwrite(&self) -> (state: bool) {
        self.state.can_overwrite()
    }

    fn set_overwrite(&mut self, state: bool)
        ensures
            final(self)@ == (BackwardView { overwrite: state, ..old(self)@ }),
    {
        self.state.set_overwrite(state)
    }
}

impl Backward for MatrixMatrixMulBackwardLeft {
    open spec fn left(&self) -> Option<StepView> {
        self@.left
    }

    open spec fn right(&self) -> Option<StepView> {
        self@.right
    }

    fn backward(&self, operands: &mut Operands) -> (plan: Vec<Step>) {
        self.state.backward(operands)
    }
}

/// The backward node of the product of two matrices, of which the right operand alone
/// takes a gradient.
pub struct MatrixMatrixMulBackwardRight {
    state: BackwardState,
}

impl MatrixMatrixMulBackwardRight {
    /// The node for a left operand whose value `left_data` holds and a right
    /// operand whose gradient `right_grad` holds.
    pub fn new<LhsD: Data, RhsG: Gradient>(
        left_data: &LhsD,
        right_grad: &RhsG,
    ) -> (node: MatrixMatrixMulBackwardRight)
        requires
            multipliable(left_data.data_dims(), right_grad.gradient_dims()),
            left_data.data_dims().len() == 2,
            right_grad.gradient_dims().len() == 2,
        ensures
            node@ == (BackwardView {
                gradient: product_of(left_data.data_dims(), right_grad.gradient_dims()),
                overwrite: true,
                left: None,
                right: Some(to_right(left_data.data_dims(), right_grad.gradient_dims())),
            }),
    {
        let (gradient, over_left, over_product, over_right) = contraction(
            left_data.data(),
            right_grad.gradient(),
        );
        let second = contribute2(
            Rule::Product,
            Buffer::RightGradient,
            over_right,
            Buffer::Gradient,
            over_product,
            Buffer::LeftData,
            over_left,
        );
        MatrixMatrixMulBackwardRight { state: BackwardState::new(gradient, None, Some(second)) }
    }
}

impl View for MatrixMatrixMulBackwardRight {
    type V = BackwardView;

    closed spec fn view(&self) -> BackwardView {
        self.state@
    }
}

impl Gradient for MatrixMatrixMulBackwardRight {
    open spec fn gradient_dims(&self) -> Seq<usize> {
        self@.gradient
    }

    fn gradient(&self) -> (shape: &Shape) {
        self.state.gradient()
    }
}

impl Overwrite for MatrixMatrixMulBackwardRight {
    open spec fn overwritable(&self) -> bool {
        self@.overwrite
    }

    fn can_overwrite(&self) -> (state: bool) {
        self.state.can_overwrite()
    }

    fn set_overwrite(&mut self, state: bool)
        ensures
            final(self)@ == (BackwardView { overwrite: state, ..old(self)@ }),
    {
        self.state.set_overwrite(state)
    }
}

impl Backward for MatrixMatrixMulBackwardRight {
    open spec fn left(&self) -> Option<StepView> {
        self@.left
    }

    open spec fn right(&self) -> Option<StepView> {
        self@.right
    }

    fn backward(&self, operands: &mut Operands) -> (plan: Vec<Step>) {
        self.state.backward(operands)
    }
}

/// The backward node of the product of a matrix and a vector.
pub struct MatrixVectorMulBackward {
    state: BackwardState,
}

impl MatrixVectorMulBackward {
    /// The node for a left operand whose value `left_data` and whose gradient
    /// `left_grad` holds, and a right operand whose value `right_data` and whose
    /// gradient `right_grad` holds.
    pub fn new<LhsD: Data, LhsG: Gradient, RhsD: Data, RhsG: Gradient>(
        left_data: &LhsD,
        left_grad: &LhsG,
        right_data: &RhsD,
        right_grad: &RhsG,
    ) -> (node: MatrixVectorMulBackward)
        requires
            multipliable(left_grad.gradient_dims(), right_grad.gradient_dims()),
            left_grad.gradient_dims().len() == 2,
            right_grad.gradient_dims().len() == 1,
            left_data.data_dims() == left_grad.gradient_dims(),
            right_data.data_dims() == right_grad.gradient_dims(),
        ensures
            node@ == (BackwardView {
                gradient: product_of(left_grad.gradient_dims(), right_grad.gradient_dims()),
                overwrite: true,
                left: Some(to_left(left_grad.gradient_dims(), right_grad.gradient_dims())),
                right: Some(to_right(left_grad.gradient_dims(), right_grad.gradient_dims())),
            }),
    {
        let (gradient, over_left, over_product, over_right) = contraction(
            left_grad.gradient(),
            right_grad.gradient(),
        );
        let first = contribute2(
            Rule::Product,
            Buffer::LeftGradient,
            over_left.duplicate(),
            Buffer::Gradient,
            over_product.duplicate(),
            Buffer::RightData,
            over_right.duplicate(),
        );
        let second = contribute2(
            Rule::Product,
            Buffer::RightGradient,
            over_right,
            Buffer::Gradient,
            over_product,
            Buffer::LeftData,
            over_left,
        );
        MatrixVectorMulBackward { state: BackwardState::new(gradient, Some(first), Some(second)) }
    }
}

impl View for MatrixVectorMulBackward {
    type V = BackwardView;

    closed spec fn view(&self) -> BackwardView {
        self.state@
    }
}

impl Gradient for MatrixVectorMulBackward {
    open spec fn gradient_dims(&self) -> Seq<usize> {
        self@.gradient
    }

    fn gradient(&self) -> (shape: &Shape) {
        self.state.gradient()
    }
}

impl Overwrite for MatrixVectorMulBackward {
    open spec fn overwritable(&self) -> bool {
        self@.overwrite
    }

    fn can_overwrite(&self) -> (state: bool) {
        self.state.can_overwrite()
    }

    fn set_overwrite(&mut self, state: bool)
        ensures
            final(self)@ == (BackwardView { overwrite: state, ..old(self)@ }),
    {
        self.state.set_overwrite(state)
    }
}

impl Backward for MatrixVectorMulBackward {
    open spec fn left(&self) -> Option<StepView> {
        self@.left
    }

    open spec fn right(&self) -> Option<StepView> {
        self@.right
    }

    fn backward(&self, operands: &mut Operands) -> (plan: Vec<Step>) {
        self.state.backward(operands)
    }
}

/// The backward node of the product of a matrix and a vector, of which the left operand alone
/// takes a gradient.
pub struct MatrixVectorMulBackwardLeft {
    state: BackwardState,
}

impl MatrixVectorMulBackwardLeft {
    /// The node for a left operand whose gradient `left_grad` holds and a right
    /// operand whose value `right_data` holds.
    pub fn new<LhsG: Gradient, RhsD: Data>(
        left_grad: &LhsG,
        right_data: &RhsD,
    ) -> (node: MatrixVectorMulBackwardLeft)
        requires
            multipliable(left_grad.gradient_dims(), right_data.data_dims()),
            left_grad.gradient_dims().len() == 2,
            right_data.data_dims().len() == 1,
        ensures
            node@ == (BackwardView {
                gradient: product_of(left_grad.gradient_dims(), right_data.data_dims()),
                overwrite: true,
                left: Some(to_left(left_grad.gradient_dims(), right_data.data_dims())),
                right: None,
            }),
    {
        let (gradient, over_left, over_product, over_right) = contraction(
            left_grad.gradient(),
            right_data.data(),
        );
        let first = contribute2(
            Rule::Product,
            Buffer::LeftGradient,
            over_left,
            Buffer::Gradient,
            over_product,
            Buffer::RightData,
            over_right,
        );
        MatrixVectorMulBackwardLeft { state: BackwardState::new(gradient, Some(first), None) }
    }
}

impl View for MatrixVectorMulBackwardLeft {
    type V = BackwardView;

    closed spec fn view(&self) -> BackwardView {
        self.state@
    }
}

impl Gradient for MatrixVectorMulBackwardLeft {
    open spec fn gradient_dims(&self) -> Seq<usize> {
        self@.gradient
    }

    fn gradient(&self) -> (shape: &Shape) {
        self.state.gradient()
    }
}

impl Overwrite for MatrixVectorMulBackwardLeft {
    open spec fn overwritable(&self) -> bool {
        self@.overwrite
    }

    fn can_overwrite(&self) -> (state: bool) {
        self.state.can_overwrite()
    }

    fn set_overwrite(&mut self, state: bool)
        ensures
            final(self)@ == (BackwardView { overwrite: state, ..old(self)@ }),
    {
        self.state.set_overwrite(state)
    }
}

impl Backward for MatrixVectorMulBackwardLeft {
    open spec fn left(&self) -> Option<StepView> {
        self@.left
    }

    open spec fn right(&self) -> Option<StepView> {
        self@.right
    }

    fn backward(&self, operands: &mut Operands) -> (plan: Vec<Step>) {
        self.state.backward(operands)
    }
}

/// The backward node of the product of a matrix and a vector, of which the right operand alone
/// takes a gradient.
pub struct MatrixVectorMulBackwardRight {
    state: BackwardState,
}

impl MatrixVectorMulBackwardRight {
    /// The node for a left operand whose value `left_data` holds and a right
    /// operand whose gradient `right_grad` holds.
    pub fn new<LhsD: Data, RhsG: Gradient>(
        left_data: &LhsD,
        right_grad: &RhsG,
    ) -> (node: MatrixVectorMulBackwardRight)
        requires
            multipliable(left_data.data_dims(), right_grad.gradient_dims()),
            left_data.data_dims().len() == 2,
            right_grad.gradient_dims().len() == 1,
        ensures
            node@ == (BackwardView {
                gradient: product_of(left_data.data_dims(), right_grad.gradient_dims()),
                overwrite: true,
                left: None,
                right: Some(to_right(left_data.data_dims(), right_grad.gradient_dims())),
            }),
    {
        let (gradient, over_left, over_product, over_right) = contraction(
            left_data.data(),
            right_grad.gradient(),
        );
        let second = contribute2(
            Rule::Product,
            Buffer::RightGradient,
            over_right,
            Buffer::Gradient,
            over_product,
            Buffer::LeftData,
            over_left,
        );
        MatrixVectorMulBackwardRight { state: BackwardState::new(gradient, None, Some(second)) }
    }
}

impl View for MatrixVectorMulBackwardRight {
    type V = BackwardView;

    closed spec fn view(&self) -> BackwardView {
        self.state@
    }
}

impl Gradient for MatrixVectorMulBackwardRight {
    open spec fn gradient_dims(&self) -> Seq<usize> {
        self@.gradient
    }

    fn gradient(&self) -> (shape: &Shape) {
        self.state.gradient()
    }
}

impl Overwrite for MatrixVectorMulBackwardRight {
    open spec fn overwritable(&self) -> bool {
        self@.overwrite
    }

    fn can_overwrite(&self) -> (state: bool) {
        self.state.can_overwrite()
    }

    fn set_overwrite(&mut self, state: bool)
        ensures
            final(self)@ == (BackwardView { overwrite: state, ..old(self)@ }),
    {
        self.state.set_overwrite(state)
    }
}

impl Backward for MatrixVectorMulBackwardRight {
    open spec fn left(&self) -> Option<StepView> {
        self@.left
    }

    open spec fn right(&self) -> Option<StepView> {
        self@.right
    }

    fn backward(&self, operands: &mut Operands) -> (plan: Vec<Step>) {
        self.state.backward(operands)
    }
}

/// The backward node of the product of a vector and a matrix.
pub struct VectorMatrixMulBackward {
    state: BackwardState,
}

impl VectorMatrixMulBackward {
    /// The node for a left operand whose value `left_data` and whose gradient
    /// `left_grad` holds, and a right operand whose value `right_data` and whose
    /// gradient `right_grad` holds.
    pub fn new<LhsD: Data, LhsG: Gradient, RhsD: Data, RhsG: Gradient>(
        left_data: &LhsD,
        left_grad: &LhsG,
        right_data: &RhsD,
        right_grad: &RhsG,
    ) -> (node: VectorMatrixMulBackward)
        requires
            multipliable(left_grad.gradient_dims(), right_grad.gradient_dims()),
            left_grad.gradient_dims().len() == 1,
            right_grad.gradient_dims().len() == 2,
            left_data.data_dims() == left_grad.gradient_dims(),
            right_data.data_dims() == right_grad.gradient_dims(),
        ensures
            node@ == (BackwardView {
                gradient: product_of(left_grad.gradient_dims(), right_grad.gradient_dims()),
                overwrite: true,
                left: Some(to_left(left_grad.gradient_dims(), right_grad.gradient_dims())),
                right: Some(to_right(left_grad.gradient_dims(), right_grad.gradient_dims())),
            }),
    {
        let (gradient, over_left, over_product, over_right) = contraction(
            left_grad.gradient(),
            right_grad.gradient(),
        );
        let first = contribute2(
            Rule::Product,
            Buffer::LeftGradient,
            over_left.duplicate(),
            Buffer::Gradient,
            over_product.duplicate(),
            Buffer::RightData,
            over_right.duplicate(),
        );
        let second = contribute2(
            Rule::Product,
            Buffer::RightGradient,
            over_right,
            Buffer::Gradient,
            over_product,
            Buffer::LeftData,
            over_left,
        );
        VectorMatrixMulBackward { state: BackwardState::new(gradient, Some(first), Some(second)) }
    }
}

impl View for VectorMatrixMulBackward {
    type V = BackwardView;

    closed spec fn view(&self) -> BackwardView {
        self.state@
    }
}

impl Gradient for VectorMatrixMulBackward {
    open spec fn gradient_dims(&self) -> Seq<usize> {
        self@.gradient
    }

    fn gradient(&self) -> (shape: &Shape) {
        self.state.gradient()
    }
}

impl Overwrite for VectorMatrixMulBackward {
    open spec fn overwritable(&self) -> bool {
        self@.overwrite
    }

    fn can_overwrite(&self) -> (state: bool) {
        self.state.can_overwrite()
    }

    fn set_overwrite(&mut self, state: bool)
        ensures
            final(self)@ == (BackwardView { overwrite: state, ..old(self)@ }),
    {
        self.state.set_overwrite(state)
    }
}

impl Backward for VectorMatrixMulBackward {
    open spec fn left(&self) -> Option<StepView> {
        self@.left
    }

    open spec fn right(&self) -> Option<StepView> {
        self@.right
    }

    fn backward(&self, operands: &mut Operands) -> (plan: Vec<Step>) {
        self.state.backward(operands)
    }
}

/// The backward node of the product of a vector and a matrix, of which the left operand alone
/// takes a gradient.
pub struct VectorMatrixMulBackwardLeft {
    state: BackwardState,
}

impl VectorMatrixMulBackwardLeft {
    /// The node for a left operand whose gradient `left_grad` holds and a right
    /// operand whose value `right_data` holds.
    pub fn new<LhsG: Gradient, RhsD: Data>(
        left_grad: &LhsG,
        right_data: &RhsD,
    ) -> (node: VectorMatrixMulBackwardLeft)
        requires
            multipliable(left_grad.gradient_dims(), right_data.data_dims()),
            left_grad.gradient_dims().len() == 1,
            right_data.data_dims().len() == 2,
        ensures
            node@ == (BackwardView {
                gradient: product_of(left_grad.gradient_dims(), right_data.data_dims()),
                overwrite: true,
                left: Some(to_left(left_grad.gradient_dims(), right_data.data_dims())),
                right: None,
            }),
    {
        let (gradient, over_left, over_product, over_right) = contraction(
            left_grad.gradient(),
            right_data.data(),
        );
        let first = contribute2(
            Rule::Product,
            Buffer::LeftGradient,
            over_left,
            Buffer::Gradient,
            over_product,
            Buffer::RightData,
            over_right,
        );
        VectorMatrixMulBackwardLeft { state: BackwardState::new(gradient, Some(first), None) }
    }
}

impl View for VectorMatrixMulBackwardLeft {
    type V = BackwardView;

    closed spec fn view(&self) -> BackwardView {
        self.state@
    }
}

impl Gradient for VectorMatrixMulBackwardLeft {
    open spec fn gradient_dims(&self) -> Seq<usize> {
        self@.gradient
    }

    fn gradient(&self) -> (shape: &Shape) {
        self.state.gradient()
    }
}

impl Overwrite for VectorMatrixMulBackwardLeft {
    open spec fn overwritable(&self) -> bool {
        self@.overwrite
    }

    fn can_overwrite(&self) -> (state: bool) {
        self.state.can_overwrite()
    }

    fn set_overwrite(&mut self, state: bool)
        ensures
            final(self)@ == (BackwardView { overwrite: state, ..old(self)@ }),
    {
        self.state.set_overwrite(state)
    }
}

impl Backward for VectorMatrixMulBackwardLeft {
    open spec fn left(&self) -> Option<StepView> {
        self@.left
    }

    open spec fn right(&self) -> Option<StepView> {
        self@.right
    }

    fn backward(&self, operands: &mut Operands) -> (plan: Vec<Step>) {
        self.state.backward(operands)
    }
}

/// The backward node of the product of a vector and a matrix, of which the right operand alone
/// takes a gradient.
pub struct VectorMatrixMulBackwardRight {
    state: BackwardState,
}

impl VectorMatrixMulBackwardRight {
    /// The node for a left operand whose value `left_data` holds and a right
    /// operand whose gradient `right_grad` holds.
    pub fn new<LhsD: Data, RhsG: Gradient>(
        left_data: &LhsD,
        right_grad: &RhsG,
    ) -> (node: VectorMatrixMulBackwardRight)
        requires
            multipliable(left_data.data_dims(), right_grad.gradient_dims()),
            left_data.data_dims().len() == 1,
            right_grad.gradient_dims().len() == 2,
        ensures
            node@ == (BackwardView {
                gradient: product_of(left_data.data_dims(), right_grad.gradient_dims()),
                overwrite: true,
                left: None,
                right: Some(to_right(left_data.data_dims(), right_grad.gradient_dims())),
            }),
    {
        let (gradient, over_left, over_product, over_right) = contraction(
            left_data.data(),
            right_grad.gradient(),
        );
        let second = contribute2(
            Rule::Product,
            Buffer::RightGradient,
            over_right,
            Buffer::Gradient,
            over_product,
            Buffer::LeftData,
            over_left,
        );
        VectorMatrixMulBackwardRight { state: BackwardState::new(gradient, None, Some(second)) }
    }
}

impl View for VectorMatrixMulBackwardRight {
    type V = BackwardView;

    closed spec fn view(&self) -> BackwardView {
        self.state@
    }
}

impl Gradient for VectorMatrixMulBackwardRight {
    open spec fn gradient_dims(&self) -> Seq<usize> {
        self@.gradient
    }

    fn gradient(&self) -> (shape: &Shape) {
        self.state.gradient()
    }
}

impl Overwrite for VectorMatrixMulBackwardRight {
    open spec fn overwritable(&self) -> bool {
        self@.overwrite
    }

    fn can_overwrite(&self) -> (state: bool) {
        self.state.can_overwrite()
    }

    fn set_overwrite(&mut self, state: bool)
        ensures
            final(self)@ == (BackwardView { overwrite: state, ..old(self)@ }),
    {
        self.state.set_overwrite(state)
    }
}

impl Backward for VectorMatrixMulBackwardRight {
    open spec fn left(&self) -> Option<StepView> {
        self@.left
    }

    open spec fn right(&self) -> Option<StepView> {
        self@.right
    }

    fn backward(&self, operands: &mut Operands) -> (plan: Vec<Step>) {
        self.state.backward(operands)
    }
}

/// The backward node of the product of two vectors. Its gradient has one
/// cell; each operand receives it times the value of the other operand.
pub struct VectorVectorMulBackward {
    state: BackwardState,
}

impl VectorVectorMulBackward {
    /// The node for a left operand whose value `left_data` and whose gradient
    /// `left_grad` holds, and a right operand whose value `right_data` and whose
    /// gradient `right_grad` holds.
    pub fn new<LhsD: Data, LhsG: Gradient, RhsD: Data, RhsG: Gradient>(
        left_data: &LhsD,
        left_grad: &LhsG,
        right_data: &RhsD,
        right_grad: &RhsG,
    ) -> (node: VectorVectorMulBackward)
        requires
            multipliable(left_grad.gradient_dims(), right_grad.gradient_dims()),
            left_grad.gradient_dims().len() == 1,
            right_grad.gradient_dims().len() == 1,
            left_data.data_dims() == left_grad.gradient_dims(),
            right_data.data_dims() == right_grad.gradient_dims(),
        ensures
            node@ == (BackwardView {
                gradient: product_of(left_grad.gradient_dims(), right_grad.gradient_dims()),
                overwrite: true,
                left: Some(to_left(left_grad.gradient_dims(), right_grad.gradient_dims())),
                right: Some(to_right(left_grad.gradient_dims(), right_grad.gradient_dims())),
            }),
    {
        let (gradient, over_left, over_product, over_right) = contraction(
            left_grad.gradient(),
            right_grad.gradient(),
        );
        let first = contribute2(
            Rule::Product,
            Buffer::LeftGradient,
            over_left.duplicate(),
            Buffer::Gradient,
            over_product.duplicate(),
            Buffer::RightData,
            over_right.duplicate(),
        );
        let second = contribute2(
            Rule::Product,
            Buffer::RightGradient,
            over_right,
            Buffer::Gradient,
            over_product,
            Buffer::LeftData,
            over_left,
        );
        VectorVectorMulBackward { state: BackwardState::new(gradient, Some(first), Some(second)) }
    }
}

impl View for VectorVectorMulBackward {
    type V = BackwardView;

    closed spec fn view(&self) -> BackwardView {
        self.state@
    }
}

impl Gradient for VectorVectorMulBackward {
    open spec fn gradient_dims(&self) -> Seq<usize> {
        self@.gradient
    }

    fn gradient(&self) -> (shape: &Shape) {
        self.state.gradient()
    }
}

impl Overwrite for VectorVectorMulBackward {
    open spec fn overwritable(&self) -> bool {
        self@.overwrite
    }

    fn can_overwrite(&self) -> (state: bool) {
        self.state.can_overwrite()
    }

    fn set_overwrite(&mut self, state: bool)
        ensures
            final(self)@ == (BackwardView { overwrite: state, ..old(self)@ }),
    {
        self.state.set_overwrite(state)
    }
}

impl Backward for VectorVectorMulBackward {
    open spec fn left(&self) -> Option<StepView> {
        self@.left
    }

    open spec fn right(&self) -> Option<StepView> {
        self@.right
    }

    fn backward(&self, operands: &mut Operands) -> (plan: Vec<Step>) {
        self.state.backward(operands)
    }
}

/// The backward node of the product of two vectors, of which one operand
/// takes a gradient: that operand receives the one cell of the gradient times
/// the value of the other.
pub struct VectorVectorMulBackwardUnary {
    state: BackwardState,
}

impl VectorVectorMulBackwardUnary {
    /// The node for an operand whose gradient `diff_operand` holds and another
    /// whose value `no_diff_operand` holds.
    pub fn new<T: Gradient, U: Data>(
        diff_operand: &T,
        no_diff_operand: &U,
    ) -> (node: VectorVectorMulBackwardUnary)
        requires
            multipliable(diff_operand.gradient_dims(), no_diff_operand.data_dims()),
            diff_operand.gradient_dims().len() == 1,
            no_diff_operand.data_dims().len() == 1,
        ensures
            node@ == (BackwardView {
                gradient: product_of(diff_operand.gradient_dims(), no_diff_operand.data_dims()),
                overwrite: true,
                left: Some(to_left(diff_operand.gradient_dims(), no_diff_operand.data_dims())),
                right: None,
            }),
    {
        let (gradient, over_left, over_product, over_right) = contraction(
            diff_operand.gradient(),
            no_diff_operand.data(),
        );
        let first = contribute2(
            Rule::Product,
            Buffer::LeftGradient,
            over_left,
            Buffer::Gradient,
            over_product,
            Buffer::RightData,
            over_right,
        );
        VectorVectorMulBackwardUnary { state: BackwardState::new(gradient, Some(first), None) }
    }
}

impl View for VectorVectorMulBackwardUnary {
    type V = BackwardView;

    closed spec fn view(&self) -> BackwardView {
        self.state@
    }
}

impl Gradient for VectorVectorMulBackwardUnary {
    open spec fn gradient_dims(&self) -> Seq<usize> {
        self@.gradient
    }

    fn gradient(&self) -> (shape: &Shape) {
        self.state.gradient()
    }
}

impl Overwrite for VectorVectorMulBackwardUnary {
    open spec fn overwritable(&self) -> bool {
        self@.overwrite
    }

    fn can_overwrite(&self) -> (state: bool) {
        self.state.can_overwrite()
    }

    fn set_overwrite(&mut self, state: bool)
        ensures
            final(self)@ == (BackwardView { overwrite: state, ..old(self)@ }),
    {
        self.state.set_overwrite(state)
    }
}

impl Backward for VectorVectorMulBackwardUnary {
    open spec fn left(&self) -> Option<StepView> {
        self@.left
    }

    open spec fn right(&self) -> Option<StepView> {
        self@.right
    }

    fn backward(&self, operands: &mut Operands) -> (plan: Vec<Step>) {
        self.state.backward(operands)
    }
}

} // verus!
