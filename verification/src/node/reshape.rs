//! Nodes that move cells and leave the numbers alone: transposition, the
//! sum of all cells, a new axis, a chunk of a tensor, and the joining of two
//! tensors along an axis that they have or along a new one.

use crate::index::{
    in_bounds, lemma_ravel_injective, lemma_ravel_unravel, lemma_size_positive,
    lemma_unravel_in_bounds, ravel, size, unravel, volume,
};
use crate::layout::{
    lemma_contiguous, shifted, start_at, window_fits, window_start, Layout, LayoutView,
};
use crate::node::{
    access, confined, contribute1, contribute_within, contribution, reduce, spread, whole,
    Backward, BackwardState, BackwardView, Data, Gradient, Operands, Overwrite,
};
use crate::plan::{Buffer, Rule, Step, StepView};
use crate::shape::{
    lemma_reversed_twice, lemma_volume_insert, lemma_volume_monotone, reversed, reversed_index,
    Shape,
};
use vstd::arithmetic::div_mod::*;
use vstd::prelude::*;

verus! {

/// The number of chunks of shape `chunk` along each axis of a tensor of
/// shape `dims`.
pub open spec fn chunk_counts(dims: Seq<usize>, chunk: Seq<usize>) -> Seq<usize> {
    Seq::new(dims.len(), |k: int| (dims[k] as int / chunk[k] as int) as usize)
}

/// The index at which chunk `chunk_no` of a tensor of shape `dims` starts.
/// The chunks are numbered in row-major order.
pub open spec fn chunk_start(dims: Seq<usize>, chunk: Seq<usize>, chunk_no: int) -> Seq<usize> {
    Seq::new(
        dims.len(),
        |k: int| (unravel(chunk_counts(dims, chunk), chunk_no)[k] * chunk[k]) as usize,
    )
}

/// A tensor of shape `dims` falls into chunks of shape `chunk`: as many axes,
/// no axis of the chunk of length zero, and each axis of the tensor a
/// multiple of that of the chunk.
pub open spec fn chunks_evenly(dims: Seq<usize>, chunk: Seq<usize>) -> bool {
    &&& dims.len() == chunk.len()
    &&& forall|k: int|
        0 <= k < dims.len() ==> #[trigger] chunk[k] > 0 && dims[k] as int % chunk[k] as int == 0
}

/// The layout of chunk `chunk_no` within a row-major buffer of shape
/// `dims`.
pub open spec fn chunk_layout(dims: Seq<usize>, chunk: Seq<usize>, chunk_no: int) -> LayoutView {
    LayoutView::contiguous(dims).window(chunk_start(dims, chunk, chunk_no), chunk)
}

/// Whether a tensor of shape `operand` falls into chunks of shape `chunk`.
pub fn chunks(operand: &Shape, chunk: &Shape) -> (even: bool)
    ensures
        even == chunks_evenly(operand@, chunk@),
{
    let n = operand.ndim();
    if chunk.ndim() != n {
        return false;
    }
    let mut k: usize = 0;
    while k < n
        invariant
            k <= n,
            n == operand@.len(),
            n == chunk@.len(),
            forall|j: int|
                0 <= j < k ==> #[trigger] chunk@[j] > 0 && operand@[j] as int % chunk@[j] as int
                    == 0,
        decreases n - k,
    {
        if chunk.axis(k) == 0 || operand.axis(k) % chunk.axis(k) != 0 {
            return false;
        }
        k += 1;
    }
    true
}

/// The number of chunks of shape `chunk` that a tensor of shape `operand`
/// falls into.
pub fn chunk_count(operand: &Shape, chunk: &Shape) -> (count: usize)
    requires
        chunks_evenly(operand@, chunk@),
    ensures
        count == size(chunk_counts(operand@, chunk@)),
{
    counts(operand, chunk).len()
}

fn counts(operand: &Shape, chunk: &Shape) -> (counts: Shape)
    requires
        chunks_evenly(operand@, chunk@),
    ensures
        counts@ == chunk_counts(operand@, chunk@),
{
    proof {
        use_type_invariant(operand);
    }
    let n = operand.ndim();
    let mut counts: Vec<usize> = Vec::with_capacity(n);
    let mut k: usize = 0;
    while k < n
        invariant
            k <= n,
            n == operand@.len(),
            chunks_evenly(operand@, chunk@),
            counts@.len() == k,
            forall|j: int| 0 <= j < k ==> counts@[j] == chunk_counts(operand@, chunk@)[j],
        decreases n - k,
    {
        assert(chunk@[k as int] > 0);
        counts.push(operand.axis(k) / chunk.axis(k));
        k += 1;
    }
    proof {
        assert(counts@ =~= chunk_counts(operand@, chunk@));
        assert forall|j: int| 0 <= j < n implies #[trigger] counts@[j] <= operand@[j] by {
            assert(chunk@[j] > 0);
            lemma_div_is_ordered_by_denominator(operand@[j] as int, 1, chunk@[j] as int);
        }
        lemma_volume_monotone(counts@, operand@);
    }
    Shape::new(counts).unwrap()
}

/// The layout of chunk `chunk_no` within a row-major buffer of shape
/// `operand`.
pub fn chunk_window(operand: &Shape, chunk: &Shape, chunk_no: usize) -> (layout: Layout)
    requires
        chunks_evenly(operand@, chunk@),
        chunk_no < size(chunk_counts(operand@, chunk@)),
    ensures
        layout@ == chunk_layout(operand@, chunk@, chunk_no as int),
        layout@.wf(),
        layout@.dims == chunk@,
{
    let n = operand.ndim();
    let grid = counts(operand, chunk);
    let at = grid.index_at(chunk_no);
    let ghost place = unravel(grid@, chunk_no as int);
    let mut base: Vec<usize> = Vec::with_capacity(n);
    let mut k: usize = 0;
    proof {
        assert forall|j: int| 0 <= j < n implies #[trigger] at@[j] as int == place[j] by {
            assert(at@.map_values(|i: usize| i as int)[j] == place[j]);
        }
    }
    while k < n
        invariant
            k <= n,
            n == operand@.len(),
            n == at@.len(),
            chunks_evenly(operand@, chunk@),
            grid@ == chunk_counts(operand@, chunk@),
            place == unravel(grid@, chunk_no as int),
            in_bounds(place, grid@),
            forall|j: int| 0 <= j < n ==> #[trigger] at@[j] as int == place[j],
            base@.len() == k,
            forall|j: int|
                0 <= j < k ==> #[trigger] base@[j] == chunk_start(
                    operand@,
                    chunk@,
                    chunk_no as int,
                )[j] && base@[j] + chunk@[j] <= operand@[j],
        decreases n - k,
    {
        proof {
            let c = chunk@[k as int] as int;
            let d = operand@[k as int] as int;
            let i = place[k as int];
            assert(chunk@[k as int] > 0 && d % c == 0);
            assert(0 <= i < grid@[k as int]);
            assert(at@[k as int] as int == i);
            lemma_fundamental_div_mod(d, c);
            assert((i + 1) * c <= (d / c) * c) by (nonlinear_arith)
                requires
                    0 <= i < d / c,
                    c > 0,
            ;
            assert((d / c) * c == c * (d / c)) by (nonlinear_arith);
            assert((i + 1) * c == i * c + c) by (nonlinear_arith);
            assert(0 <= i * c) by (nonlinear_arith)
                requires
                    0 <= i,
                    c > 0,
            ;
        }
        base.push(at[k] * chunk.axis(k));
        k += 1;
    }
    proof {
        assert(base@ =~= chunk_start(operand@, chunk@, chunk_no as int));
        assert(window_fits(base@, chunk@, operand@)) by {
            assert forall|j: int| 0 <= j < n implies #[trigger] base@[j] + chunk@[j] <= operand@[j]
                && (base@[j] == 0 || base@[j] < operand@[j]) by {
                assert(chunk@[j] > 0);
            }
        }
    }
    Layout::contiguous(operand).window(&base, chunk)
}

/// Two chunks of one tensor share no cell: an index of one chunk and an
/// index of another are placed at different cells of the tensor's buffer.
pub proof fn lemma_chunks_disjoint(
    dims: Seq<usize>,
    chunk: Seq<usize>,
    first: int,
    second: int,
    i: Seq<int>,
    j: Seq<int>,
)
    requires
        volume(dims) <= usize::MAX,
        chunks_evenly(dims, chunk),
        0 <= first < size(chunk_counts(dims, chunk)),
        0 <= second < size(chunk_counts(dims, chunk)),
        first != second,
        in_bounds(i, chunk),
        in_bounds(j, chunk),
    ensures
        chunk_layout(dims, chunk, first).at(i) != chunk_layout(dims, chunk, second).at(j),
        0 <= chunk_layout(dims, chunk, first).at(i) < size(dims),
{
    let grid = chunk_counts(dims, chunk);
    let a = unravel(grid, first);
    let b = unravel(grid, second);
    lemma_unravel_in_bounds(grid, first);
    lemma_unravel_in_bounds(grid, second);
    lemma_chunk_within(dims, chunk, first, i);
    lemma_chunk_within(dims, chunk, second, j);
    let p = shifted(chunk_start(dims, chunk, first), i);
    let q = shifted(chunk_start(dims, chunk, second), j);
    if ravel(dims, p) == ravel(dims, q) {
        lemma_ravel_injective(dims, p, q);
        assert forall|k: int| 0 <= k < grid.len() implies a[k] == b[k] by {
            let c = chunk[k] as int;
            assert(chunk[k] > 0);
            assert(0 <= i[k] < c);
            assert(0 <= j[k] < c);
            assert(0 <= a[k] < grid[k]);
            assert(0 <= b[k] < grid[k]);
            assert(p[k] == q[k]);
            lemma_chunk_start_fits(dims, chunk, first, k);
            lemma_chunk_start_fits(dims, chunk, second, k);
            assert(a[k] * c + i[k] == b[k] * c + j[k]);
            lemma_fundamental_div_mod_converse(a[k] * c + i[k], c, a[k], i[k]);
            lemma_fundamental_div_mod_converse(b[k] * c + j[k], c, b[k], j[k]);
        }
        assert(a =~= b);
        lemma_ravel_unravel(grid, first);
        lemma_ravel_unravel(grid, second);
    }
}

/// The start of a chunk on an axis is the chunk's number on that axis times
/// the length of the chunk, and the chunk ends within the tensor.
pub proof fn lemma_chunk_start_fits(dims: Seq<usize>, chunk: Seq<usize>, chunk_no: int, k: int)
    requires
        chunks_evenly(dims, chunk),
        0 <= chunk_no < size(chunk_counts(dims, chunk)),
        0 <= k < dims.len(),
    ensures
        chunk_start(dims, chunk, chunk_no)[k] == unravel(chunk_counts(dims, chunk), chunk_no)[k]
            * chunk[k],
        chunk_start(dims, chunk, chunk_no)[k] + chunk[k] <= dims[k],
{
    let grid = chunk_counts(dims, chunk);
    lemma_unravel_in_bounds(grid, chunk_no);
    let i = unravel(grid, chunk_no)[k];
    let c = chunk[k] as int;
    let d = dims[k] as int;
    assert(chunk[k] > 0 && d % c == 0);
    assert(0 <= i < grid[k]);
    lemma_div_pos_is_pos(d, c);
    lemma_div_is_ordered_by_denominator(d, 1, c);
    assert(grid[k] == d / c);
    lemma_fundamental_div_mod(d, c);
    assert((i + 1) * c <= (d / c) * c) by (nonlinear_arith)
        requires
            0 <= i < d / c,
            c > 0,
    ;
    assert((d / c) * c == c * (d / c)) by (nonlinear_arith);
    assert((i + 1) * c == i * c + c) by (nonlinear_arith);
    assert(0 <= i * c) by (nonlinear_arith)
        requires
            0 <= i,
            c > 0,
    ;
}

/// An index of a chunk is placed at the cell of an index of the tensor: the
/// index shifted by the start of the chunk.
pub proof fn lemma_chunk_within(dims: Seq<usize>, chunk: Seq<usize>, chunk_no: int, i: Seq<int>)
    requires
        volume(dims) <= usize::MAX,
        chunks_evenly(dims, chunk),
        0 <= chunk_no < size(chunk_counts(dims, chunk)),
        in_bounds(i, chunk),
    ensures
        window_fits(chunk_start(dims, chunk, chunk_no), chunk, dims),
        in_bounds(shifted(chunk_start(dims, chunk, chunk_no), i), dims),
        chunk_layout(dims, chunk, chunk_no).wf(),
        chunk_layout(dims, chunk, chunk_no).at(i) == ravel(
            dims,
            shifted(chunk_start(dims, chunk, chunk_no), i),
        ),
        0 <= chunk_layout(dims, chunk, chunk_no).at(i) < size(dims),
{
    let base = chunk_start(dims, chunk, chunk_no);
    assert(window_fits(base, chunk, dims)) by {
        assert forall|k: int| 0 <= k < dims.len() implies #[trigger] base[k] + chunk[k] <= dims[k]
            && (base[k] == 0 || base[k] < dims[k]) by {
            lemma_chunk_start_fits(dims, chunk, chunk_no, k);
            assert(chunk[k] > 0);
        }
    }
    lemma_contiguous(dims);
    assert forall|k: int| 0 <= k < chunk.len() implies #[trigger] chunk[k] <= dims[k] by {
        assert(base[k] + chunk[k] <= dims[k]);
    }
    lemma_volume_monotone(chunk, dims);
    let flat = LayoutView::contiguous(dims);
    flat.lemma_window(base, chunk, i);
    flat.window(base, chunk).lemma_at_in_range(i);
}

/// The number of the chunk that holds an index of the tensor: the index
/// divided by the chunk, axis by axis, taken as an index of the chunks.
pub open spec fn chunk_of(dims: Seq<usize>, chunk: Seq<usize>, idx: Seq<int>) -> int {
    ravel(chunk_counts(dims, chunk), Seq::new(dims.len(), |k: int| idx[k] / chunk[k] as int))
}

/// The index within its chunk of an index of the tensor.
pub open spec fn index_in_chunk(chunk: Seq<usize>, idx: Seq<int>) -> Seq<int> {
    Seq::new(idx.len(), |k: int| idx[k] % chunk[k] as int)
}

/// The chunks of a tensor miss no cell: every index of the tensor is an
/// index of one of the chunks, which places it at the cell of the tensor's
/// buffer that is its own.
pub proof fn lemma_chunks_cover(dims: Seq<usize>, chunk: Seq<usize>, idx: Seq<int>)
    requires
        volume(dims) <= usize::MAX,
        chunks_evenly(dims, chunk),
        in_bounds(idx, dims),
    ensures
        0 <= chunk_of(dims, chunk, idx) < size(chunk_counts(dims, chunk)),
        in_bounds(index_in_chunk(chunk, idx), chunk),
        chunk_layout(dims, chunk, chunk_of(dims, chunk, idx)).at(index_in_chunk(chunk, idx))
            == ravel(dims, idx),
{
    let grid = chunk_counts(dims, chunk);
    let q = Seq::new(dims.len(), |k: int| idx[k] / chunk[k] as int);
    let i = index_in_chunk(chunk, idx);
    let no = chunk_of(dims, chunk, idx);
    assert(in_bounds(q, grid)) by {
        assert forall|k: int| 0 <= k < q.len() implies 0 <= #[trigger] q[k] < grid[k] by {
            let c = chunk[k] as int;
            let d = dims[k] as int;
            assert(chunk[k] > 0 && d % c == 0);
            assert(0 <= idx[k] < d);
            lemma_fundamental_div_mod(d, c);
            lemma_div_pos_is_pos(idx[k], c);
            lemma_div_pos_is_pos(d, c);
            lemma_div_is_ordered_by_denominator(d, 1, c);
            assert(c * (d / c) == (d / c) * c) by (nonlinear_arith);
            lemma_multiply_divide_lt(idx[k], c, d / c);
        }
    }
    assert(in_bounds(i, chunk)) by {
        assert forall|k: int| 0 <= k < i.len() implies 0 <= #[trigger] i[k] < chunk[k] by {
            assert(chunk[k] > 0);
            lemma_mod_bound(idx[k], chunk[k] as int);
        }
    }
    crate::index::lemma_ravel_bounds(grid, q);
    crate::index::lemma_unravel_ravel(grid, q);
    lemma_chunk_within(dims, chunk, no, i);
    let back = shifted(chunk_start(dims, chunk, no), i);
    assert(back =~= idx) by {
        assert forall|k: int| 0 <= k < idx.len() implies back[k] == idx[k] by {
            let c = chunk[k] as int;
            assert(chunk[k] > 0);
            lemma_chunk_start_fits(dims, chunk, no, k);
            lemma_fundamental_div_mod(idx[k], c);
            assert(c * (idx[k] / c) == (idx[k] / c) * c) by (nonlinear_arith);
        }
    }
}

/// The gradient of a transposition read through the transposed layout is the
/// gradient itself, cell by cell, once it has passed a second transposition:
/// the cell that the inner node reads for an index is the cell that the outer
/// node wrote from the cell of that same index.
pub proof fn lemma_transpose_twice(dims: Seq<usize>, idx: Seq<int>)
    requires
        volume(dims) <= usize::MAX,
        in_bounds(idx, dims),
    ensures
        in_bounds(reversed_index(idx), reversed(dims)),
        LayoutView::contiguous(reversed(dims)).transposed().at(idx) == ravel(
            reversed(dims),
            reversed_index(idx),
        ),
        LayoutView::contiguous(dims).transposed().at(reversed_index(idx)) == ravel(dims, idx),
        LayoutView::contiguous(dims).transposed().transposed() == LayoutView::contiguous(dims),
{
    let flat = LayoutView::contiguous(dims);
    let turned = LayoutView::contiguous(reversed(dims));
    crate::shape::lemma_volume_reversed(dims);
    lemma_contiguous(dims);
    lemma_contiguous(reversed(dims));
    flat.lemma_transposed(idx);
    lemma_reversed_twice(dims, idx);
    assert(in_bounds(reversed_index(idx), reversed(dims))) by {
        assert forall|k: int| 0 <= k < idx.len() implies 0 <= #[trigger] reversed_index(idx)[k]
            < reversed(dims)[k] by {
            assert(0 <= idx[idx.len() - 1 - k] < dims[idx.len() - 1 - k]);
        }
    }
    turned.lemma_transposed(reversed_index(idx));
    assert(flat.transposed().transposed().dims =~= flat.dims);
    assert(flat.transposed().transposed().strides =~= flat.strides);
}

/// The gradient of a node that put in an axis, read without that axis, is
/// the gradient itself, cell by cell: summing over the new axis gives back
/// what was there before.
pub proof fn lemma_unsqueeze_identity(dims: Seq<usize>, axis: int, idx: Seq<int>)
    requires
        volume(dims) <= usize::MAX,
        0 <= axis <= dims.len(),
        in_bounds(idx, dims),
    ensures
        LayoutView::contiguous(dims.insert(axis, 1)).drop_axis(axis).dims == dims,
        LayoutView::contiguous(dims.insert(axis, 1)).drop_axis(axis).at(idx) == ravel(dims, idx),
        LayoutView::contiguous(dims.insert(axis, 1)).drop_axis(axis).at(idx)
            == LayoutView::contiguous(dims).at(idx),
{
    let wide = dims.insert(axis, 1);
    lemma_volume_insert(dims, axis, 1);
    assert(volume(dims) * 1 == volume(dims));
    lemma_contiguous(wide);
    lemma_contiguous(dims);
    let flat = LayoutView::contiguous(wide);
    flat.lemma_drop_axis(axis, idx);
    assert(wide.remove(axis) =~= dims);
    let put = idx.insert(axis, 0);
    assert(in_bounds(put, wide));
    lemma_ravel_insert(dims, idx, axis);
}

/// An axis of length one adds nothing to the place of an index.
pub proof fn lemma_ravel_insert(dims: Seq<usize>, idx: Seq<int>, axis: int)
    requires
        0 <= axis <= dims.len(),
        idx.len() == dims.len(),
    ensures
        ravel(dims.insert(axis, 1), idx.insert(axis, 0)) == ravel(dims, idx),
    decreases dims.len(),
{
    let wide = dims.insert(axis, 1);
    let put = idx.insert(axis, 0);
    if axis == dims.len() {
        assert(wide.drop_last() =~= dims);
        assert(put.drop_last() =~= idx);
        assert(ravel(dims, idx) * 1 + 0 == ravel(dims, idx));
    } else {
        lemma_ravel_insert(dims.drop_last(), idx.drop_last(), axis);
        assert(wide.drop_last() =~= dims.drop_last().insert(axis, 1));
        assert(put.drop_last() =~= idx.drop_last().insert(axis, 0));
        assert(wide.last() == dims.last());
        assert(put.last() == idx.last());
    }
}

/// Two tensors of shapes `left` and `right` can be joined along the axis
/// `axis` that both have: they agree on every other axis.
pub open spec fn concatenable(left: Seq<usize>, right: Seq<usize>, axis: int) -> bool {
    &&& left.len() == right.len()
    &&& 0 <= axis < left.len()
    &&& forall|k: int| 0 <= k < left.len() && k != axis ==> #[trigger] left[k] == right[k]
    &&& left[axis] + right[axis] <= usize::MAX
    &&& volume(concatenated(left, right, axis)) <= usize::MAX
}

/// The shape of two tensors joined along an axis that both have.
pub open spec fn concatenated(left: Seq<usize>, right: Seq<usize>, axis: int) -> Seq<usize> {
    left.update(axis, (left[axis] + right[axis]) as usize)
}

/// Where the part of the right tensor starts within the joined one.
pub open spec fn right_start(left: Seq<usize>, right: Seq<usize>, axis: int) -> Seq<usize> {
    start_at(
        left.len(),
        axis,
        if right[axis] == 0 {
            0
        } else {
            left[axis]
        },
    )
}

/// What the left operand of a concatenation receives: its own part of the
/// gradient.
pub open spec fn left_part(left: Seq<usize>, right: Seq<usize>, axis: int) -> StepView {
    contribution(
        Rule::Copy,
        whole(Buffer::LeftGradient, left),
        seq![
            access(
                Buffer::Gradient,
                LayoutView::contiguous(concatenated(left, right, axis)).window(
                    start_at(left.len(), axis, 0),
                    left,
                ),
            ),
        ],
    )
}

/// What the right operand of a concatenation receives: its own part of the
/// gradient.
pub open spec fn right_part(left: Seq<usize>, right: Seq<usize>, axis: int) -> StepView {
    contribution(
        Rule::Copy,
        whole(Buffer::RightGradient, right),
        seq![
            access(
                Buffer::Gradient,
                LayoutView::contiguous(concatenated(left, right, axis)).window(
                    right_start(left, right, axis),
                    right,
                ),
            ),
        ],
    )
}

/// The parts of a concatenation: the left operand receives at each of its
/// indices the cell of the gradient at that index, and the right operand at
/// each of its indices the cell of the gradient at the index moved along the
/// axis by the length of the left operand.
pub proof fn lemma_concatenated_cells(
    left: Seq<usize>,
    right: Seq<usize>,
    axis: int,
    i: Seq<int>,
    j: Seq<int>,
)
    requires
        concatenable(left, right, axis),
        in_bounds(i, left),
        in_bounds(j, right),
    ensures
        left_part(left, right, axis).sources[0].layout.at(i) == ravel(
            concatenated(left, right, axis),
            i,
        ),
        right_part(left, right, axis).sources[0].layout.at(j) == ravel(
            concatenated(left, right, axis),
            j.update(axis, j[axis] + left[axis]),
        ),
        in_bounds(i, concatenated(left, right, axis)),
        in_bounds(j.update(axis, j[axis] + left[axis]), concatenated(left, right, axis)),
{
    let whole = concatenated(left, right, axis);
    let flat = LayoutView::contiguous(whole);
    let n = left.len();
    lemma_contiguous(whole);
    let first = start_at(n, axis, 0);
    let second = right_start(left, right, axis);
    assert(0 <= j[axis] < right[axis]);
    assert(window_fits(first, left, whole)) by {
        assert forall|k: int| 0 <= k < n implies #[trigger] first[k] + left[k] <= whole[k] && (
        first[k] == 0 || first[k] < whole[k]) by {}
    }
    assert(window_fits(second, right, whole)) by {
        assert forall|k: int| 0 <= k < n implies #[trigger] second[k] + right[k] <= whole[k] && (
        second[k] == 0 || second[k] < whole[k]) by {
            if k != axis {
                assert(left[k] == right[k]);
            }
        }
    }
    lemma_volume_monotone(left, whole);
    assert forall|k: int| 0 <= k < n implies #[trigger] right[k] <= whole[k] by {
        if k != axis {
            assert(left[k] == right[k]);
        }
    }
    lemma_volume_monotone(right, whole);
    flat.lemma_window(first, left, i);
    flat.lemma_window(second, right, j);
    assert(shifted(first, i) =~= i);
    assert(shifted(second, j) =~= j.update(axis, j[axis] + left[axis]));
}

/// The parts of a stack: an operand receives at each of its indices the cell
/// of the gradient at that index with its own number put in on the new axis.
pub proof fn lemma_stacked_cells(dims: Seq<usize>, axis: int, at: usize, i: Seq<int>)
    requires
        0 <= axis <= dims.len(),
        volume(dims.insert(axis, 2)) <= usize::MAX,
        at < 2,
        in_bounds(i, dims),
    ensures
        in_bounds(i.insert(axis, at as int), dims.insert(axis, 2)),
        LayoutView::contiguous(dims.insert(axis, 2)).index_axis(axis, at).dims == dims,
        LayoutView::contiguous(dims.insert(axis, 2)).index_axis(axis, at).at(i) == ravel(
            dims.insert(axis, 2),
            i.insert(axis, at as int),
        ),
{
    let wide = dims.insert(axis, 2);
    let flat = LayoutView::contiguous(wide);
    lemma_contiguous(wide);
    flat.lemma_index_axis(axis, at, i);
    assert(wide.remove(axis) =~= dims);
}

/// Whether two tensors of shapes `left` and `right` can be joined along
/// `axis`.
pub fn concatenates(left: &Shape, right: &Shape, axis: usize) -> (joins: bool)
    ensures
        joins == concatenable(left@, right@, axis as int),
{
    let n = left.ndim();
    if right.ndim() != n || axis >= n {
        return false;
    }
    let mut k: usize = 0;
    while k < n
        invariant
            k <= n,
            n == left@.len(),
            n == right@.len(),
            forall|j: int| 0 <= j < k && j != axis ==> #[trigger] left@[j] == right@[j],
        decreases n - k,
    {
        if k != axis && left.axis(k) != right.axis(k) {
            return false;
        }
        k += 1;
    }
    match left.axis(axis).checked_add(right.axis(axis)) {
        Some(total) => left.with_axis(axis, total).is_some(),
        None => false,
    }
}

fn joined(left: &Shape, right: &Shape, axis: usize) -> (parts: (Shape, Layout, Layout))
    requires
        concatenable(left@, right@, axis as int),
    ensures
        parts.0@ == concatenated(left@, right@, axis as int),
        parts.1@ == LayoutView::contiguous(concatenated(left@, right@, axis as int)).window(
            start_at(left@.len(), axis as int, 0),
            left@,
        ),
        parts.2@ == LayoutView::contiguous(concatenated(left@, right@, axis as int)).window(
            right_start(left@, right@, axis as int),
            right@,
        ),
        parts.1@.dims == left@,
        parts.2@.dims == right@,
{
    let n = left.ndim();
    let l = left.axis(axis);
    let r = right.axis(axis);
    let gradient = left.with_axis(axis, l + r).unwrap();
    let flat = Layout::contiguous(&gradient);
    let first = window_start(n, axis, 0);
    let second = window_start(
        n,
        axis,
        if r == 0 {
            0
        } else {
            l
        },
    );
    proof {
        assert(window_fits(first@, left@, gradient@)) by {
            assert forall|k: int| 0 <= k < n implies #[trigger] first@[k] + left@[k]
                <= gradient@[k] && (first@[k] == 0 || first@[k] < gradient@[k]) by {}
        }
        assert(window_fits(second@, right@, gradient@)) by {
            assert forall|k: int| 0 <= k < n implies #[trigger] second@[k] + right@[k]
                <= gradient@[k] && (second@[k] == 0 || second@[k] < gradient@[k]) by {
                if k != axis {
                    assert(left@[k] == right@[k]);
                }
            }
        }
    }
    let a = flat.window(&first, left);
    let b = flat.window(&second, right);
    (gradient, a, b)
}

/// Two tensors of shapes `left` and `right` can be stacked along a new axis
/// `axis`: they have one shape.
pub open spec fn stackable(left: Seq<usize>, right: Seq<usize>, axis: int) -> bool {
    &&& left == right
    &&& 0 <= axis <= left.len()
    &&& volume(left.insert(axis, 2)) <= usize::MAX
}

/// What an operand of a stack receives: the part of the gradient that has
/// `at` on the new axis.
pub open spec fn stacked_part(target: Buffer, dims: Seq<usize>, axis: int, at: usize) -> StepView {
    contribution(
        Rule::Copy,
        whole(target, dims),
        seq![
            access(
                Buffer::Gradient,
                LayoutView::contiguous(dims.insert(axis, 2)).index_axis(axis, at),
            ),
        ],
    )
}

/// Whether two tensors of shapes `left` and `right` can be stacked along
/// `axis`.
pub fn stacks(left: &Shape, right: &Shape, axis: usize) -> (stacks: bool)
    ensures
        stacks == stackable(left@, right@, axis as int),
{
    if !left.same(right) || axis > left.ndim() {
        return false;
    }
    let wide = left.insert_axis(axis);
    proof {
        assert(wide@.update(axis as int, 2) =~= left@.insert(axis as int, 2));
    }
    wide.with_axis(axis, 2).is_some()
}

fn stacked(shape: &Shape, axis: usize) -> (parts: (Shape, Layout, Layout))
    requires
        axis <= shape@.len(),
        volume(shape@.insert(axis as int, 2)) <= usize::MAX,
    ensures
        parts.0@ == shape@.insert(axis as int, 2),
        parts.1@ == LayoutView::contiguous(shape@.insert(axis as int, 2)).index_axis(
            axis as int,
            0,
        ),
        parts.2@ == LayoutView::contiguous(shape@.insert(axis as int, 2)).index_axis(
            axis as int,
            1,
        ),
        parts.1@.dims == shape@,
        parts.2@.dims == shape@,
{
    let wide = shape.insert_axis(axis);
    proof {
        assert(wide@.update(axis as int, 2) =~= shape@.insert(axis as int, 2));
    }
    let gradient = wide.with_axis(axis, 2).unwrap();
    let flat = Layout::contiguous(&gradient);
    proof {
        let none = Seq::new(shape@.len(), |k: int| 0int);
        flat@.lemma_index_axis(axis as int, 0, none);
        flat@.lemma_index_axis(axis as int, 1, none);
        assert(gradient@.remove(axis as int) =~= shape@);
    }
    let a = flat.index_axis(axis, 0);
    let b = flat.index_axis(axis, 1);
    (gradient, a, b)
}

/// The backward node of a transposition: the operand receives the transposed
/// gradient.
pub struct TransposeBackward {
    state: BackwardState,
}

impl TransposeBackward {
    /// The node for an operand whose gradient `operand` holds.
    pub fn new<T: Gradient>(operand: &T) -> (node: TransposeBackward)
        ensures
            node@ == ({
                let dims = operand.gradient_dims();
                BackwardView {
                    gradient: reversed(dims),
                    overwrite: true,
                    left: Some(
                        contribution(
                            Rule::Copy,
                            whole(Buffer::LeftGradient, dims),
                            seq![
                                access(
                                    Buffer::Gradient,
                                    LayoutView::contiguous(reversed(dims)).transposed(),
                                ),
                            ],
                        ),
                    ),
                    right: None,
                }
            }),
    {
        let shape = operand.gradient();
        let gradient = shape.transposed();
        let source = Layout::contiguous(&gradient).transposed();
        proof {
            lemma_reversed_twice(shape@, Seq::<int>::empty());
        }
        let step = contribute1(
            Rule::Copy,
            Buffer::LeftGradient,
            Layout::contiguous(shape),
            Buffer::Gradient,
            source,
        );
        TransposeBackward { state: BackwardState::new(gradient, Some(step), None) }
    }
}

impl View for TransposeBackward {
    type V = BackwardView;

    closed spec fn view(&self) -> BackwardView {
        self.state@
    }
}

impl Gradient for TransposeBackward {
    open spec fn gradient_dims(&self) -> Seq<usize> {
        self@.gradient
    }

    fn gradient(&self) -> (shape: &Shape) {
        self.state.gradient()
    }
}

impl Overwrite for TransposeBackward {
    open spec fn overwritable(&self) -> bool {
        self@.overwrite
    }

    fn can_overwrite(&self) -> (state: bool) {
        self.state.can_overwrite()
    }

    fn set_overwrite(&mut self, state: bool)
        ensures
            final(self)@ == (BackwardView { overwrite: state, ..old(self)@ }),
    {
        self.state.set_overwrite(state)
    }
}

impl Backward for TransposeBackward {
    open spec fn left(&self) -> Option<StepView> {
        self@.left
    }

    open spec fn right(&self) -> Option<StepView> {
        self@.right
    }

    fn backward(&self, operands: &mut Operands) -> (plan: Vec<Step>) {
        self.state.backward(operands)
    }
}

/// The backward node of the sum of all cells. Its gradient has one cell,
/// which every cell of the operand receives.
pub struct SumBackward {
    state: BackwardState,
}

impl SumBackward {
    /// The node for an operand whose gradient `operand` holds. The operand has an axis.
    pub fn new<T: Gradient>(operand: &T) -> (node: SumBackward)
        requires
            operand.gradient_dims().len() >= 1,
        ensures
            node@ == ({
                let dims = operand.gradient_dims();
                BackwardView {
                    gradient: seq![1usize],
                    overwrite: true,
                    left: Some(
                        contribution(
                            Rule::Copy,
                            whole(Buffer::LeftGradient, dims),
                            seq![
                                spread(Buffer::Gradient, seq![1usize], dims),
                            ],
                        ),
                    ),
                    right: None,
                }
            }),
    {
        let shape = operand.gradient();
        let gradient = Shape::vector(1);
        let step = contribute1(
            Rule::Copy,
            Buffer::LeftGradient,
            Layout::contiguous(shape),
            Buffer::Gradient,
            reduce(&gradient, shape),
        );
        SumBackward { state: BackwardState::new(gradient, Some(step), None) }
    }
}

impl View for SumBackward {
    type V = BackwardView;

    closed spec fn view(&self) -> BackwardView {
        self.state@
    }
}

impl Gradient for SumBackward {
    open spec fn gradient_dims(&self) -> Seq<usize> {
        self@.gradient
    }

    fn gradient(&self) -> (shape: &Shape) {
        self.state.gradient()
    }
}

impl Overwrite for SumBackward {
    open spec fn overwritable(&self) -> bool {
        self@.overwrite
    }

    fn can_overwrite(&self) -> (state: bool) {
        self.state.can_overwrite()
    }

    fn set_overwrite(&mut self, state: bool)
        ensures
            final(self)@ == (BackwardView { overwrite: state, ..old(self)@ }),
    {
        self.state.set_overwrite(state)
    }
}

impl Backward for SumBackward {
    open spec fn left(&self) -> Option<StepView> {
        self@.left
    }

    open spec fn right(&self) -> Option<StepView> {
        self@.right
    }

    fn backward(&self, operands: &mut Operands) -> (plan: Vec<Step>) {
        self.state.backward(operands)
    }
}

/// The backward node of the insertion of an axis of length one: the operand
/// receives the gradient without that axis.
pub struct UnsqueezeBackward {
    state: BackwardState,
}

impl UnsqueezeBackward {
    /// The node for an operand whose gradient `operand` holds and that was given
    /// an axis at `axis`.
    pub fn new<T: Gradient>(operand: &T, axis: usize) -> (node: UnsqueezeBackward)
        requires
            axis <= operand.gradient_dims().len(),
        ensures
            node@ == ({
                let dims = operand.gradient_dims();
                let wide = LayoutView::contiguous(dims.insert(axis as int, 1));
                let squeezed = wide.drop_axis(axis as int);
                BackwardView {
                    gradient: dims.insert(axis as int, 1),
                    overwrite: true,
                    left: Some(
                        contribution(
                            Rule::Copy,
                            whole(Buffer::LeftGradient, dims),
                            seq![access(Buffer::Gradient, squeezed)],
                        ),
                    ),
                    right: None,
                }
            }),
    {
        let shape = operand.gradient();
        let gradient = shape.insert_axis(axis);
        let source = Layout::contiguous(&gradient).drop_axis(axis);
        proof {
            assert(gradient@.remove(axis as int) =~= shape@);
        }
        let step = contribute1(
            Rule::Copy,
            Buffer::LeftGradient,
            Layout::contiguous(shape),
            Buffer::Gradient,
            source,
        );
        UnsqueezeBackward { state: BackwardState::new(gradient, Some(step), None) }
    }
}

impl View for UnsqueezeBackward {
    type V = BackwardView;

    closed spec fn view(&self) -> BackwardView {
        self.state@
    }
}

impl Gradient for UnsqueezeBackward {
    open spec fn gradient_dims(&self) -> Seq<usize> {
        self@.gradient
    }

    fn gradient(&self) -> (shape: &Shape) {
        self.state.gradient()
    }
}

impl Overwrite for UnsqueezeBackward {
    open spec fn overwritable(&self) -> bool {
        self@.overwrite
    }

    fn can_overwrite(&self) -> (state: bool) {
        self.state.can_overwrite()
    }

    fn set_overwrite(&mut self, state: bool)
        ensures
            final(self)@ == (BackwardView { overwrite: state, ..old(self)@ }),
    {
        self.state.set_overwrite(state)
    }
}

impl Backward for UnsqueezeBackward {
    open spec fn left(&self) -> Option<StepView> {
        self@.left
    }

    open spec fn right(&self) -> Option<StepView> {
        self@.right
    }

    fn backward(&self, operands: &mut Operands) -> (plan: Vec<Step>) {
        self.state.backward(operands)
    }
}

/// The backward node of one chunk of a tensor: the cells of the operand's
/// gradient that the chunk covers receive the gradient, and no other cell is
/// written.
pub struct ChunkBackward {
    state: BackwardState,
}

impl ChunkBackward {
    /// The node for chunk `chunk_no` of an operand whose gradient `operand` holds.
    /// The chunks have the shape `chunk` and are numbered in row-major order.
    pub fn new<T: Gradient>(operand: &T, chunk: &Shape, chunk_no: usize) -> (node: ChunkBackward)
        requires
            chunks_evenly(operand.gradient_dims(), chunk@),
            chunk_no < size(chunk_counts(operand.gradient_dims(), chunk@)),
        ensures
            node@ == ({
                let dims = operand.gradient_dims();
                BackwardView {
                    gradient: chunk@,
                    overwrite: true,
                    left: Some(
                        confined(
                            Rule::Copy,
                            access(
                                Buffer::LeftGradient,
                                chunk_layout(dims, chunk@, chunk_no as int),
                            ),
                            seq![whole(Buffer::Gradient, chunk@)],
                        ),
                    ),
                    right: None,
                }
            }),
    {
        let shape = operand.gradient();
        let step = contribute_within(
            Rule::Copy,
            Buffer::LeftGradient,
            chunk_window(shape, chunk, chunk_no),
            Buffer::Gradient,
            Layout::contiguous(chunk),
        );
        ChunkBackward { state: BackwardState::new(chunk.duplicate(), Some(step), None) }
    }
}

impl View for ChunkBackward {
    type V = BackwardView;

    closed spec fn view(&self) -> BackwardView {
        self.state@
    }
}

impl Gradient for ChunkBackward {
    open spec fn gradient_dims(&self) -> Seq<usize> {
        self@.gradient
    }

    fn gradient(&self) -> (shape: &Shape) {
        self.state.gradient()
    }
}

impl Overwrite for ChunkBackward {
    open spec fn overwritable(&self) -> bool {
        self@.overwrite
    }

    fn can_overwrite(&self) -> (state: bool) {
        self.state.can_overwrite()
    }

    fn set_overwrite(&mut self, state: bool)
        ensures
            final(self)@ == (BackwardView { overwrite: state, ..old(self)@ }),
    {
        self.state.set_overwrite(state)
    }
}

impl Backward for ChunkBackward {
    open spec fn left(&self) -> Option<StepView> {
        self@.left
    }

    open spec fn right(&self) -> Option<StepView> {
        self@.right
    }

    fn backward(&self, operands: &mut Operands) -> (plan: Vec<Step>) {
        self.state.backward(operands)
    }
}

/// The backward node of the joining of two tensors along an axis that both
/// have: each operand receives its own part of the gradient.
pub struct ConcatenateBackward {
    state: BackwardState,
    left: Shape,
    right: Shape,
}

impl ConcatenateBackward {
    /// The node for operands whose gradients `left` and `right` hold, joined along
    /// `axis`.
    pub fn new<Lhs: Gradient, Rhs: Gradient>(
        left: &Lhs,
        right: &Rhs,
        axis: usize,
    ) -> (node: ConcatenateBackward)
        requires
            concatenable(left.gradient_dims(), right.gradient_dims(), axis as int),
        ensures
            node@ == (BackwardView {
                gradient: concatenated(left.gradient_dims(), right.gradient_dims(), axis as int),
                overwrite: true,
                left: Some(left_part(left.gradient_dims(), right.gradient_dims(), axis as int)),
                right: Some(right_part(left.gradient_dims(), right.gradient_dims(), axis as int)),
            }),
            node.left_dims() == left.gradient_dims(),
            node.right_dims() == right.gradient_dims(),
    {
        let lhs = left.gradient();
        let rhs = right.gradient();
        let (gradient, a, b) = joined(lhs, rhs, axis);
        let first = contribute1(
            Rule::Copy,
            Buffer::LeftGradient,
            Layout::contiguous(lhs),
            Buffer::Gradient,
            a,
        );
        let second = contribute1(
            Rule::Copy,
            Buffer::RightGradient,
            Layout::contiguous(rhs),
            Buffer::Gradient,
            b,
        );
        ConcatenateBackward {
            state: BackwardState::new(gradient, Some(first), Some(second)),
            left: lhs.duplicate(),
            right: rhs.duplicate(),
        }
    }

    /// The shape of the left operand.
    pub closed spec fn left_dims(&self) -> Seq<usize> {
        self.left@
    }

    /// The shape of the right operand.
    pub closed spec fn right_dims(&self) -> Seq<usize> {
        self.right@
    }

    /// The shape of the left operand.
    pub fn left_operand(&self) -> (shape: &Shape)
        ensures
            shape@ == self.left_dims(),
    {
        &self.left
    }

    /// The shape of the right operand.
    pub fn right_operand(&self) -> (shape: &Shape)
        ensures
            shape@ == self.right_dims(),
    {
        &self.right
    }
}

impl View for ConcatenateBackward {
    type V = BackwardView;

    closed spec fn view(&self) -> BackwardView {
        self.state@
    }
}

impl Gradient for ConcatenateBackward {
    open spec fn gradient_dims(&self) -> Seq<usize> {
        self@.gradient
    }

    fn gradient(&self) -> (shape: &Shape) {
        self.state.gradient()
    }
}

impl Overwrite for ConcatenateBackward {
    open spec fn overwritable(&self) -> bool {
        self@.overwrite
    }

    fn can_overwrite(&self) -> (state: bool) {
        self.state.can_overwrite()
    }

    fn set_overwrite(&mut self, state: bool)
        ensures
            final(self)@ == (BackwardView { overwrite: state, ..old(self)@ }),
    {
        self.state.set_overwrite(state)
    }
}

impl Backward for ConcatenateBackward {
    open spec fn left(&self) -> Option<StepView> {
        self@.left
    }

    open spec fn right(&self) -> Option<StepView> {
        self@.right
    }

    fn backward(&self, operands: &mut Operands) -> (plan: Vec<Step>) {
        self.state.backward(operands)
    }
}

/// The backward node of such a joining of which the left operand alone takes
/// a gradient.
pub struct ConcatenateBackwardLeft {
    state: BackwardState,
    operand: Shape,
}

impl ConcatenateBackwardLeft {
    /// The node for a left operand whose gradient `left` holds and a right operand
    /// whose value `right` holds, joined along `axis`.
    pub fn new<T: Gradient, U: Data>(
        left: &T,
        right: &U,
        axis: usize,
    ) -> (node: ConcatenateBackwardLeft)
        requires
            concatenable(left.gradient_dims(), right.data_dims(), axis as int),
        ensures
            node@ == (BackwardView {
                gradient: concatenated(left.gradient_dims(), right.data_dims(), axis as int),
                overwrite: true,
                left: Some(left_part(left.gradient_dims(), right.data_dims(), axis as int)),
                right: None,
            }),
            node.operand_dims() == left.gradient_dims(),
    {
        let lhs = left.gradient();
        let rhs = right.data();
        let (gradient, a, b) = joined(lhs, rhs, axis);
        let first = contribute1(
            Rule::Copy,
            Buffer::LeftGradient,
            Layout::contiguous(lhs),
            Buffer::Gradient,
            a,
        );
        ConcatenateBackwardLeft {
            state: BackwardState::new(gradient, Some(first), None),
            operand: lhs.duplicate(),
        }
    }

    /// The shape of the operand that takes a gradient.
    pub closed spec fn operand_dims(&self) -> Seq<usize> {
        self.operand@
    }

    /// The shape of the operand that takes a gradient.
    pub fn operand(&self) -> (shape: &Shape)
        ensures
            shape@ == self.operand_dims(),
    {
        &self.operand
    }
}

impl View for ConcatenateBackwardLeft {
    type V = BackwardView;

    closed spec fn view(&self) -> BackwardView {
        self.state@
    }
}

impl Gradient for ConcatenateBackwardLeft {
    open spec fn gradient_dims(&self) -> Seq<usize> {
        self@.gradient
    }

    fn gradient(&self) -> (shape: &Shape) {
        self.state.gradient()
    }
}

impl Overwrite for ConcatenateBackwardLeft {
    open spec fn overwritable(&self) -> bool {
        self@.overwrite
    }

    fn can_overwrite(&self) -> (state: bool) {
        self.state.can_overwrite()
    }

    fn set_overwrite(&mut self, state: bool)
        ensures
            final(self)@ == (BackwardView { overwrite: state, ..old(self)@ }),
    {
        self.state.set_overwrite(state)
    }
}

impl Backward for ConcatenateBackwardLeft {
    open spec fn left(&self) -> Option<StepView> {
        self@.left
    }

    open spec fn right(&self) -> Option<StepView> {
        self@.right
    }

    fn backward(&self, operands: &mut Operands) -> (plan: Vec<Step>) {
        self.state.backward(operands)
    }
}

/// The backward node of such a joining of which the right operand alone
/// takes a gradient.
pub struct ConcatenateBackwardRight {
    state: BackwardState,
    operand: Shape,
}

impl ConcatenateBackwardRight {
    /// The node for a left operand whose value `left` holds and a right operand
    /// whose gradient `right` holds, joined along `axis`.
    pub fn new<U: Data, T: Gradient>(
        left: &U,
        right: &T,
        axis: usize,
    ) -> (node: ConcatenateBackwardRight)
        requires
            concatenable(left.data_dims(), right.gradient_dims(), axis as int),
        ensures
            node@ == (BackwardView {
                gradient: concatenated(left.data_dims(), right.gradient_dims(), axis as int),
                overwrite: true,
                left: None,
                right: Some(right_part(left.data_dims(), right.gradient_dims(), axis as int)),
            }),
            node.operand_dims() == right.gradient_dims(),
    {
        let lhs = left.data();
        let rhs = right.gradient();
        let (gradient, a, b) = joined(lhs, rhs, axis);
        let second = contribute1(
            Rule::Copy,
            Buffer::RightGradient,
            Layout::contiguous(rhs),
            Buffer::Gradient,
            b,
        );
        ConcatenateBackwardRight {
            state: BackwardState::new(gradient, None, Some(second)),
            operand: rhs.duplicate(),
        }
    }

    /// The shape of the operand that takes a gradient.
    pub closed spec fn operand_dims(&self) -> Seq<usize> {
        self.operand@
    }

    /// The shape of the operand that takes a gradient.
    pub fn operand(&self) -> (shape: &Shape)
        ensures
            shape@ == self.operand_dims(),
    {
        &self.operand
    }
}

impl View for ConcatenateBackwardRight {
    type V = BackwardView;

    closed spec fn view(&self) -> BackwardView {
        self.state@
    }
}

impl Gradient for ConcatenateBackwardRight {
    open spec fn gradient_dims(&self) -> Seq<usize> {
        self@.gradient
    }

    fn gradient(&self) -> (shape: &Shape) {
        self.state.gradient()
    }
}

impl Overwrite for ConcatenateBackwardRight {
    open spec fn overwritable(&self) -> bool {
        self@.overwrite
    }

    fn can_overwrite(&self) -> (state: bool) {
        self.state.can_overwrite()
    }

    fn set_overwrite(&mut self, state: bool)
        ensures
            final(self)@ == (BackwardView { overwrite: state, ..old(self)@ }),
    {
        self.state.set_overwrite(state)
    }
}

impl Backward for ConcatenateBackwardRight {
    open spec fn left(&self) -> Option<StepView> {
        self@.left
    }

    open spec fn right(&self) -> Option<StepView> {
        self@.right
    }

    fn backward(&self, operands: &mut Operands) -> (plan: Vec<Step>) {
        self.state.backward(operands)
    }
}

/// The backward node of the stacking of two tensors of one shape along a new
/// axis: the left operand receives the part of the gradient that has zero on
/// that axis, the right operand the part that has one.
pub struct StackBackward {
    state: BackwardState,
    left: Shape,
    right: Shape,
}

impl StackBackward {
    /// The node for operands whose gradients `left` and `right` hold, joined along
    /// `axis`.
    pub fn new<Lhs: Gradient, Rhs: Gradient>(
        left: &Lhs,
        right: &Rhs,
        axis: usize,
    ) -> (node: StackBackward)
        requires
            stackable(left.gradient_dims(), right.gradient_dims(), axis as int),
        ensures
            node@ == (BackwardView {
                gradient: left.gradient_dims().insert(axis as int, 2),
                overwrite: true,
                left: Some(
                    stacked_part(Buffer::LeftGradient, left.gradient_dims(), axis as int, 0),
                ),
                right: Some(
                    stacked_part(
                        Buffer::RightGradient,
                        right.gradient_dims(),
                        axis as int,
                        1,
                    ),
                ),
            }),
            node.left_dims() == left.gradient_dims(),
            node.right_dims() == right.gradient_dims(),
    {
        let lhs = left.gradient();
        let rhs = right.gradient();
        let (gradient, a, b) = stacked(lhs, axis);
        let first = contribute1(
            Rule::Copy,
            Buffer::LeftGradient,
            Layout::contiguous(lhs),
            Buffer::Gradient,
            a,
        );
        let second = contribute1(
            Rule::Copy,
            Buffer::RightGradient,
            Layout::contiguous(rhs),
            Buffer::Gradient,
            b,
        );
        StackBackward {
            state: BackwardState::new(gradient, Some(first), Some(second)),
            left: lhs.duplicate(),
            right: rhs.duplicate(),
        }
    }

    /// The shape of the left operand.
    pub closed spec fn left_dims(&self) -> Seq<usize> {
        self.left@
    }

    /// The shape of the right operand.
    pub closed spec fn right_dims(&self) -> Seq<usize> {
        self.right@
    }

    /// The shape of the left operand.
    pub fn left_operand(&self) -> (shape: &Shape)
        ensures
            shape@ == self.left_dims(),
    {
        &self.left
    }

    /// The shape of the right operand.
    pub fn right_operand(&self) -> (shape: &Shape)
        ensures
            shape@ == self.right_dims(),
    {
        &self.right
    }
}

impl View for StackBackward {
    type V = BackwardView;

    closed spec fn view(&self) -> BackwardView {
        self.state@
    }
}

impl Gradient for StackBackward {
    open spec fn gradient_dims(&self) -> Seq<usize> {
        self@.gradient
    }

    fn gradient(&self) -> (shape: &Shape) {
        self.state.gradient()
    }
}

impl Overwrite for StackBackward {
    open spec fn overwritable(&self) -> bool {
        self@.overwrite
    }

    fn can_overwrite(&self) -> (state: bool) {
        self.state.can_overwrite()
    }

    fn set_overwrite(&mut self, state: bool)
        ensures
            final(self)@ == (BackwardView { overwrite: state, ..old(self)@ }),
    {
        self.state.set_overwrite(state)
    }
}

impl Backward for StackBackward {
    open spec fn left(&self) -> Option<StepView> {
        self@.left
    }

    open spec fn right(&self) -> Option<StepView> {
        self@.right
    }

    fn backward(&self, operands: &mut Operands) -> (plan: Vec<Step>) {
        self.state.backward(operands)
    }
}

/// The backward node of such a stacking of which the left operand alone takes
/// a gradient.
pub struct StackBackwardLeft {
    state: BackwardState,
    operand: Shape,
}

impl StackBackwardLeft {
    /// The node for a left operand whose gradient `left` holds and a right operand
    /// whose value `right` holds, joined along `axis`.
    pub fn new<T: Gradient, U: Data>(left: &T, right: &U, axis: usize) -> (node: StackBackwardLeft)
        requires
            stackable(left.gradient_dims(), right.data_dims(), axis as int),
        ensures
            node@ == (BackwardView {
                gradient: left.gradient_dims().insert(axis as int, 2),
                overwrite: true,
                left: Some(
                    stacked_part(Buffer::LeftGradient, left.gradient_dims(), axis as int, 0),
                ),
                right: None,
            }),
            node.operand_dims() == left.gradient_dims(),
    {
        let lhs = left.gradient();
        let rhs = right.data();
        let (gradient, a, b) = stacked(lhs, axis);
        let first = contribute1(
            Rule::Copy,
            Buffer::LeftGradient,
            Layout::contiguous(lhs),
            Buffer::Gradient,
            a,
        );
        StackBackwardLeft {
            state: BackwardState::new(gradient, Some(first), None),
            operand: lhs.duplicate(),
        }
    }

    /// The shape of the operand that takes a gradient.
    pub closed spec fn operand_dims(&self) -> Seq<usize> {
        self.operand@
    }

    /// The shape of the operand that takes a gradient.
    pub fn operand(&self) -> (shape: &Shape)
        ensures
            shape@ == self.operand_dims(),
    {
        &self.operand
    }
}

impl View for StackBackwardLeft {
    type V = BackwardView;

    closed spec fn view(&self) -> BackwardView {
        self.state@
    }
}

impl Gradient for StackBackwardLeft {
    open spec fn gradient_dims(&self) -> Seq<usize> {
        self@.gradient
    }

    fn gradient(&self) -> (shape: &Shape) {
        self.state.gradient()
    }
}

impl Overwrite for StackBackwardLeft {
    open spec fn overwritable(&self) -> bool {
        self@.overwrite
    }

    fn can_overwrite(&self) -> (state: bool) {
        self.state.can_overwrite()
    }

    fn set_overwrite(&mut self, state: bool)
        ensures
            final(self)@ == (BackwardView { overwrite: state, ..old(self)@ }),
    {
        self.state.set_overwrite(state)
    }
}

impl Backward for StackBackwardLeft {
    open spec fn left(&self) -> Option<StepView> {
        self@.left
    }

    open spec fn right(&self) -> Option<StepView> {
        self@.right
    }

    fn backward(&self, operands: &mut Operands) -> (plan: Vec<Step>) {
        self.state.backward(operands)
    }
}

/// The backward node of such a stacking of which the right operand alone
/// takes a gradient.
pub struct StackBackwardRight {
    state: BackwardState,
    operand: Shape,
}

impl StackBackwardRight {
    /// The node for a left operand whose value `left` holds and a right operand
    /// whose gradient `right` holds, joined along `axis`.
    pub fn new<U: Data, T: Gradient>(left: &U, right: &T, axis: usize) -> (node: StackBackwardRight)
        requires
            stackable(left.data_dims(), right.gradient_dims(), axis as int),
        ensures
            node@ == (BackwardView {
                gradient: left.data_dims().insert(axis as int, 2),
                overwrite: true,
                left: None,
                right: Some(
                    stacked_part(
                        Buffer::RightGradient,
                        right.gradient_dims(),
                        axis as int,
                        1,
                    ),
                ),
            }),
            node.operand_dims() == right.gradient_dims(),
    {
        let lhs = left.data();
        let rhs = right.gradient();
        let (gradient, a, b) = stacked(lhs, axis);
        let second = contribute1(
            Rule::Copy,
            Buffer::RightGradient,
            Layout::contiguous(rhs),
            Buffer::Gradient,
            b,
        );
        StackBackwardRight {
            state: BackwardState::new(gradient, None, Some(second)),
            operand: rhs.duplicate(),
        }
    }

    /// The shape of the operand that takes a gradient.
    pub closed spec fn operand_dims(&self) -> Seq<usize> {
        self.operand@
    }

    /// The shape of the operand that takes a gradient.
    pub fn operand(&self) -> (shape: &Shape)
        ensures
            shape@ == self.operand_dims(),
    {
        &self.operand
    }
}

impl View for StackBackwardRight {
    type V = BackwardView;

    closed spec fn view(&self) -> BackwardView {
        self.state@
    }
}

impl Gradient for StackBackwardRight {
    open spec fn gradient_dims(&self) -> Seq<usize> {
        self@.gradient
    }

    fn gradient(&self) -> (shape: &Shape) {
        self.state.gradient()
    }
}

impl Overwrite for StackBackwardRight {
    open spec fn overwritable(&self) -> bool {
        self@.overwrite
    }

    fn can_overwrite(&self) -> (state: bool) {
        self.state.can_overwrite()
    }

    fn set_overwrite(&mut self, state: bool)
        ensures
            final(self)@ == (BackwardView { overwrite: state, ..old(self)@ }),
    {
        self.state.set_overwrite(state)
    }
}

impl Backward for StackBackwardRight {
    open spec fn left(&self) -> Option<StepView> {
        self@.left
    }

    open spec fn right(&self) -> Option<StepView> {
        self@.right
    }

    fn backward(&self, operands: &mut Operands) -> (plan: Vec<Step>) {
        self.state.backward(operands)
    }
}

} // verus!
