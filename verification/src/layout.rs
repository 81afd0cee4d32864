//! Strided layouts: how the indices of a shape are placed in a buffer.
//!
//! A layout gives each index of its shape a place in a buffer: an offset plus,
//! for each axis, the index component times the stride of the axis. A tensor
//! stored row-major has the contiguous layout of its shape. Transposing,
//! broadcasting, cutting a window and taking or adding an axis change the
//! layout and leave the buffer alone.

use crate::index::{
    dot, in_bounds, lemma_dot_bounds, lemma_dot_remove, lemma_dot_sum, lemma_scaled,
    lemma_size_concat, lemma_size_positive, lemma_span_remove, lemma_unravel_in_bounds,
    lemma_volume_subrange, ravel, size, span, unravel, volume,
};
use crate::shape::{
    copy_of, lemma_volume_insert, lemma_volume_remove, lemma_volume_reversed, reversed,
    reversed_index, Shape,
};
use vstd::arithmetic::div_mod::*;
use vstd::prelude::*;

verus! {

/// What a layout is, as plain values.
pub ghost struct LayoutView {
    /// The number of cells of the buffer.
    pub len: nat,
    /// The place of the index whose components are all zero.
    pub offset: nat,
    /// The shape whose indices are placed.
    pub dims: Seq<usize>,
    /// For each axis, the distance between the places of two indices that
    /// differ by one on that axis.
    pub strides: Seq<usize>,
}

/// The strides of the contiguous layout: the stride of an axis is the
/// product of the lengths of the axes behind it.
pub open spec fn row_major(dims: Seq<usize>) -> Seq<usize> {
    Seq::new(dims.len(), |k: int| size(dims.subrange(k + 1, dims.len() as int)) as usize)
}

/// The strides of a layout of shape `dims` with strides `strides`, broadcast
/// to the shape `to`: zero on the axes that `to` has in front, zero on an
/// axis whose length changes, and the stride as it was elsewhere.
pub open spec fn broadcast_strides(dims: Seq<usize>, strides: Seq<usize>, to: Seq<usize>) -> Seq<
    usize,
> {
    Seq::new(
        to.len(),
        |j: int|
            {
                let k = j - (to.len() - dims.len());
                if k >= 0 && to[j] == dims[k] {
                    strides[k]
                } else {
                    0
                }
            },
    )
}

/// A layout of shape `dims` can be broadcast to the shape `to`: `to` has at
/// least as many axes, and, aligned at the last axis, an axis of `dims` has
/// the length of its partner in `to` or the length one.
pub open spec fn broadcasts_to(dims: Seq<usize>, to: Seq<usize>) -> bool {
    &&& dims.len() <= to.len()
    &&& forall|k: int|
        0 <= k < dims.len() ==> #[trigger] dims[k] == to[k + (to.len() - dims.len())] || dims[k]
            == 1
}

/// The index of `dims` that an index of a broadcast shape reads: the
/// components of the last axes, with zero on the axes of length one.
pub open spec fn project(dims: Seq<usize>, idx: Seq<int>) -> Seq<int> {
    Seq::new(
        dims.len(),
        |k: int|
            if dims[k] == 1 {
                0
            } else {
                idx[k + (idx.len() - dims.len())]
            },
    )
}

/// The sum of two indices, component by component.
pub open spec fn shifted(base: Seq<usize>, idx: Seq<int>) -> Seq<int> {
    Seq::new(idx.len(), |k: int| base[k] + idx[k])
}

/// A window of shape `dims` that starts at `base` lies within the shape
/// `within`.
pub open spec fn window_fits(base: Seq<usize>, dims: Seq<usize>, within: Seq<usize>) -> bool {
    &&& base.len() == within.len()
    &&& dims.len() == within.len()
    &&& forall|k: int|
        0 <= k < within.len() ==> #[trigger] base[k] + dims[k] <= within[k] && (base[k] == 0
            || base[k] < within[k])
}

impl LayoutView {
    /// The strides match the shape, and every index of the shape has its
    /// place in the buffer.
    pub open spec fn wf(self) -> bool {
        &&& self.strides.len() == self.dims.len()
        &&& volume(self.dims) <= usize::MAX
        &&& self.offset + span(self.dims, self.strides) <= usize::MAX
        &&& size(self.dims) > 0 ==> self.offset + span(self.dims, self.strides) < self.len
    }

    /// The place of the index `idx`.
    pub open spec fn at(self, idx: Seq<int>) -> int {
        self.offset + dot(idx, self.strides)
    }

    /// The layout of a tensor of shape `dims` stored row-major.
    pub open spec fn contiguous(dims: Seq<usize>) -> LayoutView {
        LayoutView { len: size(dims), offset: 0, dims, strides: row_major(dims) }
    }

    /// The layout with the axes in reverse order.
    pub open spec fn transposed(self) -> LayoutView {
        LayoutView { dims: reversed(self.dims), strides: reversed(self.strides), ..self }
    }

    /// The layout broadcast to the shape `to`.
    pub open spec fn broadcast(self, to: Seq<usize>) -> LayoutView {
        LayoutView { dims: to, strides: broadcast_strides(self.dims, self.strides, to), ..self }
    }

    /// The layout of the window of shape `dims` that starts at `base`.
    pub open spec fn window(self, base: Seq<usize>, dims: Seq<usize>) -> LayoutView {
        LayoutView {
            offset: (self.offset + dot(base.map_values(|b: usize| b as int), self.strides)) as nat,
            dims,
            ..self
        }
    }

    /// The layout without the axis `axis`; its indices are placed as those
    /// with zero on that axis were.
    pub open spec fn drop_axis(self, axis: int) -> LayoutView {
        LayoutView { dims: self.dims.remove(axis), strides: self.strides.remove(axis), ..self }
    }

    /// The layout with an axis of length one put in at `axis`.
    pub open spec fn insert_axis(self, axis: int) -> LayoutView {
        LayoutView {
            dims: self.dims.insert(axis, 1),
            strides: self.strides.insert(axis, 0),
            ..self
        }
    }
}

/// The contiguous layout of a shape is well formed and places each index at
/// its row-major place.
pub proof fn lemma_contiguous(dims: Seq<usize>)
    requires
        volume(dims) <= usize::MAX,
    ensures
        LayoutView::contiguous(dims).wf(),
        span(dims, row_major(dims)) + 1 <= volume(dims),
        forall|idx: Seq<int>|
            in_bounds(idx, dims) ==> #[trigger] LayoutView::contiguous(dims).at(idx) == ravel(
                dims,
                idx,
            ),
    decreases dims.len(),
{
    let strides = row_major(dims);
    lemma_size_positive(dims);
    if dims.len() > 0 {
        let n = dims.len() as int;
        let rest = dims.drop_last();
        let d = dims.last() as int;
        lemma_volume_subrange(dims, 0, n - 1);
        assert(dims.subrange(0, n - 1) =~= rest);
        lemma_contiguous(rest);
        let inner = row_major(rest);
        assert forall|k: int| 0 <= k < n - 1 implies #[trigger] strides.drop_last()[k] == inner[k]
            * d by {
            let tail = dims.subrange(k + 1, n);
            assert(tail.drop_last() =~= rest.subrange(k + 1, n - 1));
            assert(tail.last() == dims.last());
            lemma_volume_subrange(dims, k + 1, n);
            lemma_volume_subrange(rest, k + 1, n - 1);
        }
        assert(dims.subrange(n, n) =~= Seq::<usize>::empty());
        assert(strides.last() == 1);
        lemma_scaled(Seq::new(rest.len(), |k: int| 0int), rest, inner, strides.drop_last(), d);
        let q = span(rest, inner) as int;
        let v = volume(rest) as int;
        if d != 0 {
            assert(q * d + (d - 1) + 1 <= v * d) by (nonlinear_arith)
                requires
                    q + 1 <= v,
                    d >= 1,
            ;
        } else {
            assert(q * d == 0) by (nonlinear_arith)
                requires
                    d == 0,
            ;
        }
        assert forall|idx: Seq<int>| in_bounds(idx, dims) implies #[trigger] LayoutView::contiguous(
            dims,
        ).at(idx) == ravel(dims, idx) by {
            let head = idx.drop_last();
            assert(in_bounds(head, rest)) by {
                assert forall|k: int| 0 <= k < head.len() implies 0 <= #[trigger] head[k]
                    < rest[k] by {
                    assert(head[k] == idx[k]);
                }
            }
            lemma_scaled(head, rest, inner, strides.drop_last(), d);
            assert(LayoutView::contiguous(rest).at(head) == ravel(rest, head));
        }
    }
}

/// Reversing the axes of index and strides leaves `dot` and `span` as they
/// were.
pub proof fn lemma_reversed(idx: Seq<int>, dims: Seq<usize>, strides: Seq<usize>)
    requires
        idx.len() == strides.len(),
        dims.len() == strides.len(),
    ensures
        dot(reversed_index(idx), reversed(strides)) == dot(idx, strides),
        span(reversed(dims), reversed(strides)) == span(dims, strides),
    decreases strides.len(),
{
    if strides.len() > 0 {
        let ri = reversed_index(idx);
        let rd = reversed(dims);
        let rs = reversed(strides);
        lemma_reversed(idx.drop_last(), dims.drop_last(), strides.drop_last());
        lemma_dot_remove(ri, rs, 0);
        lemma_span_remove(rd, rs, 0);
        assert(ri.remove(0) =~= reversed_index(idx.drop_last()));
        assert(rd.remove(0) =~= reversed(dims.drop_last()));
        assert(rs.remove(0) =~= reversed(strides.drop_last()));
    }
}

/// A shape that broadcasts to another still does when both lose their last
/// axis.
pub proof fn lemma_broadcasts_to_prefix(dims: Seq<usize>, to: Seq<usize>)
    requires
        broadcasts_to(dims, to),
        dims.len() > 0,
    ensures
        broadcasts_to(dims.drop_last(), to.drop_last()),
{
    let short = dims.drop_last();
    let target = to.drop_last();
    assert forall|k: int| 0 <= k < short.len() implies #[trigger] short[k] == target[k + (
    target.len() - short.len())] || short[k] == 1 by {
        assert(dims[k] == to[k + (to.len() - dims.len())] || dims[k] == 1);
    }
}

/// An index of a broadcast shape projects to an index of the shape that was
/// broadcast, and the broadcast layout places it where the layout placed
/// that one.
pub proof fn lemma_broadcast(dims: Seq<usize>, strides: Seq<usize>, to: Seq<usize>, idx: Seq<int>)
    requires
        dims.len() == strides.len(),
        broadcasts_to(dims, to),
        in_bounds(idx, to),
    ensures
        in_bounds(project(dims, idx), dims),
        dot(idx, broadcast_strides(dims, strides, to)) == dot(project(dims, idx), strides),
    decreases to.len(),
{
    let wide = broadcast_strides(dims, strides, to);
    let low = project(dims, idx);
    let shift = to.len() - dims.len();
    assert forall|k: int| 0 <= k < low.len() implies 0 <= #[trigger] low[k] < dims[k] by {
        assert(dims[k] == to[k + shift] || dims[k] == 1);
        assert(0 <= idx[k + shift] < to[k + shift]);
    }
    if to.len() > 0 {
        let last = to.len() - 1;
        assert(0 <= idx[last] < to[last]);
        if dims.len() > 0 {
            let d = dims.len() - 1;
            assert(dims[d] == to[d + shift] || dims[d] == 1);
            lemma_broadcasts_to_prefix(dims, to);
            lemma_broadcast(dims.drop_last(), strides.drop_last(), to.drop_last(), idx.drop_last());
            assert(wide.drop_last() =~= broadcast_strides(
                dims.drop_last(),
                strides.drop_last(),
                to.drop_last(),
            ));
            assert(low.drop_last() =~= project(dims.drop_last(), idx.drop_last()));
            assert(idx.last() == idx[last]);
            assert(wide.last() == wide[last]);
            assert(low.last() == low[d]);
            assert(strides.last() == strides[d]);
            assert(idx.last() * wide.last() == low.last() * strides.last()) by {
                if to[last] == dims[d] {
                    assert(wide[last] == strides[d]);
                    if dims[d] == 1 {
                        assert(idx[last] == 0);
                        assert(low[d] == 0);
                    } else {
                        assert(low[d] == idx[d + (idx.len() - dims.len())]);
                    }
                } else {
                    assert(wide[last] == 0);
                    assert(low[d] == 0);
                    assert(idx.last() * 0 == 0);
                    assert(0 * strides.last() == 0);
                }
            }
            assert(dot(idx, wide) == dot(idx.drop_last(), wide.drop_last()) + idx.last()
                * wide.last());
            assert(dot(low, strides) == dot(low.drop_last(), strides.drop_last()) + low.last()
                * strides.last());
        } else {
            assert(broadcasts_to(dims, to.drop_last()));
            lemma_broadcast(dims, strides, to.drop_last(), idx.drop_last());
            assert(wide.drop_last() =~= broadcast_strides(dims, strides, to.drop_last()));
            assert(low =~= project(dims, idx.drop_last()));
            assert(wide.last() == wide[last]);
            assert(wide[last] == 0);
            assert(idx.last() * 0 == 0);
            assert(dot(idx, wide) == dot(idx.drop_last(), wide.drop_last()) + idx.last()
                * wide.last());
        }
    } else {
        assert(dims.len() == 0);
        assert(dot(idx, wide) == 0);
        assert(dot(low, strides) == 0);
    }
}

/// Broadcasting leaves `span` as it was.
pub proof fn lemma_broadcast_span(dims: Seq<usize>, strides: Seq<usize>, to: Seq<usize>)
    requires
        dims.len() == strides.len(),
        broadcasts_to(dims, to),
    ensures
        span(to, broadcast_strides(dims, strides, to)) == span(dims, strides),
    decreases to.len(),
{
    let wide = broadcast_strides(dims, strides, to);
    let shift = to.len() - dims.len();
    if to.len() > 0 {
        let last = to.len() - 1;
        if dims.len() > 0 {
            let d = dims.len() - 1;
            assert(dims[d] == to[d + shift] || dims[d] == 1);
            lemma_broadcasts_to_prefix(dims, to);
            lemma_broadcast_span(dims.drop_last(), strides.drop_last(), to.drop_last());
            assert(wide.drop_last() =~= broadcast_strides(
                dims.drop_last(),
                strides.drop_last(),
                to.drop_last(),
            ));
            let rest = span(dims.drop_last(), strides.drop_last());
            assert(span(to.drop_last(), wide.drop_last()) == rest);
            assert(to.last() == to[last]);
            assert(dims.last() == dims[d]);
            assert(strides.last() == strides[d]);
            assert(wide.last() == wide[last]);
            if to[last] == dims[d] {
                assert(wide[last] == strides[d]);
                assert(span(to, wide) == span(dims, strides));
            } else {
                assert(dims[d] == 1);
                assert(wide[last] == 0);
                assert((to[last] - 1) * 0 == 0);
                assert((dims[d] - 1) * strides[d] == 0) by (nonlinear_arith)
                    requires
                        dims[d] == 1,
                ;
                assert(span(to, wide) == rest);
                assert(span(dims, strides) == rest);
            }
        } else {
            assert(broadcasts_to(dims, to.drop_last()));
            lemma_broadcast_span(dims, strides, to.drop_last());
            assert(wide.drop_last() =~= broadcast_strides(dims, strides, to.drop_last()));
            assert(wide.last() == wide[last]);
            assert(wide[last] == 0);
            assert((to[last] - 1) * 0 == 0);
            assert(span(dims, strides) == 0);
            assert(span(to.drop_last(), wide.drop_last()) == 0);
            assert(span(to, wide) == 0);
        }
    } else {
        assert(dims.len() == 0);
        assert(span(to, wide) == 0);
        assert(span(dims, strides) == 0);
    }
}

/// The start of a window and the reach of the window stay within the reach
/// of the shape that the window lies in.
pub proof fn lemma_window_span(
    base: Seq<usize>,
    dims: Seq<usize>,
    within: Seq<usize>,
    strides: Seq<usize>,
)
    requires
        window_fits(base, dims, within),
        strides.len() == within.len(),
    ensures
        0 <= dot(base.map_values(|b: usize| b as int), strides),
        dot(base.map_values(|b: usize| b as int), strides) + span(dims, strides) <= span(
            within,
            strides,
        ),
    decreases within.len(),
{
    let start = base.map_values(|b: usize| b as int);
    if within.len() > 0 {
        let n = within.len() - 1;
        let (b, d, w) = (base.drop_last(), dims.drop_last(), within.drop_last());
        assert(window_fits(b, d, w)) by {
            assert forall|k: int| 0 <= k < w.len() implies #[trigger] b[k] + d[k] <= w[k] && (b[k]
                == 0 || b[k] < w[k]) by {
                assert(base[k] + dims[k] <= within[k]);
            }
        }
        lemma_window_span(
            base.drop_last(),
            dims.drop_last(),
            within.drop_last(),
            strides.drop_last(),
        );
        assert(start.drop_last() =~= base.drop_last().map_values(|b: usize| b as int));
        assert(base[n] + dims[n] <= within[n]);
        let b = base.last() as int;
        let d = dims.last() as int;
        let w = within.last() as int;
        let s = strides.last() as int;
        assert(start.last() == b);
        assert(0 <= b * s) by (nonlinear_arith)
            requires
                b >= 0,
                s >= 0,
        ;
        if w == 0 {
            assert(b == 0);
            assert(b * s == 0) by (nonlinear_arith)
                requires
                    b == 0,
            ;
        } else if d == 0 {
            assert(b * s <= (w - 1) * s) by (nonlinear_arith)
                requires
                    0 <= b <= w - 1,
                    s >= 0,
            ;
        } else {
            assert(b * s + (d - 1) * s <= (w - 1) * s) by (nonlinear_arith)
                requires
                    0 <= b,
                    b + d <= w,
                    s >= 0,
            ;
            assert((d - 1) * s >= 0) by (nonlinear_arith)
                requires
                    d >= 1,
                    s >= 0,
            ;
        }
        assert((w - 1) * s >= 0 || w == 0) by (nonlinear_arith)
            requires
                w >= 0,
                s >= 0,
        ;
    }
}

impl LayoutView {
    /// Every index of the shape is placed within the buffer.
    pub proof fn lemma_at_in_range(self, idx: Seq<int>)
        requires
            self.wf(),
            in_bounds(idx, self.dims),
        ensures
            0 <= self.at(idx) < self.len,
            self.at(idx) <= usize::MAX,
    {
        lemma_dot_bounds(idx, self.dims, self.strides);
        lemma_size_positive(self.dims);
        assert(size(self.dims) > 0) by {
            assert forall|k: int| 0 <= k < self.dims.len() implies #[trigger] self.dims[k] > 0 by {
                assert(0 <= idx[k] < self.dims[k]);
            }
        }
    }

    /// The transposed layout is well formed and places the reversed index
    /// where the layout placed the index.
    pub proof fn lemma_transposed(self, idx: Seq<int>)
        requires
            self.wf(),
            idx.len() == self.dims.len(),
        ensures
            self.transposed().wf(),
            self.transposed().at(reversed_index(idx)) == self.at(idx),
            in_bounds(idx, self.dims) ==> in_bounds(reversed_index(idx), reversed(self.dims)),
    {
        lemma_reversed(idx, self.dims, self.strides);
        lemma_volume_reversed(self.dims);
        lemma_size_positive(self.dims);
        lemma_size_positive(reversed(self.dims));
        if size(reversed(self.dims)) > 0 {
            assert forall|k: int| 0 <= k < self.dims.len() implies #[trigger] self.dims[k] > 0 by {
                assert(reversed(self.dims)[self.dims.len() - 1 - k] > 0);
            }
        }
    }

    /// The broadcast layout is well formed and places each index of the
    /// wider shape where the layout placed the index that it projects to.
    pub proof fn lemma_broadcast(self, to: Seq<usize>, idx: Seq<int>)
        requires
            self.wf(),
            broadcasts_to(self.dims, to),
            volume(to) <= usize::MAX,
            in_bounds(idx, to),
        ensures
            self.broadcast(to).wf(),
            in_bounds(project(self.dims, idx), self.dims),
            self.broadcast(to).at(idx) == self.at(project(self.dims, idx)),
    {
        self.lemma_broadcast_wf(to);
        lemma_broadcast(self.dims, self.strides, to, idx);
    }

    /// The broadcast layout is well formed.
    pub proof fn lemma_broadcast_wf(self, to: Seq<usize>)
        requires
            self.wf(),
            broadcasts_to(self.dims, to),
            volume(to) <= usize::MAX,
        ensures
            self.broadcast(to).wf(),
    {
        lemma_broadcast_span(self.dims, self.strides, to);
        lemma_size_positive(self.dims);
        lemma_size_positive(to);
        if size(to) > 0 {
            assert forall|k: int| 0 <= k < self.dims.len() implies #[trigger] self.dims[k] > 0 by {
                assert(to[k + (to.len() - self.dims.len())] > 0);
            }
        }
    }

    /// The layout of a window is well formed and places each index of the
    /// window where the layout placed the index shifted by the start.
    pub proof fn lemma_window(self, base: Seq<usize>, dims: Seq<usize>, idx: Seq<int>)
        requires
            self.wf(),
            window_fits(base, dims, self.dims),
            volume(dims) <= usize::MAX,
            idx.len() == dims.len(),
        ensures
            self.window(base, dims).wf(),
            self.window(base, dims).at(idx) == self.at(shifted(base, idx)),
            in_bounds(idx, dims) ==> in_bounds(shifted(base, idx), self.dims),
    {
        let start = base.map_values(|b: usize| b as int);
        lemma_window_span(base, dims, self.dims, self.strides);
        lemma_dot_sum(start, idx, self.strides);
        assert(shifted(base, idx) =~= Seq::new(start.len(), |k: int| start[k] + idx[k]));
        lemma_size_positive(self.dims);
        lemma_size_positive(dims);
        if size(dims) > 0 {
            assert forall|k: int| 0 <= k < self.dims.len() implies #[trigger] self.dims[k] > 0 by {
                assert(base[k] + dims[k] <= self.dims[k]);
                assert(dims[k] > 0);
            }
        }
        if in_bounds(idx, dims) {
            assert forall|k: int| 0 <= k < idx.len() implies 0 <= #[trigger] shifted(base, idx)[k]
                < self.dims[k] by {
                assert(base[k] + dims[k] <= self.dims[k]);
                assert(0 <= idx[k] < dims[k]);
            }
        }
    }

    /// The layout without an axis of length one is well formed and places
    /// each index where the layout placed the index with zero put in.
    pub proof fn lemma_drop_axis(self, axis: int, idx: Seq<int>)
        requires
            self.wf(),
            0 <= axis < self.dims.len(),
            self.dims[axis] == 1,
            idx.len() + 1 == self.dims.len(),
        ensures
            self.drop_axis(axis).wf(),
            self.drop_axis(axis).at(idx) == self.at(idx.insert(axis, 0)),
            in_bounds(idx, self.dims.remove(axis)) ==> in_bounds(idx.insert(axis, 0), self.dims),
    {
        let wide = idx.insert(axis, 0);
        lemma_dot_remove(wide, self.strides, axis);
        assert(wide.remove(axis) =~= idx);
        assert(wide[axis] == 0);
        assert(0 * self.strides[axis] == 0);
        assert(self.drop_axis(axis).at(idx) == self.at(wide));
        lemma_span_remove(self.dims, self.strides, axis);
        assert((self.dims[axis] - 1) * self.strides[axis] == 0);
        assert(span(self.dims.remove(axis), self.strides.remove(axis)) == span(
            self.dims,
            self.strides,
        ));
        lemma_volume_remove(self.dims, axis);
        assert(volume(self.dims.remove(axis)) * 1 == volume(self.dims.remove(axis)));
        lemma_size_positive(self.dims);
        lemma_size_positive(self.dims.remove(axis));
        if size(self.dims.remove(axis)) > 0 {
            assert forall|k: int| 0 <= k < self.dims.len() implies #[trigger] self.dims[k] > 0 by {
                if k < axis {
                    assert(self.dims.remove(axis)[k] > 0);
                } else if k > axis {
                    assert(self.dims.remove(axis)[k - 1] > 0);
                }
            }
        }
        if in_bounds(idx, self.dims.remove(axis)) {
            assert forall|k: int| 0 <= k < wide.len() implies 0 <= #[trigger] wide[k]
                < self.dims[k] by {
                if k < axis {
                    assert(0 <= idx[k] < self.dims.remove(axis)[k]);
                } else if k > axis {
                    assert(0 <= idx[k - 1] < self.dims.remove(axis)[k - 1]);
                }
            }
        }
    }

    /// The layout with an axis of length one put in is well formed and
    /// places each index where the layout placed the index without that
    /// component.
    pub proof fn lemma_insert_axis(self, axis: int, idx: Seq<int>)
        requires
            self.wf(),
            0 <= axis <= self.dims.len(),
            idx.len() == self.dims.len() + 1,
        ensures
            self.insert_axis(axis).wf(),
            self.insert_axis(axis).at(idx) == self.at(idx.remove(axis)),
            in_bounds(idx, self.dims.insert(axis, 1)) ==> in_bounds(idx.remove(axis), self.dims),
    {
        let wide = self.insert_axis(axis);
        lemma_dot_remove(idx, wide.strides, axis);
        assert(wide.strides.remove(axis) =~= self.strides);
        assert(wide.dims.remove(axis) =~= self.dims);
        assert(wide.strides[axis] == 0);
        assert(idx[axis] * 0 == 0);
        assert(wide.at(idx) == self.offset + dot(idx.remove(axis), self.strides));
        lemma_span_remove(wide.dims, wide.strides, axis);
        assert(wide.dims[axis] == 1);
        assert(span(wide.dims, wide.strides) == span(self.dims, self.strides));
        lemma_volume_insert(self.dims, axis, 1);
        assert(volume(self.dims) * 1 == volume(self.dims));
        lemma_size_positive(self.dims);
        lemma_size_positive(wide.dims);
        if size(wide.dims) > 0 {
            assert forall|k: int| 0 <= k < self.dims.len() implies #[trigger] self.dims[k] > 0 by {
                if k < axis {
                    assert(wide.dims[k] > 0);
                } else {
                    assert(wide.dims[k + 1] > 0);
                }
            }
        }
        if in_bounds(idx, wide.dims) {
            let low = idx.remove(axis);
            assert forall|k: int| 0 <= k < low.len() implies 0 <= #[trigger] low[k]
                < self.dims[k] by {
                if k < axis {
                    assert(0 <= idx[k] < wide.dims[k]);
                } else {
                    assert(0 <= idx[k + 1] < wide.dims[k + 1]);
                }
            }
        }
    }
}

/// A strided layout over a buffer of `len` cells.
pub struct Layout {
    len: usize,
    offset: usize,
    shape: Shape,
    strides: Vec<usize>,
}

impl View for Layout {
    type V = LayoutView;

    closed spec fn view(&self) -> LayoutView {
        LayoutView {
            len: self.len as nat,
            offset: self.offset as nat,
            dims: self.shape@,
            strides: self.strides@,
        }
    }
}

impl Layout {
    /// What holds of every layout: it is well formed.
    #[verifier::type_invariant]
    pub open spec fn well_formed(&self) -> bool {
        self@.wf()
    }

    /// The layout of a tensor of shape `shape` stored row-major.
    pub fn contiguous(shape: &Shape) -> (layout: Layout)
        ensures
            layout@ == LayoutView::contiguous(shape@),
            layout@.wf(),
    {
        let n = shape.ndim();
        let len = shape.len();
        let mut strides: Vec<usize> = Vec::with_capacity(n);
        let mut k: usize = 0;
        while k < n
            invariant
                k <= n,
                strides@.len() == k,
            decreases n - k,
        {
            strides.push(0);
            k += 1;
        }
        let mut acc: usize = 1;
        while k > 0
            invariant
                k <= n,
                n == shape@.len(),
                strides@.len() == n,
                volume(shape@) <= usize::MAX,
                acc == size(shape@.subrange(k as int, n as int)),
                forall|j: int| k <= j < n ==> strides@[j] == row_major(shape@)[j],
            decreases k,
        {
            k -= 1;
            strides[k] = acc;
            proof {
                let tail = shape@.subrange(k + 1, n as int);
                let wide = shape@.subrange(k as int, n as int);
                let head = shape@.subrange(k as int, k + 1);
                assert(wide =~= head + tail);
                lemma_size_concat(head, tail);
                assert(head.drop_last() =~= Seq::<usize>::empty());
                assert(size(head.drop_last()) == 1);
                assert(head.last() == shape@[k as int]);
                assert(size(head) == size(head.drop_last()) * (head.last() as nat));
                assert(1 * (head.last() as nat) == head.last() as nat);
                assert(size(head) == shape@[k as int]);
                lemma_volume_subrange(shape@, k as int, n as int);
                lemma_volume_subrange(shape@, k + 1, n as int);
                assert(size(tail) == acc);
                assert(size(wide) == size(head) * size(tail));
                assert(size(wide) == shape@[k as int] * acc);
            }
            acc = shape.axis(k) * acc;
        }
        proof {
            assert(strides@ =~= row_major(shape@));
            lemma_contiguous(shape@);
            assert(shape@.subrange(0, n as int) =~= shape@);
        }
        Layout { len, offset: 0, shape: shape.duplicate(), strides }
    }

    /// The shape whose indices the layout places.
    pub fn shape(&self) -> (shape: &Shape)
        ensures
            shape@ == self@.dims,
            self@.wf(),
    {
        proof {
            use_type_invariant(self);
        }
        &self.shape
    }

    /// The number of cells of the buffer.
    pub fn len(&self) -> (len: usize)
        ensures
            len == self@.len,
    {
        self.len
    }

    /// The place of the index whose components are all zero.
    pub fn offset(&self) -> (offset: usize)
        ensures
            offset == self@.offset,
    {
        self.offset
    }

    /// The strides, one for each axis.
    pub fn strides(&self) -> (strides: Vec<usize>)
        ensures
            strides@ == self@.strides,
    {
        copy_of(&self.strides)
    }

    /// A copy of the layout.
    pub fn duplicate(&self) -> (layout: Layout)
        ensures
            layout@ == self@,
            layout@.wf(),
    {
        proof {
            use_type_invariant(self);
        }
        Layout {
            len: self.len,
            offset: self.offset,
            shape: self.shape.duplicate(),
            strides: copy_of(&self.strides),
        }
    }

    /// The layout with the axes in reverse order: that of the transposed
    /// tensor over the same buffer.
    pub fn transposed(&self) -> (layout: Layout)
        ensures
            layout@ == self@.transposed(),
            layout@.wf(),
    {
        proof {
            use_type_invariant(self);
            self@.lemma_transposed(Seq::new(self@.dims.len(), |k: int| 0int));
        }
        let n = self.strides.len();
        let mut strides: Vec<usize> = Vec::with_capacity(n);
        let mut k: usize = 0;
        while k < n
            invariant
                k <= n,
                n == self.strides.len(),
                strides@.len() == k,
                forall|j: int| 0 <= j < k ==> strides@[j] == self.strides@[n - 1 - j],
            decreases n - k,
        {
            strides.push(self.strides[n - 1 - k]);
            k += 1;
        }
        proof {
            assert(strides@ =~= reversed(self.strides@));
        }
        Layout { len: self.len, offset: self.offset, shape: self.shape.transposed(), strides }
    }

    /// The layout broadcast to the shape `to`, or `None` where the shape of
    /// the layout does not broadcast to it.
    pub fn broadcast(&self, to: &Shape) -> (layout: Option<Layout>)
        ensures
            layout.is_some() <==> broadcasts_to(self@.dims, to@),
            layout.is_some() ==> layout.unwrap()@ == self@.broadcast(to@) && layout.unwrap()@.wf(),
    {
        proof {
            use_type_invariant(self);
        }
        proof {
            use_type_invariant(to);
        }
        let n = to.ndim();
        let r = self.shape.ndim();
        if r > n {
            return None;
        }
        let shift = n - r;
        let mut strides: Vec<usize> = Vec::with_capacity(n);
        let mut j: usize = 0;
        while j < n
            invariant
                j <= n,
                n == to@.len(),
                r == self.shape@.len(),
                r == self.strides@.len(),
                shift == n - r,
                strides@.len() == j,
                forall|i: int|
                    0 <= i < j ==> strides@[i] == broadcast_strides(
                        self.shape@,
                        self.strides@,
                        to@,
                    )[i],
                forall|k: int|
                    0 <= k < r && k + shift < j ==> #[trigger] self.shape@[k] == to@[k + shift]
                        || self.shape@[k] == 1,
            decreases n - j,
        {
            if j < shift {
                strides.push(0);
            } else {
                let d = self.shape.axis(j - shift);
                if to.axis(j) == d {
                    strides.push(self.strides[j - shift]);
                } else if d == 1 {
                    strides.push(0);
                } else {
                    return None;
                }
            }
            j += 1;
        }
        proof {
            assert(strides@ =~= broadcast_strides(self.shape@, self.strides@, to@));
            assert(broadcasts_to(self@.dims, to@));
            self@.lemma_broadcast_wf(to@);
        }
        Some(Layout { len: self.len, offset: self.offset, shape: to.duplicate(), strides })
    }

    /// The layout of the window of shape `shape` that starts at `base`.
    pub fn window(&self, base: &Vec<usize>, shape: &Shape) -> (layout: Layout)
        requires
            window_fits(base@, shape@, self@.dims),
        ensures
            layout@ == self@.window(base@, shape@),
            layout@.wf(),
    {
        proof {
            use_type_invariant(self);
            use_type_invariant(shape);
            lemma_window_span(base@, shape@, self@.dims, self@.strides);
        }
        let n = self.strides.len();
        let mut offset = self.offset;
        let mut k: usize = 0;
        let ghost start = base@.map_values(|b: usize| b as int);
        while k < n
            invariant
                k <= n,
                n == self.strides@.len(),
                n == base@.len(),
                n == shape@.len(),
                n == self.shape@.len(),
                start == base@.map_values(|b: usize| b as int),
                window_fits(base@, shape@, self.shape@),
                offset == self.offset + dot(start.take(k as int), self.strides@.take(k as int)),
                self.offset + span(self.shape@, self.strides@) <= usize::MAX,
            decreases n - k,
        {
            proof {
                let next = k + 1;
                assert(window_fits(
                    base@.take(next),
                    shape@.take(next),
                    self.shape@.take(next),
                )) by {
                    assert forall|i: int| 0 <= i < next implies #[trigger] base@.take(next)[i]
                        + shape@.take(next)[i] <= self.shape@.take(next)[i] && (base@.take(
                        next,
                    )[i] == 0 || base@.take(next)[i] < self.shape@.take(next)[i]) by {
                        assert(base@[i] + shape@[i] <= self.shape@[i]);
                    }
                }
                lemma_window_span(
                    base@.take(next),
                    shape@.take(next),
                    self.shape@.take(next),
                    self.strides@.take(next),
                );
                assert(base@.take(next).map_values(|b: usize| b as int) =~= start.take(next));
                lemma_span_prefix(self.shape@, self.strides@, next);
                assert(start.take(next).drop_last() =~= start.take(k as int));
                assert(self.strides@.take(next).drop_last() =~= self.strides@.take(k as int));
                let b = base@[k as int] as int;
                let s = self.strides@[k as int] as int;
                assert(0 <= b * s) by (nonlinear_arith)
                    requires
                        b >= 0,
                        s >= 0,
                ;
            }
            offset = offset + base[k] * self.strides[k];
            k += 1;
        }
        proof {
            assert(start.take(n as int) =~= start);
            assert(self.strides@.take(n as int) =~= self.strides@);
            self@.lemma_window(base@, shape@, Seq::new(shape@.len(), |k: int| 0int));
        }
        Layout { len: self.len, offset, shape: shape.duplicate(), strides: copy_of(&self.strides) }
    }

    /// The layout without the axis `axis`, which has length one.
    pub fn drop_axis(&self, axis: usize) -> (layout: Layout)
        requires
            axis < self@.dims.len(),
            self@.dims[axis as int] == 1,
        ensures
            layout@ == self@.drop_axis(axis as int),
            layout@.wf(),
    {
        proof {
            use_type_invariant(self);
            let none = Seq::new((self@.dims.len() - 1) as nat, |k: int| 0int);
            self@.lemma_drop_axis(axis as int, none);
        }
        let mut strides = copy_of(&self.strides);
        strides.remove(axis);
        Layout {
            len: self.len,
            offset: self.offset,
            shape: self.shape.remove_axis(axis),
            strides,
        }
    }

    /// The layout with an axis of length one put in at `axis`.
    pub fn insert_axis(&self, axis: usize) -> (layout: Layout)
        requires
            axis <= self@.dims.len(),
        ensures
            layout@ == self@.insert_axis(axis as int),
            layout@.wf(),
    {
        proof {
            use_type_invariant(self);
            self@.lemma_insert_axis(axis as int, Seq::new(self@.dims.len() + 1, |k: int| 0int));
        }
        let mut strides = copy_of(&self.strides);
        strides.insert(axis, 0);
        Layout {
            len: self.len,
            offset: self.offset,
            shape: self.shape.insert_axis(axis),
            strides,
        }
    }

    /// The place of the index that stands at `pos` in the row-major order of
    /// the indices of the shape.
    pub fn place(&self, pos: usize) -> (place: usize)
        requires
            pos < size(self@.dims),
        ensures
            place == self@.at(unravel(self@.dims, pos as int)),
            place < self@.len,
    {
        proof {
            use_type_invariant(self);
        }
        let n = self.strides.len();
        let mut rem = pos;
        let mut acc = self.offset;
        let mut k = n;
        let ghost dims = self.shape@;
        let ghost strides = self.strides@;
        proof {
            assert(dims.take(n as int) =~= dims);
            assert(strides.take(n as int) =~= strides);
        }
        while k > 0
            invariant
                k <= n,
                n == dims.len(),
                n == strides.len(),
                dims == self.shape@,
                strides == self.strides@,
                0 <= rem < size(dims.take(k as int)),
                acc + dot(unravel(dims.take(k as int), rem as int), strides.take(k as int))
                    == self.offset + dot(unravel(dims, pos as int), strides),
                acc + span(dims.take(k as int), strides.take(k as int)) <= self.offset + span(
                    dims,
                    strides,
                ),
                self.offset + span(dims, strides) <= usize::MAX,
            decreases k,
        {
            proof {
                let cur = dims.take(k as int);
                let rest = dims.take(k - 1);
                assert(cur.drop_last() =~= rest);
                assert(strides.take(k as int).drop_last() =~= strides.take(k - 1));
                let d = cur.last() as int;
                lemma_size_positive(cur);
                assert(cur[k - 1] > 0);
                assert(size(rest) * d == d * size(rest)) by (nonlinear_arith);
                lemma_multiply_divide_lt(rem as int, d, size(rest) as int);
                lemma_div_pos_is_pos(rem as int, d);
                lemma_mod_bound(rem as int, d);
                let i = rem as int % d;
                let s = strides[k - 1] as int;
                assert(unravel(cur, rem as int).drop_last() =~= unravel(rest, rem as int / d));
                assert(unravel(cur, rem as int).last() == i);
                assert(0 <= i * s <= (d - 1) * s) by (nonlinear_arith)
                    requires
                        0 <= i < d,
                        0 <= s,
                ;
            }
            k -= 1;
            let d = self.shape.axis(k);
            acc = acc + (rem % d) * self.strides[k];
            rem = rem / d;
        }
        proof {
            lemma_unravel_in_bounds(dims, pos as int);
            self@.lemma_at_in_range(unravel(dims, pos as int));
        }
        acc
    }

    /// The places of all the indices of the shape, in row-major order of the
    /// indices.
    pub fn places(&self) -> (places: Vec<usize>)
        ensures
            places@.len() == size(self@.dims),
            forall|pos: int|
                0 <= pos < places@.len() ==> #[trigger] places@[pos] == self@.at(
                    unravel(self@.dims, pos),
                ) && places@[pos] < self@.len,
    {
        let n = self.shape.len();
        let mut places: Vec<usize> = Vec::with_capacity(n);
        let mut pos: usize = 0;
        while pos < n
            invariant
                pos <= n,
                n == size(self@.dims),
                places@.len() == pos,
                forall|p: int|
                    0 <= p < pos ==> #[trigger] places@[p] == self@.at(unravel(self@.dims, p))
                        && places@[p] < self@.len,
            decreases n - pos,
        {
            places.push(self.place(pos));
            pos += 1;
        }
        places
    }
}

/// The start of the window that holds the indices with `at` on the axis
/// `axis`: zero on every other axis.
pub open spec fn start_at(rank: nat, axis: int, at: usize) -> Seq<usize> {
    Seq::new(rank, |k: int| if k == axis { at } else { 0usize })
}

impl LayoutView {
    /// The layout with the axis `axis` moved behind all others, so that the
    /// lanes along that axis are the lanes of the layout.
    pub open spec fn axis_last(self, axis: int) -> LayoutView {
        LayoutView {
            dims: self.dims.remove(axis).push(self.dims[axis]),
            strides: self.strides.remove(axis).push(self.strides[axis]),
            ..self
        }
    }

    /// The layout of the indices that have `at` on the axis `axis`, without
    /// that axis.
    pub open spec fn index_axis(self, axis: int, at: usize) -> LayoutView {
        self.window(start_at(self.dims.len(), axis, at), self.dims.update(axis, 1)).drop_axis(axis)
    }

    /// The layout with an axis moved behind all others is well formed and
    /// places each index where the layout placed the index with the last
    /// component put back at `axis`.
    pub proof fn lemma_axis_last(self, axis: int, idx: Seq<int>)
        requires
            self.wf(),
            0 <= axis < self.dims.len(),
            idx.len() == self.dims.len(),
        ensures
            self.axis_last(axis).wf(),
            self.axis_last(axis).at(idx) == self.at(idx.drop_last().insert(axis, idx.last())),
            in_bounds(idx, self.axis_last(axis).dims) ==> in_bounds(
                idx.drop_last().insert(axis, idx.last()),
                self.dims,
            ),
    {
        let moved = self.axis_last(axis);
        let back = idx.drop_last().insert(axis, idx.last());
        lemma_dot_remove(back, self.strides, axis);
        assert(back.remove(axis) =~= idx.drop_last());
        assert(back[axis] == idx.last());
        assert(moved.strides.drop_last() =~= self.strides.remove(axis));
        assert(moved.strides.last() == self.strides[axis]);
        assert(moved.at(idx) == self.at(back));
        lemma_span_remove(self.dims, self.strides, axis);
        assert(moved.dims.drop_last() =~= self.dims.remove(axis));
        assert(moved.dims.last() == self.dims[axis]);
        assert(span(moved.dims, moved.strides) == span(self.dims, self.strides));
        lemma_volume_remove(self.dims, axis);
        lemma_size_positive(self.dims);
        lemma_size_positive(moved.dims);
        if size(moved.dims) > 0 {
            assert forall|k: int| 0 <= k < self.dims.len() implies #[trigger] self.dims[k] > 0 by {
                if k < axis {
                    assert(moved.dims[k] > 0);
                } else if k > axis {
                    assert(moved.dims[k - 1] > 0);
                } else {
                    assert(moved.dims[self.dims.len() - 1] > 0);
                }
            }
        }
        if in_bounds(idx, moved.dims) {
            assert forall|k: int| 0 <= k < back.len() implies 0 <= #[trigger] back[k]
                < self.dims[k] by {
                if k < axis {
                    assert(0 <= idx[k] < moved.dims[k]);
                } else if k > axis {
                    assert(0 <= idx[k - 1] < moved.dims[k - 1]);
                } else {
                    assert(0 <= idx[idx.len() - 1] < moved.dims[idx.len() - 1]);
                }
            }
        }
    }

    /// The layout of the indices that have `at` on an axis is well formed
    /// and places each index where the layout placed the index with `at`
    /// put in.
    pub proof fn lemma_index_axis(self, axis: int, at: usize, idx: Seq<int>)
        requires
            self.wf(),
            0 <= axis < self.dims.len(),
            at < self.dims[axis],
            idx.len() + 1 == self.dims.len(),
        ensures
            window_fits(start_at(self.dims.len(), axis, at), self.dims.update(axis, 1), self.dims),
            volume(self.dims.update(axis, 1)) <= usize::MAX,
            self.index_axis(axis, at).wf(),
            self.index_axis(axis, at).dims == self.dims.remove(axis),
            self.index_axis(axis, at).at(idx) == self.at(idx.insert(axis, at as int)),
            in_bounds(idx, self.dims.remove(axis)) ==> in_bounds(
                idx.insert(axis, at as int),
                self.dims,
            ),
    {
        let base = start_at(self.dims.len(), axis, at);
        let thin = self.dims.update(axis, 1);
        assert(window_fits(base, thin, self.dims)) by {
            assert forall|k: int| 0 <= k < self.dims.len() implies #[trigger] base[k] + thin[k]
                <= self.dims[k] && (base[k] == 0 || base[k] < self.dims[k]) by {
                lemma_size_positive(self.dims);
            }
        }
        lemma_volume_remove(self.dims, axis);
        lemma_volume_remove(thin, axis);
        assert(thin.remove(axis) =~= self.dims.remove(axis));
        let rest = volume(self.dims.remove(axis)) as int;
        let d = self.dims[axis] as int;
        assert(rest * 1 <= rest * d) by (nonlinear_arith)
            requires
                rest >= 0,
                d >= 1,
        ;
        let cut = self.window(base, thin);
        let wide = idx.insert(axis, 0);
        self.lemma_window(base, thin, wide);
        cut.lemma_drop_axis(axis, idx);
        assert(shifted(base, wide) =~= idx.insert(axis, at as int));
        if in_bounds(idx, self.dims.remove(axis)) {
            let put = idx.insert(axis, at as int);
            assert forall|k: int| 0 <= k < put.len() implies 0 <= #[trigger] put[k]
                < self.dims[k] by {
                if k < axis {
                    assert(0 <= idx[k] < self.dims.remove(axis)[k]);
                } else if k > axis {
                    assert(0 <= idx[k - 1] < self.dims.remove(axis)[k - 1]);
                }
            }
        }
    }
}

impl Layout {
    /// The layout with the axis `axis` moved behind all others.
    pub fn axis_last(&self, axis: usize) -> (layout: Layout)
        requires
            axis < self@.dims.len(),
        ensures
            layout@ == self@.axis_last(axis as int),
            layout@.wf(),
    {
        proof {
            use_type_invariant(self);
            self@.lemma_axis_last(axis as int, Seq::new(self@.dims.len(), |k: int| 0int));
        }
        let mut dims = self.shape.dims();
        let d = dims.remove(axis);
        dims.push(d);
        let mut strides = copy_of(&self.strides);
        let s = strides.remove(axis);
        strides.push(s);
        let shape = Shape::new(dims).unwrap();
        Layout { len: self.len, offset: self.offset, shape, strides }
    }

    /// The layout of the indices that have `at` on the axis `axis`, without
    /// that axis.
    pub fn index_axis(&self, axis: usize, at: usize) -> (layout: Layout)
        requires
            axis < self@.dims.len(),
            at < self@.dims[axis as int],
        ensures
            layout@ == self@.index_axis(axis as int, at),
            layout@.wf(),
    {
        proof {
            use_type_invariant(self);
            self@.lemma_index_axis(
                axis as int,
                at,
                Seq::new((self@.dims.len() - 1) as nat, |k: int| 0int),
            );
        }
        let base = window_start(self.shape.ndim(), axis, at);
        let thin = self.shape.with_axis(axis, 1).unwrap();
        self.window(&base, &thin).drop_axis(axis)
    }
}

/// The start of the window that holds the indices with `at` on the axis
/// `axis`.
pub fn window_start(rank: usize, axis: usize, at: usize) -> (base: Vec<usize>)
    ensures
        base@ == start_at(rank as nat, axis as int, at),
{
    let mut base: Vec<usize> = Vec::with_capacity(rank);
    let mut k: usize = 0;
    while k < rank
        invariant
            k <= rank,
            base@.len() == k,
            forall|j: int| 0 <= j < k ==> base@[j] == start_at(rank as nat, axis as int, at)[j],
        decreases rank - k,
    {
        base.push(
            if k == axis {
                at
            } else {
                0
            },
        );
        k += 1;
    }
    proof {
        assert(base@ =~= start_at(rank as nat, axis as int, at));
    }
    base
}

/// `span` does not shrink when axes are added at the end.
pub proof fn lemma_span_prefix(dims: Seq<usize>, strides: Seq<usize>, n: int)
    requires
        dims.len() == strides.len(),
        0 <= n <= dims.len(),
    ensures
        span(dims.take(n), strides.take(n)) <= span(dims, strides),
    decreases dims.len() - n,
{
    if n < dims.len() {
        lemma_span_prefix(dims, strides, n + 1);
        assert(dims.take(n + 1).drop_last() =~= dims.take(n));
        assert(strides.take(n + 1).drop_last() =~= strides.take(n));
    } else {
        assert(dims.take(n) =~= dims);
        assert(strides.take(n) =~= strides);
    }
}

} // verus!
