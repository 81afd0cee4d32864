//! Row-major index arithmetic.
//!
//! A shape is a sequence of axis lengths. An index of a shape has one
//! component per axis, each below the axis length. The indices of a shape are
//! ordered row-major: the last axis varies fastest. `ravel` gives the place of
//! an index in that order and `unravel` the index at a place.

use vstd::arithmetic::div_mod::*;
use vstd::arithmetic::mul::*;
use vstd::prelude::*;

verus! {

/// The number of indices of a shape: the product of its axis lengths.
pub open spec fn size(dims: Seq<usize>) -> nat
    decreases dims.len(),
{
    if dims.len() == 0 {
        1
    } else {
        size(dims.drop_last()) * (dims.last() as nat)
    }
}

/// The product of the axis lengths that are not zero.
pub open spec fn volume(dims: Seq<usize>) -> nat
    decreases dims.len(),
{
    if dims.len() == 0 {
        1
    } else if dims.last() == 0 {
        volume(dims.drop_last())
    } else {
        volume(dims.drop_last()) * (dims.last() as nat)
    }
}

/// `idx` is an index of the shape `dims`.
pub open spec fn in_bounds(idx: Seq<int>, dims: Seq<usize>) -> bool {
    &&& idx.len() == dims.len()
    &&& forall|k: int| 0 <= k < idx.len() ==> 0 <= #[trigger] idx[k] < dims[k]
}

/// The sum over the axes of index component times stride.
pub open spec fn dot(idx: Seq<int>, strides: Seq<usize>) -> int
    decreases idx.len(),
{
    if idx.len() == 0 || strides.len() == 0 {
        0
    } else {
        dot(idx.drop_last(), strides.drop_last()) + idx.last() * (strides.last() as int)
    }
}

/// The largest value of `dot` over the indices of `dims`, with axes of length
/// zero counted as of length one.
pub open spec fn span(dims: Seq<usize>, strides: Seq<usize>) -> nat
    decreases dims.len(),
{
    if dims.len() == 0 || strides.len() == 0 {
        0
    } else if dims.last() == 0 {
        span(dims.drop_last(), strides.drop_last())
    } else {
        span(dims.drop_last(), strides.drop_last()) + ((dims.last() - 1) * strides.last()) as nat
    }
}

/// The place of `idx` among the indices of `dims` in row-major order.
pub open spec fn ravel(dims: Seq<usize>, idx: Seq<int>) -> int
    decreases dims.len(),
{
    if dims.len() == 0 || idx.len() == 0 {
        0
    } else {
        ravel(dims.drop_last(), idx.drop_last()) * (dims.last() as int) + idx.last()
    }
}

/// The index of `dims` at place `pos` in row-major order.
pub open spec fn unravel(dims: Seq<usize>, pos: int) -> Seq<int>
    decreases dims.len(),
{
    if dims.len() == 0 {
        Seq::<int>::empty()
    } else {
        unravel(dims.drop_last(), pos / (dims.last() as int)).push(pos % (dims.last() as int))
    }
}

/// A shape with an index has no axis of length zero.
pub proof fn lemma_size_positive(dims: Seq<usize>)
    ensures
        size(dims) > 0 <==> (forall|k: int| 0 <= k < dims.len() ==> #[trigger] dims[k] > 0),
        size(dims) > 0 ==> size(dims) == volume(dims),
        size(dims) <= volume(dims),
        volume(dims) > 0,
    decreases dims.len(),
{
    if dims.len() > 0 {
        let rest = dims.drop_last();
        lemma_size_positive(rest);
        let d = dims.last() as int;
        assert(forall|k: int| 0 <= k < rest.len() ==> rest[k] == dims[k]);
        if d > 0 {
            lemma_mul_strictly_positive(volume(rest) as int, d);
            lemma_mul_inequality(size(rest) as int, volume(rest) as int, d);
            if size(rest) > 0 {
                lemma_mul_strictly_positive(size(rest) as int, d);
                assert(forall|k: int| 0 <= k < dims.len() ==> #[trigger] dims[k] > 0) by {
                    assert forall|k: int| 0 <= k < dims.len() implies #[trigger] dims[k] > 0 by {
                        if k < rest.len() {
                            assert(rest[k] > 0);
                        }
                    }
                }
            } else {
                assert(size(rest) * d == 0) by (nonlinear_arith)
                    requires
                        size(rest) == 0,
                ;
                let k = choose|k: int| 0 <= k < rest.len() && !(#[trigger] rest[k] > 0);
                assert(!(dims[k] > 0));
            }
        } else {
            assert(size(rest) * d == 0) by (nonlinear_arith)
                requires
                    d == 0,
            ;
            assert(!(dims[dims.len() - 1] > 0));
        }
    }
}

/// Each place below the size of a shape holds an index of the shape.
pub proof fn lemma_unravel_in_bounds(dims: Seq<usize>, pos: int)
    requires
        0 <= pos < size(dims),
    ensures
        in_bounds(unravel(dims, pos), dims),
    decreases dims.len(),
{
    if dims.len() > 0 {
        let rest = dims.drop_last();
        let d = dims.last() as int;
        lemma_size_positive(dims);
        assert(dims[dims.len() - 1] > 0);
        lemma_size_positive(rest);
        assert(size(rest) * d == d * size(rest)) by (nonlinear_arith);
        lemma_multiply_divide_lt(pos, d, size(rest) as int);
        lemma_div_pos_is_pos(pos, d);
        lemma_unravel_in_bounds(rest, pos / d);
        lemma_mod_bound(pos, d);
        let idx = unravel(dims, pos);
        let head = unravel(rest, pos / d);
        assert forall|k: int| 0 <= k < idx.len() implies 0 <= #[trigger] idx[k] < dims[k] by {
            if k < head.len() {
                assert(idx[k] == head[k]);
                assert(rest[k] == dims[k]);
            }
        }
    }
}

/// The place of the index at a place is that place.
pub proof fn lemma_ravel_unravel(dims: Seq<usize>, pos: int)
    requires
        0 <= pos < size(dims),
    ensures
        ravel(dims, unravel(dims, pos)) == pos,
    decreases dims.len(),
{
    if dims.len() > 0 {
        let rest = dims.drop_last();
        let d = dims.last() as int;
        lemma_size_positive(dims);
        assert(dims[dims.len() - 1] > 0);
        assert(size(rest) * d == d * size(rest)) by (nonlinear_arith);
        lemma_multiply_divide_lt(pos, d, size(rest) as int);
        lemma_div_pos_is_pos(pos, d);
        lemma_ravel_unravel(rest, pos / d);
        let head = unravel(rest, pos / d);
        assert(unravel(dims, pos).drop_last() =~= head);
        lemma_fundamental_div_mod(pos, d);
        assert((pos / d) * d == d * (pos / d)) by (nonlinear_arith);
    } else {
        assert(size(dims) == 1);
    }
}

/// The place of an index of a shape lies below the size of the shape.
pub proof fn lemma_ravel_bounds(dims: Seq<usize>, idx: Seq<int>)
    requires
        in_bounds(idx, dims),
    ensures
        0 <= ravel(dims, idx) < size(dims),
    decreases dims.len(),
{
    if dims.len() > 0 {
        let rest = dims.drop_last();
        let head = idx.drop_last();
        let d = dims.last() as int;
        assert(in_bounds(head, rest)) by {
            assert forall|k: int| 0 <= k < head.len() implies 0 <= #[trigger] head[k] < rest[k] by {
                assert(head[k] == idx[k]);
            }
        }
        lemma_ravel_bounds(rest, head);
        let r = ravel(rest, head);
        let i = idx.last();
        assert(0 <= i < d) by {
            assert(idx[idx.len() - 1] == i);
        }
        assert(0 <= r * d + i < size(rest) * d) by (nonlinear_arith)
            requires
                0 <= r < size(rest),
                0 <= i < d,
        ;
    }
}

/// The index at the place of an index is that index.
pub proof fn lemma_unravel_ravel(dims: Seq<usize>, idx: Seq<int>)
    requires
        in_bounds(idx, dims),
    ensures
        unravel(dims, ravel(dims, idx)) == idx,
    decreases dims.len(),
{
    if dims.len() > 0 {
        let rest = dims.drop_last();
        let head = idx.drop_last();
        let d = dims.last() as int;
        assert(in_bounds(head, rest)) by {
            assert forall|k: int| 0 <= k < head.len() implies 0 <= #[trigger] head[k] < rest[k] by {
                assert(head[k] == idx[k]);
            }
        }
        lemma_unravel_ravel(rest, head);
        let r = ravel(rest, head);
        let i = idx.last();
        assert(0 <= i < d) by {
            assert(idx[idx.len() - 1] == i);
        }
        assert(r * d == d * r) by (nonlinear_arith);
        lemma_fundamental_div_mod_converse(r * d + i, d, r, i);
        assert(unravel(dims, ravel(dims, idx)) =~= head.push(i));
        assert(head.push(i) =~= idx);
    } else {
        assert(unravel(dims, ravel(dims, idx)) =~= idx);
    }
}

/// Two indices of a shape at the same place are the same index.
pub proof fn lemma_ravel_injective(dims: Seq<usize>, a: Seq<int>, b: Seq<int>)
    requires
        in_bounds(a, dims),
        in_bounds(b, dims),
        ravel(dims, a) == ravel(dims, b),
    ensures
        a == b,
{
    lemma_unravel_ravel(dims, a);
    lemma_unravel_ravel(dims, b);
}

/// Over the indices of a shape `dot` is at least zero and at most `span`.
pub proof fn lemma_dot_bounds(idx: Seq<int>, dims: Seq<usize>, strides: Seq<usize>)
    requires
        in_bounds(idx, dims),
        strides.len() == dims.len(),
    ensures
        0 <= dot(idx, strides) <= span(dims, strides),
    decreases dims.len(),
{
    if dims.len() > 0 {
        let head = idx.drop_last();
        let rest = dims.drop_last();
        assert(in_bounds(head, rest)) by {
            assert forall|k: int| 0 <= k < head.len() implies 0 <= #[trigger] head[k] < rest[k] by {
                assert(head[k] == idx[k]);
            }
        }
        lemma_dot_bounds(head, rest, strides.drop_last());
        let i = idx.last();
        let d = dims.last() as int;
        let s = strides.last() as int;
        assert(0 <= i < d) by {
            assert(idx[idx.len() - 1] == i);
        }
        assert(0 <= i * s <= (d - 1) * s) by (nonlinear_arith)
            requires
                0 <= i < d,
                0 <= s,
        ;
    }
}

/// `size` of two shapes joined is the product of their sizes, and `volume`
/// likewise.
pub proof fn lemma_size_concat(a: Seq<usize>, b: Seq<usize>)
    ensures
        size(a + b) == size(a) * size(b),
        volume(a + b) == volume(a) * volume(b),
    decreases b.len(),
{
    if b.len() == 0 {
        assert(a + b =~= a);
        assert(size(b) == 1);
        assert(volume(b) == 1);
        assert(size(a) * 1 == size(a)) by (nonlinear_arith);
        assert(volume(a) * 1 == volume(a)) by (nonlinear_arith);
    } else {
        let rest = b.drop_last();
        lemma_size_concat(a, rest);
        assert((a + b).drop_last() =~= a + rest);
        assert((a + b).last() == b.last());
        let d = b.last() as int;
        let x = size(a) as int;
        let y = size(rest) as int;
        let u = volume(a) as int;
        let v = volume(rest) as int;
        assert(size(a + b) == (x * y) * d);
        assert(size(b) == y * d);
        assert((x * y) * d == x * (y * d)) by (nonlinear_arith);
        if d != 0 {
            assert(volume(a + b) == (u * v) * d);
            assert(volume(b) == v * d);
            assert((u * v) * d == u * (v * d)) by (nonlinear_arith);
        }
    }
}

/// `size` and `volume` of a stretch of axes are at most `volume` of all.
pub proof fn lemma_volume_subrange(dims: Seq<usize>, from: int, to: int)
    requires
        0 <= from <= to <= dims.len(),
    ensures
        size(dims.subrange(from, to)) <= volume(dims.subrange(from, to)) <= volume(dims),
{
    let a = dims.take(from);
    let b = dims.subrange(from, to);
    let c = dims.skip(to);
    assert(dims =~= (a + b) + c);
    lemma_size_concat(a, b);
    lemma_size_concat(a + b, c);
    lemma_size_positive(a);
    lemma_size_positive(b);
    lemma_size_positive(c);
    let x = volume(a) as int;
    let y = volume(b) as int;
    let z = volume(c) as int;
    assert(y <= (x * y) * z) by (nonlinear_arith)
        requires
            x >= 1,
            y >= 1,
            z >= 1,
    ;
}

/// With one axis set apart, `dot` is the sum of that axis's term and `dot`
/// over the rest.
pub proof fn lemma_dot_remove(idx: Seq<int>, strides: Seq<usize>, axis: int)
    requires
        idx.len() == strides.len(),
        0 <= axis < idx.len(),
    ensures
        dot(idx, strides) == dot(idx.remove(axis), strides.remove(axis)) + idx[axis]
            * strides[axis],
    decreases idx.len(),
{
    if axis == idx.len() - 1 {
        assert(idx.remove(axis) =~= idx.drop_last());
        assert(strides.remove(axis) =~= strides.drop_last());
    } else {
        lemma_dot_remove(idx.drop_last(), strides.drop_last(), axis);
        assert(idx.remove(axis).drop_last() =~= idx.drop_last().remove(axis));
        assert(strides.remove(axis).drop_last() =~= strides.drop_last().remove(axis));
        assert(idx.remove(axis).last() == idx.last());
        assert(strides.remove(axis).last() == strides.last());
    }
}

/// With one axis set apart, `span` is the sum of that axis's term and `span`
/// over the rest.
pub proof fn lemma_span_remove(dims: Seq<usize>, strides: Seq<usize>, axis: int)
    requires
        dims.len() == strides.len(),
        0 <= axis < dims.len(),
    ensures
        span(dims, strides) == span(dims.remove(axis), strides.remove(axis)) + (if dims[axis]
            == 0 {
            0
        } else {
            (dims[axis] - 1) * strides[axis]
        }),
    decreases dims.len(),
{
    if axis == dims.len() - 1 {
        assert(dims.remove(axis) =~= dims.drop_last());
        assert(strides.remove(axis) =~= strides.drop_last());
    } else {
        lemma_span_remove(dims.drop_last(), strides.drop_last(), axis);
        assert(dims.remove(axis).drop_last() =~= dims.drop_last().remove(axis));
        assert(strides.remove(axis).drop_last() =~= strides.drop_last().remove(axis));
        assert(dims.remove(axis).last() == dims.last());
        assert(strides.remove(axis).last() == strides.last());
    }
    assert((dims[axis] - 1) * strides[axis] >= 0 || dims[axis] == 0) by (nonlinear_arith);
    assert((dims.last() - 1) * strides.last() >= 0 || dims.last() == 0) by (nonlinear_arith);
}

/// `dot` of the sum of two indices is the sum of their `dot`s.
pub proof fn lemma_dot_sum(a: Seq<int>, b: Seq<int>, strides: Seq<usize>)
    requires
        a.len() == strides.len(),
        b.len() == strides.len(),
    ensures
        dot(Seq::new(a.len(), |k: int| a[k] + b[k]), strides) == dot(a, strides) + dot(b, strides),
    decreases strides.len(),
{
    let sum = Seq::new(a.len(), |k: int| a[k] + b[k]);
    if strides.len() > 0 {
        lemma_dot_sum(a.drop_last(), b.drop_last(), strides.drop_last());
        let head = Seq::new(a.drop_last().len(), |k: int| a.drop_last()[k] + b.drop_last()[k]);
        assert(sum.drop_last() =~= head);
        let s = strides.last() as int;
        assert((a.last() + b.last()) * s == a.last() * s + b.last() * s) by (nonlinear_arith);
    }
}

/// Where each stride of `wide` is `factor` times the stride of `strides` on
/// the same axis, `dot` and `span` over `wide` are `factor` times those over
/// `strides`.
pub proof fn lemma_scaled(
    idx: Seq<int>,
    dims: Seq<usize>,
    strides: Seq<usize>,
    wide: Seq<usize>,
    factor: int,
)
    requires
        idx.len() == strides.len(),
        dims.len() == strides.len(),
        wide.len() == strides.len(),
        forall|k: int| 0 <= k < strides.len() ==> #[trigger] wide[k] == strides[k] * factor,
    ensures
        dot(idx, wide) == dot(idx, strides) * factor,
        span(dims, wide) == span(dims, strides) * factor,
    decreases strides.len(),
{
    if strides.len() > 0 {
        lemma_scaled(
            idx.drop_last(),
            dims.drop_last(),
            strides.drop_last(),
            wide.drop_last(),
            factor,
        );
        let n = strides.len() - 1;
        assert(wide[n] == strides[n] * factor);
        let i = idx.last();
        let s = strides.last() as int;
        let w = wide.last() as int;
        let d = dims.last() as int;
        let p = dot(idx.drop_last(), strides.drop_last());
        let q = span(dims.drop_last(), strides.drop_last()) as int;
        assert(w == s * factor);
        assert(i * w == i * (s * factor));
        assert(p * factor + i * (s * factor) == (p + i * s) * factor) by (nonlinear_arith);
        if d != 0 {
            assert((d - 1) * s >= 0) by (nonlinear_arith)
                requires
                    s >= 0,
                    d >= 1,
            ;
            assert((d - 1) * w >= 0) by (nonlinear_arith)
                requires
                    w >= 0,
                    d >= 1,
            ;
            assert((d - 1) * w == (d - 1) * (s * factor));
            assert(q * factor + (d - 1) * (s * factor) == (q + (d - 1) * s) * factor)
                by (nonlinear_arith);
            assert(span(dims, strides) == q + (d - 1) * s);
            assert(span(dims, wide) == q * factor + (d - 1) * w);
        }
    } else {
        assert(span(dims, strides) * factor == 0) by (nonlinear_arith)
            requires
                span(dims, strides) == 0,
        ;
        assert(dot(idx, strides) * factor == 0) by (nonlinear_arith)
            requires
                dot(idx, strides) == 0,
        ;
    }
}

} // verus!
