//! Tensor shapes and the rules by which the shape of a result follows from
//! the shapes of the operands.

use crate::index::{
    in_bounds, lemma_size_positive, lemma_unravel_in_bounds, size, unravel, volume,
};
use vstd::arithmetic::div_mod::*;
use vstd::arithmetic::mul::*;
use vstd::prelude::*;

verus! {

/// The axis lengths of a tensor. The product of the lengths that are not zero
/// fits a `usize`, so that every place in a buffer of this shape does.
pub struct Shape {
    dims: Vec<usize>,
}

impl View for Shape {
    type V = Seq<usize>;

    closed spec fn view(&self) -> Seq<usize> {
        self.dims@
    }
}

/// The shape that `a` and `b` broadcast to is defined: aligned at the last
/// axis, the lengths of each pair of axes agree or one of them is one.
pub open spec fn broadcastable(a: Seq<usize>, b: Seq<usize>) -> bool {
    forall|k: int|
        #![trigger a[a.len() - 1 - k]]
        #![trigger b[b.len() - 1 - k]]
        0 <= k < a.len() && k < b.len() ==> {
            let x = a[a.len() - 1 - k];
            let y = b[b.len() - 1 - k];
            x == y || x == 1 || y == 1
        }
}

/// The shape that `a` and `b` broadcast to: as many axes as the longer of the
/// two; an axis that only one has keeps its length, and of a pair of axes the
/// length that is not one wins.
pub open spec fn broadcast_dims(a: Seq<usize>, b: Seq<usize>) -> Seq<usize> {
    let n = if a.len() >= b.len() {
        a.len()
    } else {
        b.len()
    };
    Seq::new(
        n,
        |k: int|
            {
                let i = k - (n - a.len());
                let j = k - (n - b.len());
                if i < 0 {
                    b[j]
                } else if j < 0 {
                    a[i]
                } else if a[i] == 1 {
                    b[j]
                } else {
                    a[i]
                }
            },
    )
}

/// The axes of `dims` in reverse order.
pub open spec fn reversed(dims: Seq<usize>) -> Seq<usize> {
    Seq::new(dims.len(), |k: int| dims[dims.len() - 1 - k])
}

/// The components of an index in reverse order.
pub open spec fn reversed_index(idx: Seq<int>) -> Seq<int> {
    Seq::new(idx.len(), |k: int| idx[idx.len() - 1 - k])
}

/// `volume` does not shrink when axes are added at the end.
pub proof fn lemma_volume_prefix(dims: Seq<usize>, n: int)
    requires
        0 <= n <= dims.len(),
    ensures
        volume(dims.take(n)) <= volume(dims),
    decreases dims.len() - n,
{
    if n < dims.len() {
        lemma_volume_prefix(dims, n + 1);
        let next = dims.take(n + 1);
        assert(next.drop_last() =~= dims.take(n));
        lemma_size_positive(dims.take(n));
        if next.last() != 0 {
            lemma_mul_increases(next.last() as int, volume(dims.take(n)) as int);
            assert(next.last() * volume(dims.take(n)) == volume(dims.take(n)) * next.last())
                by (nonlinear_arith);
        }
    } else {
        assert(dims.take(n) =~= dims);
    }
}

/// `volume` is the product over the axes, whatever the order in which it is
/// taken: with one axis set apart it is the product of that axis and the rest.
pub proof fn lemma_volume_remove(dims: Seq<usize>, axis: int)
    requires
        0 <= axis < dims.len(),
    ensures
        volume(dims) == volume(dims.remove(axis)) * (if dims[axis] == 0 {
            1nat
        } else {
            dims[axis] as nat
        }),
    decreases dims.len(),
{
    let rest = dims.drop_last();
    if axis == dims.len() - 1 {
        assert(dims.remove(axis) =~= rest);
    } else {
        lemma_volume_remove(rest, axis);
        assert(dims.remove(axis).drop_last() =~= rest.remove(axis));
        assert(dims.remove(axis).last() == dims.last());
        let a = volume(rest.remove(axis)) as int;
        let x: int = if dims[axis] == 0 {
            1
        } else {
            dims[axis] as int
        };
        let l = dims.last() as int;
        assert(rest[axis] == dims[axis]);
        assert((a * x) * l == (a * l) * x) by (nonlinear_arith);
    }
}

/// `volume` of a shape with an axis added is the product of the two.
pub proof fn lemma_volume_insert(dims: Seq<usize>, axis: int, len: usize)
    requires
        0 <= axis <= dims.len(),
    ensures
        volume(dims.insert(axis, len)) == volume(dims) * (if len == 0 {
            1nat
        } else {
            len as nat
        }),
{
    let wide = dims.insert(axis, len);
    lemma_volume_remove(wide, axis);
    assert(wide.remove(axis) =~= dims);
}

/// `volume` does not change when the axes are reversed.
pub proof fn lemma_volume_reversed(dims: Seq<usize>)
    ensures
        volume(reversed(dims)) == volume(dims),
    decreases dims.len(),
{
    if dims.len() > 0 {
        let rest = dims.drop_last();
        lemma_volume_reversed(rest);
        let rev = reversed(dims);
        lemma_volume_remove(rev, 0);
        assert(rev.remove(0) =~= reversed(rest));
        assert(rev[0] == dims.last());
    } else {
        assert(reversed(dims) =~= dims);
    }
}

/// Two shapes that broadcast each broadcast to the shape that they broadcast
/// to.
pub proof fn lemma_broadcast_dims(a: Seq<usize>, b: Seq<usize>)
    requires
        broadcastable(a, b),
    ensures
        broadcast_dims(a, b).len() >= a.len(),
        broadcast_dims(a, b).len() >= b.len(),
        forall|k: int|
            0 <= k < a.len() ==> #[trigger] a[k] == broadcast_dims(a, b)[k + (broadcast_dims(
                a,
                b,
            ).len() - a.len())] || a[k] == 1,
        forall|k: int|
            0 <= k < b.len() ==> #[trigger] b[k] == broadcast_dims(a, b)[k + (broadcast_dims(
                a,
                b,
            ).len() - b.len())] || b[k] == 1,
{
    let to = broadcast_dims(a, b);
    let n = to.len();
    assert forall|k: int| 0 <= k < a.len() implies #[trigger] a[k] == to[k + (n - a.len())]
        || a[k] == 1 by {
        let j = k + (n - a.len());
        let back = a.len() - 1 - k;
        if j - (n - b.len()) >= 0 {
            assert(a[a.len() - 1 - back] == a[k]);
            assert(b[b.len() - 1 - back] == b[j - (n - b.len())]);
        }
    }
    assert forall|k: int| 0 <= k < b.len() implies #[trigger] b[k] == to[k + (n - b.len())]
        || b[k] == 1 by {
        let j = k + (n - b.len());
        let back = b.len() - 1 - k;
        if j - (n - a.len()) >= 0 {
            assert(a[a.len() - 1 - back] == a[j - (n - a.len())]);
            assert(b[b.len() - 1 - back] == b[k]);
        }
    }
}

impl Shape {
    /// What holds of every shape: the product of the axis lengths that are
    /// not zero fits a `usize`.
    #[verifier::type_invariant]
    pub open spec fn bounded(&self) -> bool {
        volume(self@) <= usize::MAX
    }

    /// The shape with the axis lengths `dims`, or `None` where the product
    /// of the lengths that are not zero does not fit a `usize`.
    pub fn new(dims: Vec<usize>) -> (shape: Option<Shape>)
        ensures
            shape.is_some() <==> volume(dims@) <= usize::MAX,
            shape.is_some() ==> shape.unwrap()@ == dims@,
    {
        let mut acc: usize = 1;
        let mut k: usize = 0;
        while k < dims.len()
            invariant
                k <= dims.len(),
                acc == volume(dims@.take(k as int)),
            decreases dims.len() - k,
        {
            let d = dims[k];
            proof {
                assert(dims@.take(k + 1).drop_last() =~= dims@.take(k as int));
                lemma_volume_prefix(dims@, k + 1);
            }
            if d != 0 {
                match acc.checked_mul(d) {
                    Some(next) => {
                        acc = next;
                    },
                    None => {
                        return None;
                    },
                }
            }
            k += 1;
        }
        proof {
            assert(dims@.take(k as int) =~= dims@);
        }
        Some(Shape { dims })
    }

    /// The shape without axes, of a single cell.
    pub fn scalar() -> (shape: Shape)
        ensures
            shape@ == Seq::<usize>::empty(),
    {
        Shape { dims: Vec::new() }
    }

    /// The number of axes.
    pub fn ndim(&self) -> (n: usize)
        ensures
            n == self@.len(),
    {
        self.dims.len()
    }

    /// The length of axis `axis`.
    pub fn axis(&self, axis: usize) -> (len: usize)
        requires
            axis < self@.len(),
        ensures
            len == self@[axis as int],
    {
        self.dims[axis]
    }

    /// The axis lengths.
    pub fn dims(&self) -> (dims: Vec<usize>)
        ensures
            dims@ == self@,
    {
        copy_of(&self.dims)
    }

    /// The number of cells of a tensor of this shape.
    pub fn len(&self) -> (n: usize)
        ensures
            n == size(self@),
            volume(self@) <= usize::MAX,
    {
        proof {
            use_type_invariant(self);
        }
        let mut acc: usize = 1;
        let mut k: usize = 0;
        while k < self.dims.len()
            invariant
                k <= self.dims.len(),
                acc == size(self.dims@.take(k as int)),
                volume(self.dims@) <= usize::MAX,
            decreases self.dims.len() - k,
        {
            proof {
                let next = self.dims@.take(k + 1);
                assert(next.drop_last() =~= self.dims@.take(k as int));
                lemma_volume_prefix(self.dims@, k + 1);
                lemma_size_positive(next);
            }
            acc = acc * self.dims[k];
            k += 1;
        }
        proof {
            assert(self.dims@.take(k as int) =~= self.dims@);
        }
        acc
    }

    /// Whether the two shapes have the same axis lengths.
    pub fn same(&self, other: &Shape) -> (same: bool)
        ensures
            same == (self@ == other@),
    {
        same_dims(&self.dims, &other.dims)
    }

    /// A copy of the shape.
    pub fn duplicate(&self) -> (shape: Shape)
        ensures
            shape@ == self@,
    {
        proof {
            use_type_invariant(self);
        }
        Shape { dims: copy_of(&self.dims) }
    }

    /// The shape with an axis of length one put in at `axis`.
    pub fn insert_axis(&self, axis: usize) -> (shape: Shape)
        requires
            axis <= self@.len(),
        ensures
            shape@ == self@.insert(axis as int, 1),
    {
        proof {
            use_type_invariant(self);
            lemma_volume_insert(self.dims@, axis as int, 1);
        }
        Shape { dims: with_unit_axis(&self.dims, axis) }
    }

    /// The shape without the axis `axis`.
    pub fn remove_axis(&self, axis: usize) -> (shape: Shape)
        requires
            axis < self@.len(),
        ensures
            shape@ == self@.remove(axis as int),
    {
        proof {
            use_type_invariant(self);
            lemma_volume_remove(self.dims@, axis as int);
            let rest = volume(self.dims@.remove(axis as int)) as int;
            let x: int = if self.dims@[axis as int] == 0 {
                1
            } else {
                self.dims@[axis as int] as int
            };
            assert(rest <= rest * x) by (nonlinear_arith)
                requires
                    rest >= 0,
                    x >= 1,
            ;
        }
        let mut dims = copy_of(&self.dims);
        dims.remove(axis);
        Shape { dims }
    }

    /// The shape with the length of axis `axis` set to `len`, or `None` where
    /// that shape has no place in a `usize`.
    pub fn with_axis(&self, axis: usize, len: usize) -> (shape: Option<Shape>)
        requires
            axis < self@.len(),
        ensures
            shape.is_some() <==> volume(self@.update(axis as int, len)) <= usize::MAX,
            shape.is_some() ==> shape.unwrap()@ == self@.update(axis as int, len),
    {
        let mut dims = copy_of(&self.dims);
        dims[axis] = len;
        Shape::new(dims)
    }

    /// The shape with the axes in reverse order: that of the transposed
    /// tensor.
    pub fn transposed(&self) -> (shape: Shape)
        ensures
            shape@ == reversed(self@),
    {
        proof {
            use_type_invariant(self);
            lemma_volume_reversed(self.dims@);
        }
        let n = self.dims.len();
        let mut dims: Vec<usize> = Vec::with_capacity(n);
        let mut k: usize = 0;
        while k < n
            invariant
                k <= n,
                n == self.dims.len(),
                dims@.len() == k,
                forall|j: int| 0 <= j < k ==> dims@[j] == self.dims@[n - 1 - j],
            decreases n - k,
        {
            dims.push(self.dims[n - 1 - k]);
            k += 1;
        }
        proof {
            assert(dims@ =~= reversed(self.dims@));
        }
        Shape { dims }
    }

    /// The shape that this one and `other` broadcast to, or `None` where
    /// they do not broadcast or the result has no place in a `usize`.
    pub fn broadcast(&self, other: &Shape) -> (shape: Option<Shape>)
        ensures
            shape.is_some() <==> broadcastable(self@, other@) && volume(
                broadcast_dims(self@, other@),
            ) <= usize::MAX,
            shape.is_some() ==> shape.unwrap()@ == broadcast_dims(self@, other@),
    {
        let la = self.dims.len();
        let lb = other.dims.len();
        let n = if la >= lb {
            la
        } else {
            lb
        };
        let mut dims: Vec<usize> = Vec::with_capacity(n);
        let mut k: usize = 0;
        while k < n
            invariant
                k <= n,
                la == self.dims.len(),
                lb == other.dims.len(),
                n == if la >= lb {
                    la
                } else {
                    lb
                },
                dims@.len() == k,
                forall|j: int| 0 <= j < k ==> dims@[j] == broadcast_dims(self@, other@)[j],
                forall|j: int|
                    #![trigger self@[j - (n - la)]]
                    #![trigger other@[j - (n - lb)]]
                    0 <= j < k && j - (n - la) >= 0 && j - (n - lb) >= 0 ==> {
                        let x = self@[j - (n - la)];
                        let y = other@[j - (n - lb)];
                        x == y || x == 1 || y == 1
                    },
            decreases n - k,
        {
            if k < n - la {
                dims.push(other.dims[k - (n - lb)]);
            } else if k < n - lb {
                dims.push(self.dims[k - (n - la)]);
            } else {
                let x = self.dims[k - (n - la)];
                let y = other.dims[k - (n - lb)];
                if x != y && x != 1 && y != 1 {
                    proof {
                        let back = n - 1 - k;
                        assert(self@[self@.len() - 1 - back] == x);
                        assert(other@[other@.len() - 1 - back] == y);
                    }
                    return None;
                }
                dims.push(
                    if x == 1 {
                        y
                    } else {
                        x
                    },
                );
            }
            k += 1;
        }
        proof {
            assert(dims@ =~= broadcast_dims(self@, other@));
            assert forall|b: int|
                #![trigger self@[self@.len() - 1 - b]]
                #![trigger other@[other@.len() - 1 - b]]
                0 <= b < self@.len() && b < other@.len() implies {
                let x = self@[self@.len() - 1 - b];
                let y = other@[other@.len() - 1 - b];
                x == y || x == 1 || y == 1
            } by {
                let j = n - 1 - b;
                assert(self@[j - (n - la)] == self@[self@.len() - 1 - b]);
                assert(other@[j - (n - lb)] == other@[other@.len() - 1 - b]);
            }
        }
        Shape::new(dims)
    }
}

impl Shape {
    /// The shape with the one axis of length `len`.
    pub fn vector(len: usize) -> (shape: Shape)
        ensures
            shape@ == seq![len],
    {
        let mut dims: Vec<usize> = Vec::new();
        dims.push(len);
        proof {
            assert(dims@ =~= seq![len]);
            assert(dims@.drop_last() =~= Seq::<usize>::empty());
            assert(volume(dims@.drop_last()) == 1);
            assert(dims@.last() == len);
            assert(1 * (len as nat) == len as nat);
            assert(volume(dims@) == if len == 0 {
                1
            } else {
                len as nat
            });
        }
        Shape { dims }
    }

    /// The index that stands at `pos` in the row-major order of the indices
    /// of the shape.
    pub fn index_at(&self, pos: usize) -> (idx: Vec<usize>)
        requires
            pos < size(self@),
        ensures
            idx@.len() == self@.len(),
            idx@.map_values(|i: usize| i as int) == unravel(self@, pos as int),
            in_bounds(unravel(self@, pos as int), self@),
    {
        let n = self.dims.len();
        let mut idx: Vec<usize> = Vec::with_capacity(n);
        let mut k: usize = 0;
        while k < n
            invariant
                k <= n,
                idx@.len() == k,
            decreases n - k,
        {
            idx.push(0);
            k += 1;
        }
        let mut rem = pos;
        let ghost dims = self.dims@;
        proof {
            assert(dims.take(n as int) =~= dims);
            lemma_unravel_in_bounds(dims, pos as int);
        }
        while k > 0
            invariant
                k <= n,
                n == dims.len(),
                dims == self.dims@,
                idx@.len() == n,
                0 <= rem < size(dims.take(k as int)),
                unravel(dims.take(k as int), rem as int) =~= unravel(dims, pos as int).take(
                    k as int,
                ),
                unravel(dims, pos as int).len() == n,
                forall|j: int| k <= j < n ==> idx@[j] as int == unravel(dims, pos as int)[j],
            decreases k,
        {
            proof {
                let cur = dims.take(k as int);
                let rest = dims.take(k - 1);
                assert(cur.drop_last() =~= rest);
                let d = cur.last() as int;
                lemma_size_positive(cur);
                assert(cur[k - 1] > 0);
                assert(size(rest) * d == d * size(rest)) by (nonlinear_arith);
                lemma_multiply_divide_lt(rem as int, d, size(rest) as int);
                lemma_div_pos_is_pos(rem as int, d);
                lemma_mod_bound(rem as int, d);
                let whole = unravel(dims, pos as int);
                let part = unravel(cur, rem as int);
                assert(part.last() == rem as int % d);
                assert(part[k - 1] == whole.take(k as int)[k - 1]);
                assert(part.drop_last() =~= unravel(rest, rem as int / d));
                assert(whole.take(k as int).drop_last() =~= whole.take(k - 1));
            }
            k -= 1;
            let d = self.dims[k];
            idx[k] = rem % d;
            rem = rem / d;
        }
        proof {
            assert(idx@.map_values(|i: usize| i as int) =~= unravel(dims, pos as int));
        }
        idx
    }
}

/// `volume` does not shrink when axes grow.
pub proof fn lemma_volume_monotone(small: Seq<usize>, large: Seq<usize>)
    requires
        small.len() == large.len(),
        forall|k: int| 0 <= k < small.len() ==> #[trigger] small[k] <= large[k],
    ensures
        volume(small) <= volume(large),
    decreases small.len(),
{
    if small.len() > 0 {
        lemma_volume_monotone(small.drop_last(), large.drop_last());
        let n = small.len() - 1;
        assert(small[n] <= large[n]);
        lemma_size_positive(small.drop_last());
        lemma_size_positive(large.drop_last());
        let a = volume(small.drop_last()) as int;
        let b = volume(large.drop_last()) as int;
        let x: int = if small.last() == 0 {
            1
        } else {
            small.last() as int
        };
        let y: int = if large.last() == 0 {
            1
        } else {
            large.last() as int
        };
        assert(a * x <= b * y) by (nonlinear_arith)
            requires
                0 < a <= b,
                0 < x <= y,
        ;
        assert(a * 1 == a);
        assert(b * 1 == b);
    }
}

/// Reversing the axes twice gives the shape back, and reversing the
/// components of an index twice the index.
pub proof fn lemma_reversed_twice(dims: Seq<usize>, idx: Seq<int>)
    ensures
        reversed(reversed(dims)) == dims,
        reversed_index(reversed_index(idx)) == idx,
{
    assert(reversed(reversed(dims)) =~= dims);
    assert(reversed_index(reversed_index(idx)) =~= idx);
}

/// `ndarray::Dimension::insert_axis` on a dimension of any rank. The contract
/// claims what the source of `ndarray` shows for every `axis` up to the rank:
/// the result holds the given lengths in their order, with a length of one
/// put in at `axis`.
#[verifier::external_body]
fn with_unit_axis(dims: &Vec<usize>, axis: usize) -> (wide: Vec<usize>)
    requires
        axis <= dims@.len(),
    ensures
        wide@ == dims@.insert(axis as int, 1),
{
    let wide = ndarray::Dimension::insert_axis(&ndarray::IxDyn(dims), ndarray::Axis(axis));
    ndarray::Dimension::slice(&wide).to_vec()
}

/// A copy of a vector of lengths.
pub fn copy_of(v: &Vec<usize>) -> (copy: Vec<usize>)
    ensures
        copy@ == v@,
{
    let mut copy: Vec<usize> = Vec::with_capacity(v.len());
    let mut k: usize = 0;
    while k < v.len()
        invariant
            k <= v.len(),
            copy@ == v@.take(k as int),
        decreases v.len() - k,
    {
        copy.push(v[k]);
        proof {
            assert(copy@ =~= v@.take(k + 1));
        }
        k += 1;
    }
    proof {
        assert(v@.take(k as int) =~= v@);
    }
    copy
}

/// Whether two vectors of lengths hold the same lengths.
pub fn same_dims(a: &Vec<usize>, b: &Vec<usize>) -> (same: bool)
    ensures
        same == (a@ == b@),
{
    if a.len() != b.len() {
        return false;
    }
    let mut k: usize = 0;
    while k < a.len()
        invariant
            k <= a.len(),
            a.len() == b.len(),
            forall|j: int| 0 <= j < k ==> a@[j] == b@[j],
        decreases a.len() - k,
    {
        if a[k] != b[k] {
            return false;
        }
        k += 1;
    }
    proof {
        assert(a@ =~= b@);
    }
    true
}

} // verus!
