//! Batch math operations
//!
//! The same operation on every entry of an array. These are the portable
//! forms that an accelerated build has to match bit for bit.

use super::fixed_point::FixedPoint;
use super::vec2::Vec2;
use vstd::prelude::*;

verus! {

/// The smallest of three lengths.
pub open spec fn shortest(a: int, b: int, c: int) -> int {
    if a <= b && a <= c {
        a
    } else if b <= c {
        b
    } else {
        c
    }
}

/// The smallest of three lengths.
fn min3(a: usize, b: usize, c: usize) -> (r: usize)
    ensures
        r == shortest(a as int, b as int, c as int),
{
    if a <= b && a <= c {
        a
    } else if b <= c {
        b
    } else {
        c
    }
}

/// Batch add two arrays of Vec2
///
/// Entry `i` of `out` becomes `a[i] + b[i]` for every `i` below the length
/// of the shortest of the three; the rest of `out` stays.
pub fn vec2_add_batch(a: &[Vec2], b: &[Vec2], out: &mut [Vec2])
    ensures
        final(out)@.len() == old(out)@.len(),
        forall|i: int|
            0 <= i < shortest(a@.len() as int, b@.len() as int, old(out)@.len() as int)
                ==> #[trigger] final(out)@[i] == a@[i].spec_add(b@[i]),
        forall|i: int|
            shortest(a@.len() as int, b@.len() as int, old(out)@.len() as int) <= i
                < old(out)@.len() ==> #[trigger] final(out)@[i] == old(out)@[i],
{
    let count: usize = min3(a.len(), b.len(), out.len());
    let mut i: usize = 0;
    while i < count
        invariant
            i <= count,
            count == shortest(a@.len() as int, b@.len() as int, old(out)@.len() as int),
            out@.len() == old(out)@.len(),
            forall|k: int| 0 <= k < i ==> #[trigger] out@[k] == a@[k].spec_add(b@[k]),
            forall|k: int| i <= k < out@.len() ==> #[trigger] out@[k] == old(out)@[k],
        decreases count - i,
    {
        out[i] = a[i] + b[i];
        i += 1;
    }
}

/// Batch multiply Vec2 array by scalar
///
/// Entry `i` of `out` becomes `a[i] * scalar` for every `i` below the
/// length of the shorter of the two; the rest of `out` stays.
pub fn vec2_mul_scalar_batch(a: &[Vec2], scalar: FixedPoint, out: &mut [Vec2])
    ensures
        final(out)@.len() == old(out)@.len(),
        forall|i: int|
            0 <= i < shortest(a@.len() as int, a@.len() as int, old(out)@.len() as int)
                ==> #[trigger] final(out)@[i] == a@[i].spec_scale(scalar),
        forall|i: int|
            shortest(a@.len() as int, a@.len() as int, old(out)@.len() as int) <= i
                < old(out)@.len() ==> #[trigger] final(out)@[i] == old(out)@[i],
{
    let count: usize = min3(a.len(), a.len(), out.len());
    let mut i: usize = 0;
    while i < count
        invariant
            i <= count,
            count == shortest(a@.len() as int, a@.len() as int, old(out)@.len() as int),
            out@.len() == old(out)@.len(),
            forall|k: int| 0 <= k < i ==> #[trigger] out@[k] == a@[k].spec_scale(scalar),
            forall|k: int| i <= k < out@.len() ==> #[trigger] out@[k] == old(out)@[k],
        decreases count - i,
    {
        out[i] = a[i] * scalar;
        i += 1;
    }
}

/// Batch dot product
///
/// Entry `i` of `out` becomes `a[i] . b[i]` for every `i` below the length
/// of the shortest of the three; the rest of `out` stays.
pub fn dot_product_batch(a: &[Vec2], b: &[Vec2], out: &mut [FixedPoint])
    ensures
        final(out)@.len() == old(out)@.len(),
        forall|i: int|
            0 <= i < shortest(a@.len() as int, b@.len() as int, old(out)@.len() as int)
                ==> #[trigger] final(out)@[i] == a@[i].spec_dot(b@[i]),
        forall|i: int|
            shortest(a@.len() as int, b@.len() as int, old(out)@.len() as int) <= i
                < old(out)@.len() ==> #[trigger] final(out)@[i] == old(out)@[i],
{
    let count: usize = min3(a.len(), b.len(), out.len());
    let mut i: usize = 0;
    while i < count
        invariant
            i <= count,
            count == shortest(a@.len() as int, b@.len() as int, old(out)@.len() as int),
            out@.len() == old(out)@.len(),
            forall|k: int| 0 <= k < i ==> #[trigger] out@[k] == a@[k].spec_dot(b@[k]),
            forall|k: int| i <= k < out@.len() ==> #[trigger] out@[k] == old(out)@[k],
        decreases count - i,
    {
        out[i] = a[i].dot(b[i]);
        i += 1;
    }
}

/// Batch normalize
///
/// Entry `i` of `out` becomes `a[i]` normalized for every `i` below the
/// length of the shorter of the two; the rest of `out` stays.
pub fn normalize_batch(a: &[Vec2], out: &mut [Vec2])
    ensures
        final(out)@.len() == old(out)@.len(),
        forall|i: int|
            0 <= i < shortest(a@.len() as int, a@.len() as int, old(out)@.len() as int)
                ==> #[trigger] final(out)@[i] == a@[i].spec_normalize(),
        forall|i: int|
            shortest(a@.len() as int, a@.len() as int, old(out)@.len() as int) <= i
                < old(out)@.len() ==> #[trigger] final(out)@[i] == old(out)@[i],
{
    let count: usize = min3(a.len(), a.len(), out.len());
    let mut i: usize = 0;
    while i < count
        invariant
            i <= count,
            count == shortest(a@.len() as int, a@.len() as int, old(out)@.len() as int),
            out@.len() == old(out)@.len(),
            forall|k: int| 0 <= k < i ==> #[trigger] out@[k] == a@[k].spec_normalize(),
            forall|k: int| i <= k < out@.len() ==> #[trigger] out@[k] == old(out)@[k],
        decreases count - i,
    {
        out[i] = a[i].normalize();
        i += 1;
    }
}

/// Array of Vec2 for the batch operations
pub struct Vec2Array {
    pub data: Vec<Vec2>,
}

impl Vec2Array {
    /// An empty array with room for `capacity` entries.
    pub fn new(capacity: usize) -> (r: Self)
        ensures
            r.data@ == Seq::<Vec2>::empty(),
    {
        Vec2Array { data: Vec::with_capacity(capacity) }
    }

    pub fn from_vec(data: Vec<Vec2>) -> (r: Self)
        ensures
            r.data == data,
    {
        Vec2Array { data }
    }

    pub fn len(&self) -> (r: usize)
        ensures
            r == self.data@.len(),
    {
        self.data.len()
    }

    pub fn is_empty(&self) -> (r: bool)
        ensures
            r == (self.data@.len() == 0),
    {
        self.data.len() == 0
    }

    pub fn push(&mut self, v: Vec2)
        ensures
            final(self).data@ == old(self).data@.push(v),
    {
        self.data.push(v);
    }

    pub fn clear(&mut self)
        ensures
            final(self).data@ == Seq::<Vec2>::empty(),
    {
        self.data.clear();
    }
}

} // verus!
