//! A fixed-dimension vector of scalars with exact element-wise arithmetic.

use vstd::prelude::*;

verus! {

use crate::numeric::{fhalf, fixed_fits, fmul, Fixed, Numeric};

broadcast use vstd::array::group_array_axioms;

/// A `DIMS`-dimensional vector. Its view is the sequence of its elements.
#[derive(Debug, Copy, Clone, PartialEq, Eq)]
pub struct Vector<T, const DIMS: usize>(pub [T; DIMS]);

impl<T, const DIMS: usize> View for Vector<T, DIMS> {
    type V = Seq<T>;

    open spec fn view(&self) -> Seq<T> {
        self.0@
    }
}

impl<T, const DIMS: usize> Vector<T, DIMS> {
    /// Wraps a raw array as a vector.
    pub fn new(data: [T; DIMS]) -> (r: Self)
        ensures
            r@ == data@,
    {
        Vector(data)
    }

    /// The underlying array.
    pub fn as_array(&self) -> (r: &[T; DIMS])
        ensures
            r@ == self@,
    {
        &self.0
    }

    /// The underlying array, by value.
    pub fn into_array(self) -> (r: [T; DIMS])
        ensures
            r@ == self@,
    {
        self.0
    }

    /// Replaces the element at `idx`.
    pub fn set(&mut self, idx: usize, value: T)
        requires
            idx < DIMS,
        ensures
            final(self)@ == old(self)@.update(idx as int, value),
    {
        self.0[idx] = value;
    }
}

impl<T: Copy, const DIMS: usize> Vector<T, DIMS> {
    /// The element at `idx`.
    pub fn get(&self, idx: usize) -> (r: T)
        requires
            idx < DIMS,
        ensures
            r == self@[idx as int],
    {
        self.0[idx]
    }

    /// A vector whose every element is `value`.
    pub fn broadcast(value: T) -> (r: Self)
        ensures
            r@.len() == DIMS,
            forall|i: int| 0 <= i < DIMS ==> r@[i] == value,
    {
        Vector([value; DIMS])
    }
}

impl<T: Copy, const DIMS: usize> Vector<T, DIMS> {
    /// Produces a vector by applying `update_fn` to each index and the
    /// element at it.
    pub fn update(self, update_fn: impl Fn(usize, T) -> T) -> (r: Self)
        requires
            forall|i: usize| i < DIMS ==> call_requires(update_fn, (i, self@[i as int])),
        ensures
            r@.len() == DIMS,
            forall|i: int|
                0 <= i < DIMS ==> call_ensures(update_fn, (i as usize, self@[i]), #[trigger] r@[i]),
    {
        let mut out = self;
        let mut i: usize = 0;
        while i < DIMS
            invariant
                i <= DIMS,
                out@.len() == DIMS,
                forall|j: usize| j < DIMS ==> call_requires(update_fn, (j, self@[j as int])),
                forall|j: int|
                    0 <= j < i ==> call_ensures(
                        update_fn,
                        (j as usize, self@[j]),
                        #[trigger] out@[j],
                    ),
                forall|j: int| #![trigger out@[j]] i <= j < DIMS ==> out@[j] == self@[j],
            decreases DIMS - i,
        {
            out.set(i, update_fn(i, self.get(i)));
            i += 1;
        }
        out
    }
}

impl<T: Numeric, const DIMS: usize> Vector<T, DIMS> {
    /// The all-zero vector.
    pub fn zero() -> (r: Self)
        ensures
            r@.len() == DIMS,
            forall|i: int| 0 <= i < DIMS ==> (#[trigger] r@[i]).as_int() == 0,
    {
        Vector([T::num_zero(); DIMS])
    }

    /// The basis vector along dimension `idx`: one there, zero elsewhere.
    pub fn basis(idx: usize) -> (r: Self)
        requires
            idx < DIMS,
        ensures
            r@.len() == DIMS,
            r@[idx as int].as_int() == 1,
            forall|i: int| 0 <= i < DIMS && i != idx ==> (#[trigger] r@[i]).as_int() == 0,
    {
        let mut out = Self::zero();
        out.set(idx, T::num_one());
        out
    }

    /// Element-wise exact addition.
    pub fn add(self, rhs: Self) -> (r: Self)
        requires
            forall|i: int| #![trigger self@[i], rhs@[i]]
                0 <= i < DIMS ==> T::min_val() <= self@[i].as_int() + rhs@[i].as_int()
                    <= T::max_val(),
        ensures
            r@.len() == DIMS,
            forall|i: int| #![trigger r@[i]]
                0 <= i < DIMS ==> r@[i].as_int() == self@[i].as_int() + rhs@[i].as_int(),
    {
        let mut out = self;
        let mut i: usize = 0;
        while i < DIMS
            invariant
                i <= DIMS,
                out@.len() == DIMS,
                forall|j: int| #![trigger self@[j], rhs@[j]]
                    0 <= j < DIMS ==> T::min_val() <= self@[j].as_int() + rhs@[j].as_int()
                        <= T::max_val(),
                forall|j: int| #![trigger out@[j]]
                    0 <= j < i ==> out@[j].as_int() == self@[j].as_int() + rhs@[j].as_int(),
                forall|j: int| #![trigger out@[j]] i <= j < DIMS ==> out@[j] == self@[j],
            decreases DIMS - i,
        {
            out.set(i, self.get(i).num_add(rhs.get(i)));
            i += 1;
        }
        out
    }

    /// Element-wise exact subtraction.
    pub fn sub(self, rhs: Self) -> (r: Self)
        requires
            forall|i: int| #![trigger self@[i], rhs@[i]]
                0 <= i < DIMS ==> T::min_val() <= self@[i].as_int() - rhs@[i].as_int()
                    <= T::max_val(),
        ensures
            r@.len() == DIMS,
            forall|i: int| #![trigger r@[i]]
                0 <= i < DIMS ==> r@[i].as_int() == self@[i].as_int() - rhs@[i].as_int(),
    {
        let mut out = self;
        let mut i: usize = 0;
        while i < DIMS
            invariant
                i <= DIMS,
                out@.len() == DIMS,
                forall|j: int| #![trigger self@[j], rhs@[j]]
                    0 <= j < DIMS ==> T::min_val() <= self@[j].as_int() - rhs@[j].as_int()
                        <= T::max_val(),
                forall|j: int| #![trigger out@[j]]
                    0 <= j < i ==> out@[j].as_int() == self@[j].as_int() - rhs@[j].as_int(),
                forall|j: int| #![trigger out@[j]] i <= j < DIMS ==> out@[j] == self@[j],
            decreases DIMS - i,
        {
            out.set(i, self.get(i).num_sub(rhs.get(i)));
            i += 1;
        }
        out
    }
}

impl<const DIMS: usize> Vector<bool, DIMS> {
    /// Whether every element is true.
    pub fn all(self) -> (r: bool)
        ensures
            r == (forall|i: int| 0 <= i < DIMS ==> self@[i]),
    {
        let mut i: usize = 0;
        while i < DIMS
            invariant
                i <= DIMS,
                forall|j: int| 0 <= j < i ==> self@[j],
            decreases DIMS - i,
        {
            if !self.get(i) {
                return false;
            }
            i += 1;
        }
        true
    }

    /// Whether at least one element is true.
    pub fn any(self) -> (r: bool)
        ensures
            r == (exists|i: int| 0 <= i < DIMS && self@[i]),
    {
        let mut i: usize = 0;
        while i < DIMS
            invariant
                i <= DIMS,
                forall|j: int| 0 <= j < i ==> !self@[j],
            decreases DIMS - i,
        {
            if self.get(i) {
                return true;
            }
            i += 1;
        }
        false
    }
}

impl<const DIMS: usize> Vector<Fixed, DIMS> {
    /// Element-wise fixed-point multiplication by the scalar `k`.
    pub fn scale(self, k: Fixed) -> (r: Self)
        requires
            forall|i: int| 0 <= i < DIMS ==> fixed_fits(fmul((#[trigger] self@[i])@, k@)),
        ensures
            r@.len() == DIMS,
            forall|i: int| 0 <= i < DIMS ==> (#[trigger] r@[i])@ == fmul(self@[i]@, k@),
    {
        let mut out = self;
        let mut i: usize = 0;
        while i < DIMS
            invariant
                i <= DIMS,
                out@.len() == DIMS,
                forall|j: int| 0 <= j < DIMS ==> fixed_fits(fmul((#[trigger] self@[j])@, k@)),
                forall|j: int| 0 <= j < i ==> (#[trigger] out@[j])@ == fmul(self@[j]@, k@),
                forall|j: int| #![trigger out@[j]] i <= j < DIMS ==> out@[j] == self@[j],
            decreases DIMS - i,
        {
            out.set(i, self.get(i).mul(k));
            i += 1;
        }
        out
    }

    /// Element-wise negation.
    pub fn neg(self) -> (r: Self)
        requires
            forall|i: int| 0 <= i < DIMS ==> fixed_fits(-(#[trigger] self@[i])@),
        ensures
            r@.len() == DIMS,
            forall|i: int| 0 <= i < DIMS ==> (#[trigger] r@[i])@ == -self@[i]@,
    {
        let mut out = self;
        let mut i: usize = 0;
        while i < DIMS
            invariant
                i <= DIMS,
                out@.len() == DIMS,
                forall|j: int| 0 <= j < DIMS ==> fixed_fits(-(#[trigger] self@[j])@),
                forall|j: int| 0 <= j < i ==> (#[trigger] out@[j])@ == -self@[j]@,
                forall|j: int| #![trigger out@[j]] i <= j < DIMS ==> out@[j] == self@[j],
            decreases DIMS - i,
        {
            out.set(i, self.get(i).neg());
            i += 1;
        }
        out
    }

    /// Element-wise halving, truncated toward zero.
    pub fn half(self) -> (r: Self)
        ensures
            r@.len() == DIMS,
            forall|i: int| 0 <= i < DIMS ==> (#[trigger] r@[i])@ == fhalf(self@[i]@),
    {
        let mut out = self;
        let mut i: usize = 0;
        while i < DIMS
            invariant
                i <= DIMS,
                out@.len() == DIMS,
                forall|j: int| 0 <= j < i ==> (#[trigger] out@[j])@ == fhalf(self@[j]@),
                forall|j: int| #![trigger out@[j]] i <= j < DIMS ==> out@[j] == self@[j],
            decreases DIMS - i,
        {
            out.set(i, self.get(i).half());
            i += 1;
        }
        out
    }
}

} // verus!
