use vstd::prelude::*;

use crate::error::Error;

verus! {

/// A list of exactly `N` values of `T`.
#[derive(Debug, PartialEq, Eq, Hash)]
pub struct FixedVector<T, const N: usize> {
    vec: Vec<T>,
}

impl<T, const N: usize> View for FixedVector<T, N> {
    type V = Seq<T>;

    closed spec fn view(&self) -> Seq<T> {
        self.vec@
    }
}

impl<T: Clone, const N: usize> Clone for FixedVector<T, N> {
    fn clone(&self) -> (c: Self)
        ensures
            c@.len() == self@.len(),
            forall|i: int| 0 <= i < self@.len() ==> cloned::<T>(self@[i], #[trigger] c@[i]),
    {
        proof {
            use_type_invariant(self);
        }
        FixedVector { vec: self.vec.clone() }
    }
}

impl<T, const N: usize> FixedVector<T, N> {
    #[verifier::type_invariant]
    spec fn inv(self) -> bool {
        self.vec@.len() == N
    }

    /// Create a vector from a `Vec`, returning an error unless it holds exactly `N` values.
    pub fn new(vec: Vec<T>) -> (r: Result<Self, Error>)
        ensures
            r is Ok <==> vec@.len() == N,
            r matches Ok(v) ==> v@ == vec@,
            r is Err ==> r == Err::<Self, Error>(Error::OutOfBounds { i: vec@.len() as usize, len: N }),
    {
        if vec.len() == N {
            Ok(FixedVector { vec })
        } else {
            Err(Error::OutOfBounds { i: vec.len(), len: N })
        }
    }

    /// The number of values, always `N`.
    pub fn len(&self) -> (n: usize)
        ensures
            n == N,
            self@.len() == N,
    {
        proof {
            use_type_invariant(self);
        }
        self.vec.len()
    }

    /// The contents as a slice.
    pub fn as_slice(&self) -> (s: &[T])
        ensures
            s@ == self@,
            self@.len() == N,
    {
        proof {
            use_type_invariant(self);
        }
        self.vec.as_slice()
    }

    /// Consumes the vector, returning the underlying `Vec`.
    pub fn into_vec(self) -> (v: Vec<T>)
        ensures
            v@ == self@,
            v@.len() == N,
    {
        proof {
            use_type_invariant(&self);
        }
        self.vec
    }
}

} // verus!
