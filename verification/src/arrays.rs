//! The contract of the std function that builds the fixed-size arrays of this
//! library. Verus takes it on trust.

use vstd::prelude::*;

verus! {

/// `core::array::from_fn` calls `f` once for each index of the array, in
/// index order, and stores what the call for index `i` returned at index `i`.
pub assume_specification<T, const N: usize, F: FnMut(usize) -> T>[ core::array::from_fn::<
    T,
    N,
    F,
> ](f: F) -> (out: [T; N])
    requires
        forall|i: usize| i < N ==> call_requires(f, (i,)),
    ensures
        forall|i: int| 0 <= i < N ==> call_ensures(f, (i as usize,), #[trigger] out@[i]),
;

} // verus!
