//! The random source that fault simulation draws from.

use vstd::prelude::*;

verus! {

/// `rand::random` draws a value from the thread-local generator that the
/// system seeds. Nothing is claimed of the value: any value of the type may
/// come back, and two draws need not agree.
pub assume_specification<T>[ rand::random::<T> ]() -> (value: T)
    where rand::distributions::Standard: rand::distributions::Distribution<T>
;

} // verus!
