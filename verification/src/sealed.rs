//! Which types may have a serialized form. The module is private, so no other
//! crate can add to them.
use vstd::prelude::*;

verus! {

/// A type whose serialized form is written down in this library.
pub trait Sealed {

}

impl Sealed for u8 {

}

impl Sealed for u64 {

}

impl Sealed for u128 {

}

impl Sealed for () {

}

impl<T> Sealed for Option<T> {

}

impl<A, B> Sealed for Result<A, B> {

}

impl<A, B> Sealed for (A, B) {

}

impl<A, B, C> Sealed for (A, B, C) {

}

impl<T> Sealed for Vec<T> {

}

} // verus!
