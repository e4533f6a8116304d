//! Keeps the integer abstraction closed: only the primitive integer types
//! implement it, so its contracts are proved for every implementation.

use vstd::prelude::*;

verus! {

/// Implemented by the primitive integer types only.
pub trait Sealed {
}

impl Sealed for u8 {
}

impl Sealed for u16 {
}

impl Sealed for u32 {
}

impl Sealed for u64 {
}

impl Sealed for u128 {
}

impl Sealed for usize {
}

impl Sealed for i8 {
}

impl Sealed for i16 {
}

impl Sealed for i32 {
}

impl Sealed for i64 {
}

impl Sealed for i128 {
}

impl Sealed for isize {
}

} // verus!
