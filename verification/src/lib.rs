//! Rice-Golomb coding for Rust.
//!
//! Each value is split into a quotient, written in unary, and a remainder,
//! written in fixed-width binary using `EXPECTED_MAX_BITS` bits. The scheme
//! is best suited to data whose magnitudes tend to be small, such as
//! residual signals in audio or image codecs.
//!
//! Non-negative values of all signed and unsigned integer types can be
//! encoded and decoded through the [`Rice`] trait. The [`Encoder`] type
//! bundles the choice of integer type and remainder width into a single
//! generic entry point. For pushing raw bits into a bit vector without Rice
//! coding, see the [`Encodable`] trait.

mod sealed;
pub mod bits;
pub mod store;
pub mod word;
pub mod rice;
pub mod encodable;

use std::marker::PhantomData;
use vstd::prelude::*;
use crate::bits::leading_ones;
use crate::bits::rice_code;
use crate::bits::rice_split;
use crate::rice::combine;
use crate::word::max_value;

pub use crate::encodable::Encodable;
pub use crate::rice::Rice;
pub use crate::rice::RiceAux;
pub use crate::store::BitSlice;
pub use crate::store::BitVec;
pub use crate::word::RiceInt;

verus! {

/// Rice-Golomb encoder/decoder parameterized by integer type and remainder
/// width.
///
/// `EXPECTED_MAX_BITS` is the number of bits used to store the remainder of
/// each coded value; it must be below the width of `I`. Wider remainders
/// favour larger values, narrower ones smaller values. `Encoder` holds no
/// state: it is a namespace for [`encode`](Self::encode),
/// [`decode`](Self::decode) and [`decode_and_skip`](Self::decode_and_skip).
pub struct Encoder<I, const EXPECTED_MAX_BITS: u32> {
    _marker: PhantomData<I>,
}

impl<I: Rice, const EXPECTED_MAX_BITS: u32> Encoder<I, EXPECTED_MAX_BITS> {
    /// Appends the Rice-Golomb code of `encodable` to `store`; the
    /// remainder takes `EXPECTED_MAX_BITS` bits. The value must not be
    /// negative.
    pub fn encode(encodable: &I, store: &mut BitVec)
        requires
            EXPECTED_MAX_BITS < I::width(),
            encodable.value() >= 0,
            old(store)@.len() + rice_code(encodable.value() as nat, EXPECTED_MAX_BITS as nat).len()
                <= store::max_store_len(),
        ensures
            final(store)@ == old(store)@ + rice_code(
                encodable.value() as nat,
                EXPECTED_MAX_BITS as nat,
            ),
    {
        encodable.rice_encode::<EXPECTED_MAX_BITS>(store);
    }

    /// Decodes a single value from the front of `store`; the remainder
    /// takes `EXPECTED_MAX_BITS` bits. Returns `None` if `store` does not
    /// contain enough bits to decode a full value. A full code's quotient
    /// is counted in `I`, so it may not exceed `I`'s largest value. When
    /// decoding several values packed back to back, advance through the
    /// bits by the count that [`Encoder::decode_and_skip`] returns.
    pub fn decode(store: &BitSlice) -> (res: Option<I>)
        requires
            EXPECTED_MAX_BITS < I::width(),
            rice_split(store@, EXPECTED_MAX_BITS as nat) is Some ==> leading_ones(store@)
                <= max_value(I::width(), I::signed()),
        ensures
            match rice_split(store@, EXPECTED_MAX_BITS as nat) {
                None => res is None,
                Some((q, r, n)) => res matches Some(v) && v.value() == combine(
                    q,
                    r,
                    EXPECTED_MAX_BITS as nat,
                    I::width(),
                    I::signed(),
                ),
            },
    {
        match I::rice_decode::<EXPECTED_MAX_BITS>(store) {
            Some((decoded, _)) => Some(decoded),
            None => None,
        }
    }

    /// Decodes a single value from the front of `store`, and returns it
    /// with the number of bits its code takes, which is how far to skip to
    /// reach the next value in a stream. Returns `None` if `store` does not
    /// contain enough bits to decode a full value. A full code's quotient
    /// is counted in `I`, so it may not exceed `I`'s largest value.
    pub fn decode_and_skip(store: &BitSlice) -> (res: Option<(I, usize)>)
        requires
            EXPECTED_MAX_BITS < I::width(),
            rice_split(store@, EXPECTED_MAX_BITS as nat) is Some ==> leading_ones(store@)
                <= max_value(I::width(), I::signed()),
        ensures
            match rice_split(store@, EXPECTED_MAX_BITS as nat) {
                None => res is None,
                Some((q, r, n)) => res matches Some((v, skip)) && skip == n && v.value()
                    == combine(q, r, EXPECTED_MAX_BITS as nat, I::width(), I::signed()),
            },
    {
        I::rice_decode::<EXPECTED_MAX_BITS>(store)
    }
}

} // verus!
