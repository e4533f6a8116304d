//! Writing values into a bit vector as raw bits, without any coding.

use vstd::prelude::*;
use crate::bits::bits_value;
use crate::bits::bytes_bits;
use crate::bits::lemma_bits_value_low_bits;
use crate::bits::low_bits;
use crate::store::BitVec;
use crate::store::max_store_len;
use crate::word::RiceInt;
use crate::word::wrap;
use crate::word::unwrap;
use crate::word::lemma_wrap_unwrap;

verus! {

/// A value that can be appended to a bit vector as raw bits.
pub trait Encodable {
    /// The bits that `encode` appends.
    spec fn encoded_bits(&self) -> Seq<bool>;

    /// Appends the bits of `self` to `store`.
    fn encode(&self, store: &mut BitVec)
        requires
            old(store)@.len() + self.encoded_bits().len() <= max_store_len(),
        ensures
            final(store)@ == old(store)@ + self.encoded_bits(),
    ;

    /// The number of bits `encode` appends.
    fn len(&self) -> (r: usize)
        requires
            self.encoded_bits().len() <= usize::MAX,
        ensures
            r == self.encoded_bits().len(),
    ;

    /// Whether `encode` appends no bit at all.
    fn is_empty(&self) -> (r: bool)
        requires
            self.encoded_bits().len() <= usize::MAX,
        ensures
            r == (self.encoded_bits().len() == 0),
    {
        self.len() == 0
    }
}

/// Eight bits per byte.
pub proof fn lemma_bytes_bits_len(s: Seq<u8>)
    ensures
        bytes_bits(s).len() == s.len() * 8,
    decreases s.len(),
{
    if s.len() > 0 {
        lemma_bytes_bits_len(s.drop_first());
    }
}

/// A byte slice is written byte by byte, each byte least significant bit
/// first.
impl Encodable for [u8] {
    open spec fn encoded_bits(&self) -> Seq<bool> {
        bytes_bits(self@)
    }

    fn encode(&self, store: &mut BitVec) {
        proof {
            lemma_bytes_bits_len(self@);
        }
        store.append_bytes(self)
    }

    fn len(&self) -> (r: usize)
        ensures
            r == self@.len() * 8,
    {
        proof {
            lemma_bytes_bits_len(self@);
        }
        self.len() * 8
    }

    fn is_empty(&self) -> (r: bool)
        ensures
            r == (self@.len() == 0),
    {
        proof {
            lemma_bytes_bits_len(self@);
        }
        self.len() == 0
    }
}

/// An integer is written as all the bits of its two's complement pattern,
/// least significant first.
impl<T: RiceInt> Encodable for T {
    open spec fn encoded_bits(&self) -> Seq<bool> {
        low_bits(wrap(self.value(), T::width()), T::width())
    }

    fn encode(&self, store: &mut BitVec) {
        proof {
            T::lemma_width();
        }
        store.append_low_bits(self.to_raw(), T::width_bits() as usize)
    }

    fn len(&self) -> (r: usize)
        ensures
            r == T::width(),
    {
        proof {
            T::lemma_width();
        }
        T::width_bits() as usize
    }

    fn is_empty(&self) -> (r: bool)
        ensures
            !r,
    {
        proof {
            T::lemma_width();
        }
        false
    }
}

/// Reading back the bits an integer is written as gives its bit pattern,
/// which stands for the integer itself.
pub proof fn lemma_encoded_int_value<T: RiceInt>(v: T)
    ensures
        bits_value(v.encoded_bits()) == wrap(v.value(), T::width()),
        unwrap(bits_value(v.encoded_bits()), T::width(), T::signed()) == v.value(),
{
    T::lemma_width();
    v.lemma_value();
    lemma_wrap_unwrap(v.value(), T::width(), T::signed());
    lemma_bits_value_low_bits(wrap(v.value(), T::width()), T::width());
    vstd::arithmetic::div_mod::lemma_small_mod(
        wrap(v.value(), T::width()),
        vstd::arithmetic::power2::pow2(T::width()),
    );
}

/// An integer is written as exactly its width of bits, so it is never
/// empty: `len` is the width and `is_empty` is false.
pub proof fn lemma_encoded_int_len<T: RiceInt>(v: T)
    ensures
        v.encoded_bits().len() == T::width(),
        v.encoded_bits().len() > 0,
{
    T::lemma_width();
}

/// A byte slice is written as eight bits per byte whatever the bytes hold,
/// byte `i`'s bit `j` (that is, `(b / 2^j) % 2`) landing at position
/// `8 * i + j`.
pub proof fn lemma_byte_slice_encoding(s: &[u8])
    ensures
        s.encoded_bits().len() == 8 * s@.len(),
        forall|p: int|
            0 <= p < 8 * s@.len() ==> #[trigger] s.encoded_bits()[p] == ((s@[p / 8] as nat
                / vstd::arithmetic::power2::pow2((p % 8) as nat)) % 2 == 1),
{
    crate::bits::lemma_bytes_bits_index(s@);
}

} // verus!
