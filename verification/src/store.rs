//! Bit vectors that encoded values are written into, and read-only views of
//! runs of their bits that values are decoded from.
//!
//! The bits live in a `bitvec` bit vector (`usize` storage, least
//! significant bit first). The functions marked `external_body` below each
//! make one call into `bitvec`; their contracts describe that call in terms
//! of `stored_bits`, the sequence of bits the vector holds.

use vstd::prelude::*;
use bitvec::field::BitField;
use bitvec::order::Lsb0;
use crate::bits::bits_value;
use crate::bits::bytes_bits;
use crate::bits::low_bits;

verus! {

/// The most bits a vector can hold (`bitvec` keeps a bit count in the high
/// bits of a `usize` with three bits to spare).
pub open spec fn max_store_len() -> nat {
    (usize::MAX as nat) / 8
}

/// A growable vector of bits.
#[verifier::external_body]
pub struct BitVec {
    bits: bitvec::vec::BitVec<usize, Lsb0>,
}

/// The bits a vector holds, in index order.
pub uninterp spec fn stored_bits(v: BitVec) -> Seq<bool>;

impl View for BitVec {
    type V = Seq<bool>;

    open spec fn view(&self) -> Seq<bool> {
        stored_bits(*self)
    }
}

/// `bitvec::vec::BitVec::new`: an empty vector.
#[verifier::external_body]
fn bv_new() -> (r: BitVec)
    ensures
        stored_bits(r) == Seq::<bool>::empty(),
{
    BitVec { bits: bitvec::vec::BitVec::new() }
}

/// `bitvec::vec::BitVec::len`: the number of bits held, which never exceeds
/// the largest encodable length (`bitvec` checks it on every growth).
#[verifier::external_body]
fn bv_len(v: &BitVec) -> (r: usize)
    ensures
        r == stored_bits(*v).len(),
        r <= max_store_len(),
{
    v.bits.len()
}

/// `bitvec::vec::BitVec::push`: appends one bit. It panics when the vector
/// would exceed its largest encodable length, which `requires` leaves out.
#[verifier::external_body]
fn bv_push(v: &mut BitVec, bit: bool)
    requires
        stored_bits(*old(v)).len() + 1 <= max_store_len(),
    ensures
        stored_bits(*final(v)) == stored_bits(*old(v)).push(bit),
{
    v.bits.push(bit)
}

/// `bitvec::vec::BitVec::clear`: removes every bit.
#[verifier::external_body]
fn bv_clear(v: &mut BitVec)
    ensures
        stored_bits(*final(v)) == Seq::<bool>::empty(),
{
    v.bits.clear()
}

/// `bitvec::vec::BitVec::resize`: grows the vector with copies of `bit`, or
/// truncates it, to `new_len` bits.
#[verifier::external_body]
fn bv_resize(v: &mut BitVec, new_len: usize, bit: bool)
    requires
        new_len <= max_store_len(),
    ensures
        new_len <= stored_bits(*old(v)).len() ==> stored_bits(*final(v)) == stored_bits(*old(v)).take(new_len as int),
        new_len > stored_bits(*old(v)).len() ==> stored_bits(*final(v)) == stored_bits(*old(v)) + Seq::new(
            (new_len - stored_bits(*old(v)).len()) as nat,
            |i: int| bit,
        ),
{
    v.bits.resize(new_len, bit)
}

/// Indexing a `bitvec` bit slice: the bit at `i`.
#[verifier::external_body]
fn bv_get(v: &BitVec, i: usize) -> (r: bool)
    requires
        i < stored_bits(*v).len(),
    ensures
        r == stored_bits(*v)[i as int],
{
    v.bits[i]
}

/// `BitField::store_le` on `bits[start..]` (with `Lsb0` order): overwrites
/// the bits from `start` to the end with the low bits of `value`, least
/// significant first. It panics unless the range holds 1 to 128 bits, which
/// `requires` leaves out.
#[verifier::external_body]
fn bv_store_le(v: &mut BitVec, start: usize, value: u128)
    requires
        start < stored_bits(*old(v)).len(),
        stored_bits(*old(v)).len() - start <= 128,
    ensures
        stored_bits(*final(v)) == stored_bits(*old(v)).take(start as int) + low_bits(
            value as nat,
            (stored_bits(*old(v)).len() - start) as nat,
        ),
{
    v.bits[start..].store_le::<u128>(value)
}

/// `BitField::load_le` on `bits[start..end]` (with `Lsb0` order, into an
/// unsigned `u128`): the number those bits stand for, the bit at `start`
/// being the least significant. It panics unless the range holds 1 to 128
/// bits, which `requires` leaves out.
#[verifier::external_body]
fn bv_load_le(v: &BitVec, start: usize, end: usize) -> (r: u128)
    requires
        start < end <= stored_bits(*v).len(),
        end - start <= 128,
    ensures
        r == bits_value(stored_bits(*v).subrange(start as int, end as int)),
{
    v.bits[start..end].load_le::<u128>()
}

/// `bitvec::vec::BitVec::extend_from_bitslice` with the bits of `bytes`
/// (viewed through `BitSlice::from_slice` in `Lsb0` order): appends each
/// byte's eight bits, least significant first.
#[verifier::external_body]
fn bv_extend_from_bytes(v: &mut BitVec, bytes: &[u8])
    requires
        stored_bits(*old(v)).len() + bytes@.len() * 8 <= max_store_len(),
    ensures
        stored_bits(*final(v)) == stored_bits(*old(v)) + bytes_bits(bytes@),
{
    v.bits.extend_from_bitslice(bitvec::slice::BitSlice::<u8, Lsb0>::from_slice(bytes))
}

impl BitVec {
    /// An empty vector.
    pub fn new() -> (r: BitVec)
        ensures
            r@ == Seq::<bool>::empty(),
    {
        bv_new()
    }

    /// The number of bits held; a vector never holds more than
    /// `max_store_len()` bits.
    pub fn len(&self) -> (r: usize)
        ensures
            r == self@.len(),
            r <= max_store_len(),
    {
        bv_len(self)
    }

    /// Whether no bit is held.
    pub fn is_empty(&self) -> (r: bool)
        ensures
            r == (self@.len() == 0),
    {
        bv_len(self) == 0
    }

    /// Removes every bit.
    pub fn clear(&mut self)
        ensures
            final(self)@ == Seq::<bool>::empty(),
    {
        bv_clear(self)
    }

    /// Appends one bit.
    pub fn push(&mut self, bit: bool)
        requires
            old(self)@.len() + 1 <= max_store_len(),
        ensures
            final(self)@ == old(self)@.push(bit),
    {
        bv_push(self, bit)
    }

    /// The bit at `i`, if there is one.
    pub fn get(&self, i: usize) -> (r: Option<bool>)
        ensures
            i < self@.len() ==> r == Some(self@[i as int]),
            i >= self@.len() ==> r is None,
    {
        if i < bv_len(self) {
            Some(bv_get(self, i))
        } else {
            None
        }
    }

    /// Appends the `n` low bits of `value`, least significant first.
    pub(crate) fn append_low_bits(&mut self, value: u128, n: usize)
        requires
            n <= 128,
            old(self)@.len() + n <= max_store_len(),
        ensures
            final(self)@ == old(self)@ + low_bits(value as nat, n as nat),
    {
        if n > 0 {
            let start = bv_len(self);
            bv_resize(self, start + n, false);
            bv_store_le(self, start, value);
            assert(self@.take(start as int) =~= old(self)@);
        } else {
            assert(low_bits(value as nat, 0) =~= Seq::<bool>::empty());
            assert(self@ =~= old(self)@ + low_bits(value as nat, n as nat));
        }
    }

    /// Appends the bits of `bytes`, each byte least significant bit first.
    pub(crate) fn append_bytes(&mut self, bytes: &[u8])
        requires
            old(self)@.len() + bytes@.len() * 8 <= max_store_len(),
        ensures
            final(self)@ == old(self)@ + bytes_bits(bytes@),
    {
        bv_extend_from_bytes(self, bytes)
    }

    /// A view of all the bits.
    pub fn as_bitslice(&self) -> (r: BitSlice<'_>)
        ensures
            r@ == self@,
    {
        let r = BitSlice { store: self, start: 0, end: bv_len(self) };
        assert(r@ =~= self@);
        r
    }

    /// A view of the bits from `start` on; none when `start` is past the end.
    pub fn slice_from(&self, start: usize) -> (r: Option<BitSlice<'_>>)
        ensures
            start <= self@.len() ==> (r matches Some(t) && t@ == self@.skip(start as int)),
            start > self@.len() ==> r is None,
    {
        let n = bv_len(self);
        if start <= n {
            let r = BitSlice { store: self, start, end: n };
            assert(r@ =~= self@.skip(start as int));
            Some(r)
        } else {
            None
        }
    }

    /// A view of the bits from `start` up to `end`; none unless
    /// `start <= end <= len`.
    pub fn slice(&self, start: usize, end: usize) -> (r: Option<BitSlice<'_>>)
        ensures
            start <= end <= self@.len() ==> (r matches Some(t) && t@ == self@.subrange(
                start as int,
                end as int,
            )),
            !(start <= end <= self@.len()) ==> r is None,
    {
        if start <= end && end <= bv_len(self) {
            Some(BitSlice { store: self, start, end })
        } else {
            None
        }
    }
}

/// A read-only view of a run of consecutive bits of a bit vector.
pub struct BitSlice<'a> {
    store: &'a BitVec,
    start: usize,
    end: usize,
}

impl<'a> BitSlice<'a> {
    #[verifier::type_invariant]
    spec fn inv(self) -> bool {
        self.start <= self.end <= self.store@.len()
    }
}

impl<'a> View for BitSlice<'a> {
    type V = Seq<bool>;

    closed spec fn view(&self) -> Seq<bool> {
        self.store@.subrange(self.start as int, self.end as int)
    }
}

impl<'a> BitSlice<'a> {
    /// The number of bits in view, which never exceeds `max_store_len()`.
    pub fn len(&self) -> (r: usize)
        ensures
            r == self@.len(),
            r <= max_store_len(),
    {
        proof {
            use_type_invariant(self);
        }
        let _total = bv_len(self.store);
        self.end - self.start
    }

    /// Whether no bit is in view.
    pub fn is_empty(&self) -> (r: bool)
        ensures
            r == (self@.len() == 0),
    {
        self.len() == 0
    }

    /// The bit at `i`, if there is one.
    pub fn get(&self, i: usize) -> (r: Option<bool>)
        ensures
            i < self@.len() ==> r == Some(self@[i as int]),
            i >= self@.len() ==> r is None,
    {
        proof {
            use_type_invariant(self);
        }
        if i < self.end - self.start {
            Some(bv_get(self.store, self.start + i))
        } else {
            None
        }
    }

    /// A view of the bits from `start` on; none when `start` is past the end.
    pub fn slice_from(&self, start: usize) -> (r: Option<BitSlice<'a>>)
        ensures
            start <= self@.len() ==> (r matches Some(t) && t@ == self@.skip(start as int)),
            start > self@.len() ==> r is None,
    {
        proof {
            use_type_invariant(self);
        }
        if start <= self.end - self.start {
            let r = BitSlice { store: self.store, start: self.start + start, end: self.end };
            assert(r@ =~= self@.skip(start as int));
            Some(r)
        } else {
            None
        }
    }

    /// A view of the bits from `start` up to `end`; none unless
    /// `start <= end <= len`.
    pub fn slice(&self, start: usize, end: usize) -> (r: Option<BitSlice<'a>>)
        ensures
            start <= end <= self@.len() ==> (r matches Some(t) && t@ == self@.subrange(
                start as int,
                end as int,
            )),
            !(start <= end <= self@.len()) ==> r is None,
    {
        proof {
            use_type_invariant(self);
        }
        if start <= end && end <= self.end - self.start {
            let r = BitSlice { store: self.store, start: self.start + start, end: self.start + end };
            assert(r@ =~= self@.subrange(start as int, end as int));
            Some(r)
        } else {
            None
        }
    }

    /// The number that the bits from `start` to `end` stand for, the bit at
    /// `start` being the least significant.
    pub(crate) fn load(&self, start: usize, end: usize) -> (r: u128)
        requires
            start < end <= self@.len(),
            end - start <= 128,
        ensures
            r == bits_value(self@.subrange(start as int, end as int)),
    {
        proof {
            use_type_invariant(self);
        }
        let r = bv_load_le(self.store, self.start + start, self.start + end);
        assert(self.store@.subrange(self.start + start, self.start + end) =~= self@.subrange(
            start as int,
            end as int,
        ));
        r
    }
}

} // verus!
