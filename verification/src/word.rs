//! The integer types that can be coded, described by their width, their
//! signedness and the two's complement bit pattern of each value.

use vstd::prelude::*;
use vstd::arithmetic::power2::pow2;
use vstd::arithmetic::power2::lemma_pow2_pos;
use vstd::arithmetic::power2::lemma_pow2_unfold;
use vstd::arithmetic::div_mod::lemma_fundamental_div_mod_converse;
use vstd::arithmetic::div_mod::lemma_small_mod;
use vstd::layout::unsigned_int_max_values;
use vstd::layout::signed_int_min_max_values;

verus! {

/// Whether `v` is a value of a `w`-bit integer type of the given signedness.
pub open spec fn in_range(v: int, w: nat, signed: bool) -> bool {
    if signed {
        -pow2((w - 1) as nat) <= v < pow2((w - 1) as nat)
    } else {
        0 <= v < pow2(w)
    }
}

/// The largest value of a `w`-bit integer type of the given signedness.
pub open spec fn max_value(w: nat, signed: bool) -> int {
    if signed {
        pow2((w - 1) as nat) - 1
    } else {
        pow2(w) - 1
    }
}

/// The `w`-bit two's complement bit pattern of `v`, read as an unsigned number.
pub open spec fn wrap(v: int, w: nat) -> nat {
    (v % (pow2(w) as int)) as nat
}

/// The value of a `w`-bit integer type of the given signedness whose bit
/// pattern, read as an unsigned number, is `r`.
pub open spec fn unwrap(r: nat, w: nat, signed: bool) -> int {
    if signed && r >= pow2((w - 1) as nat) {
        r - pow2(w)
    } else {
        r as int
    }
}

/// Shifting one left by `n` places gives `2^n`.
proof fn lemma_shl_one(n: u32)
    requires
        n < 128,
    ensures
        (1u128 << n) == pow2(n as nat),
    decreases n,
{
    if n == 0 {
        assert((1u128 << 0u32) == 1u128) by (bit_vector);
        vstd::arithmetic::power2::lemma2_to64();
    } else {
        lemma_shl_one((n - 1) as u32);
        assert((1u128 << n) == 2 * (1u128 << ((n - 1) as u32))) by (bit_vector)
            requires
                0 < n < 128,
        ;
        lemma_pow2_unfold(n as nat);
    }
}

/// `2^n`, for `n` below 128.
pub(crate) fn pow2_u128(n: u32) -> (r: u128)
    requires
        n < 128,
    ensures
        r == pow2(n as nat),
{
    proof {
        lemma_shl_one(n);
    }
    1u128 << n
}

/// `2^n - 1`, the number whose `n` low bits are set, for `n` up to 128.
pub(crate) fn low_mask(n: u32) -> (r: u128)
    requires
        n <= 128,
    ensures
        r == pow2(n as nat) - 1,
{
    if n == 128 {
        proof {
            unsigned_int_max_values();
        }
        u128::MAX
    } else {
        proof {
            lemma_pow2_pos(n as nat);
        }
        pow2_u128(n) - 1
    }
}

/// The `w` low bits of `q * 2^m + r`, where `r` fits in `m` bits: the
/// value of `(q << m) | r` in a `w`-bit integer.
pub(crate) fn shift_in(q: u128, r: u128, m: u32, w: u32) -> (x: u128)
    requires
        m < w <= 128,
        q < pow2(w as nat),
        r < pow2(m as nat),
    ensures
        x == (q * pow2(m as nat) + r) % (pow2(w as nat) as int),
{
    let k = w - m;
    proof {
        lemma_pow2_pos(m as nat);
        lemma_pow2_pos(k as nat);
        vstd::arithmetic::power2::lemma_pow2_adds(k as nat, m as nat);
    }
    let qq: u128 = if k == 128 {
        q
    } else {
        q % pow2_u128(k)
    };
    let ghost a: int = if k == 128 { 0 } else { q as int / pow2(k as nat) as int };
    proof {
        if k == 128 {
            assert(m == 0);
            vstd::arithmetic::power2::lemma2_to64();
            assert(qq as int == a * pow2(k as nat) + qq) by (nonlinear_arith)
                requires a == 0, qq == q;
        } else {
            vstd::arithmetic::div_mod::lemma_fundamental_div_mod(q as int, pow2(k as nat) as int);
            vstd::arithmetic::div_mod::lemma_mod_pos_bound(q as int, pow2(k as nat) as int);
        }
        assert(qq < pow2(k as nat));
        assert(qq * pow2(m as nat) + r < pow2(w as nat)) by (nonlinear_arith)
            requires
                qq < pow2(k as nat),
                r < pow2(m as nat),
                pow2(w as nat) == pow2(k as nat) * pow2(m as nat),
        ;
        assert(q * pow2(m as nat) + r == a * pow2(w as nat) + (qq * pow2(m as nat) + r)) by (nonlinear_arith)
            requires
                q == pow2(k as nat) * a + qq,
                pow2(w as nat) == pow2(k as nat) * pow2(m as nat),
        ;
        lemma_fundamental_div_mod_converse(
            q * pow2(m as nat) + r,
            pow2(w as nat) as int,
            a,
            qq * pow2(m as nat) + r,
        );
    }
    proof {
        unsigned_int_max_values();
        if w < 128 {
            vstd::arithmetic::power2::lemma_pow2_strictly_increases(w as nat, 128);
        }
        assert(qq * pow2(m as nat) <= qq * pow2(m as nat) + r);
    }
    let p = pow2_u128(m);
    qq * p + r
}

/// A fixed-width integer type: `width` bits, unsigned or two's complement.
pub trait RiceInt: crate::sealed::Sealed + Copy + Sized {
    /// The number of bits of the type.
    spec fn width() -> nat;

    /// Whether the type is signed.
    spec fn signed() -> bool;

    /// The integer that `self` stands for.
    spec fn value(self) -> int;

    /// The type is 8 to 128 bits wide.
    proof fn lemma_width()
        ensures
            8 <= Self::width() <= 128,
    ;

    /// Every value lies in the range of the type.
    proof fn lemma_value(self)
        ensures
            in_range(self.value(), Self::width(), Self::signed()),
    ;

    /// Two values that stand for the same integer are the same value.
    proof fn lemma_value_injective(self, other: Self)
        requires
            self.value() == other.value(),
        ensures
            self == other,
    ;

    /// The number of bits of the type.
    fn width_bits() -> (r: u32)
        ensures
            r == Self::width(),
    ;

    /// Whether the type is signed.
    fn is_signed() -> (r: bool)
        ensures
            r == Self::signed(),
    ;

    /// The bit pattern of `self`, read as an unsigned number.
    fn to_raw(self) -> (r: u128)
        ensures
            r == wrap(self.value(), Self::width()),
    ;

    /// The value whose bit pattern, read as an unsigned number, is `r`.
    fn from_raw(r: u128) -> (v: Self)
        requires
            r < pow2(Self::width()),
        ensures
            v.value() == unwrap(r as nat, Self::width(), Self::signed()),
    ;
}

/// A value's bit pattern lies below `2^w`, and reading it back gives the value.
pub proof fn lemma_wrap_unwrap(v: int, w: nat, signed: bool)
    requires
        w >= 1,
        in_range(v, w, signed),
    ensures
        wrap(v, w) < pow2(w),
        unwrap(wrap(v, w), w, signed) == v,
{
    lemma_pow2_unfold(w);
    lemma_pow2_pos((w - 1) as nat);
    if v >= 0 {
        lemma_fundamental_div_mod_converse(v, pow2(w) as int, 0, v);
    } else {
        lemma_fundamental_div_mod_converse(v, pow2(w) as int, -1, v + pow2(w));
    }
}

impl RiceInt for u8 {
    open spec fn width() -> nat {
        u8::BITS as nat
    }

    open spec fn signed() -> bool {
        false
    }

    open spec fn value(self) -> int {
        self as int
    }

    proof fn lemma_width() {
    }

    proof fn lemma_value(self) {
        unsigned_int_max_values();
    }

    proof fn lemma_value_injective(self, other: Self) {
    }

    fn width_bits() -> u32 {
        u8::BITS
    }

    fn is_signed() -> bool {
        false
    }

    fn to_raw(self) -> u128 {
        proof {
            unsigned_int_max_values();
            lemma_small_mod(self as nat, pow2(u8::BITS as nat));
        }
        self as u128
    }

    fn from_raw(r: u128) -> u8 {
        proof {
            unsigned_int_max_values();
        }
        r as u8
    }
}

impl RiceInt for u16 {
    open spec fn width() -> nat {
        u16::BITS as nat
    }

    open spec fn signed() -> bool {
        false
    }

    open spec fn value(self) -> int {
        self as int
    }

    proof fn lemma_width() {
    }

    proof fn lemma_value(self) {
        unsigned_int_max_values();
    }

    proof fn lemma_value_injective(self, other: Self) {
    }

    fn width_bits() -> u32 {
        u16::BITS
    }

    fn is_signed() -> bool {
        false
    }

    fn to_raw(self) -> u128 {
        proof {
            unsigned_int_max_values();
            lemma_small_mod(self as nat, pow2(u16::BITS as nat));
        }
        self as u128
    }

    fn from_raw(r: u128) -> u16 {
        proof {
            unsigned_int_max_values();
        }
        r as u16
    }
}

impl RiceInt for u32 {
    open spec fn width() -> nat {
        u32::BITS as nat
    }

    open spec fn signed() -> bool {
        false
    }

    open spec fn value(self) -> int {
        self as int
    }

    proof fn lemma_width() {
    }

    proof fn lemma_value(self) {
        unsigned_int_max_values();
    }

    proof fn lemma_value_injective(self, other: Self) {
    }

    fn width_bits() -> u32 {
        u32::BITS
    }

    fn is_signed() -> bool {
        false
    }

    fn to_raw(self) -> u128 {
        proof {
            unsigned_int_max_values();
            lemma_small_mod(self as nat, pow2(u32::BITS as nat));
        }
        self as u128
    }

    fn from_raw(r: u128) -> u32 {
        proof {
            unsigned_int_max_values();
        }
        r as u32
    }
}

impl RiceInt for u64 {
    open spec fn width() -> nat {
        u64::BITS as nat
    }

    open spec fn signed() -> bool {
        false
    }

    open spec fn value(self) -> int {
        self as int
    }

    proof fn lemma_width() {
    }

    proof fn lemma_value(self) {
        unsigned_int_max_values();
    }

    proof fn lemma_value_injective(self, other: Self) {
    }

    fn width_bits() -> u32 {
        u64::BITS
    }

    fn is_signed() -> bool {
        false
    }

    fn to_raw(self) -> u128 {
        proof {
            unsigned_int_max_values();
            lemma_small_mod(self as nat, pow2(u64::BITS as nat));
        }
        self as u128
    }

    fn from_raw(r: u128) -> u64 {
        proof {
            unsigned_int_max_values();
        }
        r as u64
    }
}

impl RiceInt for u128 {
    open spec fn width() -> nat {
        u128::BITS as nat
    }

    open spec fn signed() -> bool {
        false
    }

    open spec fn value(self) -> int {
        self as int
    }

    proof fn lemma_width() {
    }

    proof fn lemma_value(self) {
        unsigned_int_max_values();
    }

    proof fn lemma_value_injective(self, other: Self) {
    }

    fn width_bits() -> u32 {
        u128::BITS
    }

    fn is_signed() -> bool {
        false
    }

    fn to_raw(self) -> u128 {
        proof {
            unsigned_int_max_values();
            lemma_small_mod(self as nat, pow2(u128::BITS as nat));
        }
        self as u128
    }

    fn from_raw(r: u128) -> u128 {
        proof {
            unsigned_int_max_values();
        }
        r as u128
    }
}

impl RiceInt for usize {
    open spec fn width() -> nat {
        usize::BITS as nat
    }

    open spec fn signed() -> bool {
        false
    }

    open spec fn value(self) -> int {
        self as int
    }

    proof fn lemma_width() {
    }

    proof fn lemma_value(self) {
        unsigned_int_max_values();
    }

    proof fn lemma_value_injective(self, other: Self) {
    }

    fn width_bits() -> u32 {
        usize::BITS
    }

    fn is_signed() -> bool {
        false
    }

    fn to_raw(self) -> u128 {
        proof {
            unsigned_int_max_values();
            lemma_small_mod(self as nat, pow2(usize::BITS as nat));
        }
        self as u128
    }

    fn from_raw(r: u128) -> usize {
        proof {
            unsigned_int_max_values();
        }
        r as usize
    }
}

impl RiceInt for i8 {
    open spec fn width() -> nat {
        i8::BITS as nat
    }

    open spec fn signed() -> bool {
        true
    }

    open spec fn value(self) -> int {
        self as int
    }

    proof fn lemma_width() {
    }

    proof fn lemma_value(self) {
        signed_int_min_max_values();
    }

    proof fn lemma_value_injective(self, other: Self) {
    }

    fn width_bits() -> u32 {
        i8::BITS
    }

    fn is_signed() -> bool {
        true
    }

    fn to_raw(self) -> u128 {
        proof {
            signed_int_min_max_values();
            unsigned_int_max_values();
            lemma_pow2_unfold(i8::BITS as nat);
            lemma_wrap_unwrap(self as int, i8::BITS as nat, true);
        }
        if self >= 0 {
            self as u128
        } else {
            (u8::MAX - ((-(self + 1)) as u8)) as u128
        }
    }

    fn from_raw(r: u128) -> i8 {
        proof {
            signed_int_min_max_values();
            unsigned_int_max_values();
            lemma_pow2_unfold(i8::BITS as nat);
        }
        if r <= i8::MAX as u128 {
            r as i8
        } else {
            -(((u8::MAX as u128 - r) as i8)) - 1
        }
    }
}

impl RiceInt for i16 {
    open spec fn width() -> nat {
        i16::BITS as nat
    }

    open spec fn signed() -> bool {
        true
    }

    open spec fn value(self) -> int {
        self as int
    }

    proof fn lemma_width() {
    }

    proof fn lemma_value(self) {
        signed_int_min_max_values();
    }

    proof fn lemma_value_injective(self, other: Self) {
    }

    fn width_bits() -> u32 {
        i16::BITS
    }

    fn is_signed() -> bool {
        true
    }

    fn to_raw(self) -> u128 {
        proof {
            signed_int_min_max_values();
            unsigned_int_max_values();
            lemma_pow2_unfold(i16::BITS as nat);
            lemma_wrap_unwrap(self as int, i16::BITS as nat, true);
        }
        if self >= 0 {
            self as u128
        } else {
            (u16::MAX - ((-(self + 1)) as u16)) as u128
        }
    }

    fn from_raw(r: u128) -> i16 {
        proof {
            signed_int_min_max_values();
            unsigned_int_max_values();
            lemma_pow2_unfold(i16::BITS as nat);
        }
        if r <= i16::MAX as u128 {
            r as i16
        } else {
            -(((u16::MAX as u128 - r) as i16)) - 1
        }
    }
}

impl RiceInt for i32 {
    open spec fn width() -> nat {
        i32::BITS as nat
    }

    open spec fn signed() -> bool {
        true
    }

    open spec fn value(self) -> int {
        self as int
    }

    proof fn lemma_width() {
    }

    proof fn lemma_value(self) {
        signed_int_min_max_values();
    }

    proof fn lemma_value_injective(self, other: Self) {
    }

    fn width_bits() -> u32 {
        i32::BITS
    }

    fn is_signed() -> bool {
        true
    }

    fn to_raw(self) -> u128 {
        proof {
            signed_int_min_max_values();
            unsigned_int_max_values();
            lemma_pow2_unfold(i32::BITS as nat);
            lemma_wrap_unwrap(self as int, i32::BITS as nat, true);
        }
        if self >= 0 {
            self as u128
        } else {
            (u32::MAX - ((-(self + 1)) as u32)) as u128
        }
    }

    fn from_raw(r: u128) -> i32 {
        proof {
            signed_int_min_max_values();
            unsigned_int_max_values();
            lemma_pow2_unfold(i32::BITS as nat);
        }
        if r <= i32::MAX as u128 {
            r as i32
        } else {
            -(((u32::MAX as u128 - r) as i32)) - 1
        }
    }
}

impl RiceInt for i64 {
    open spec fn width() -> nat {
        i64::BITS as nat
    }

    open spec fn signed() -> bool {
        true
    }

    open spec fn value(self) -> int {
        self as int
    }

    proof fn lemma_width() {
    }

    proof fn lemma_value(self) {
        signed_int_min_max_values();
    }

    proof fn lemma_value_injective(self, other: Self) {
    }

    fn width_bits() -> u32 {
        i64::BITS
    }

    fn is_signed() -> bool {
        true
    }

    fn to_raw(self) -> u128 {
        proof {
            signed_int_min_max_values();
            unsigned_int_max_values();
            lemma_pow2_unfold(i64::BITS as nat);
            lemma_wrap_unwrap(self as int, i64::BITS as nat, true);
        }
        if self >= 0 {
            self as u128
        } else {
            (u64::MAX - ((-(self + 1)) as u64)) as u128
        }
    }

    fn from_raw(r: u128) -> i64 {
        proof {
            signed_int_min_max_values();
            unsigned_int_max_values();
            lemma_pow2_unfold(i64::BITS as nat);
        }
        if r <= i64::MAX as u128 {
            r as i64
        } else {
            -(((u64::MAX as u128 - r) as i64)) - 1
        }
    }
}

impl RiceInt for i128 {
    open spec fn width() -> nat {
        i128::BITS as nat
    }

    open spec fn signed() -> bool {
        true
    }

    open spec fn value(self) -> int {
        self as int
    }

    proof fn lemma_width() {
    }

    proof fn lemma_value(self) {
        signed_int_min_max_values();
    }

    proof fn lemma_value_injective(self, other: Self) {
    }

    fn width_bits() -> u32 {
        i128::BITS
    }

    fn is_signed() -> bool {
        true
    }

    fn to_raw(self) -> u128 {
        proof {
            signed_int_min_max_values();
            unsigned_int_max_values();
            lemma_pow2_unfold(i128::BITS as nat);
            lemma_wrap_unwrap(self as int, i128::BITS as nat, true);
        }
        if self >= 0 {
            self as u128
        } else {
            (u128::MAX - ((-(self + 1)) as u128)) as u128
        }
    }

    fn from_raw(r: u128) -> i128 {
        proof {
            signed_int_min_max_values();
            unsigned_int_max_values();
            lemma_pow2_unfold(i128::BITS as nat);
        }
        if r <= i128::MAX as u128 {
            r as i128
        } else {
            -(((u128::MAX as u128 - r) as i128)) - 1
        }
    }
}

impl RiceInt for isize {
    open spec fn width() -> nat {
        isize::BITS as nat
    }

    open spec fn signed() -> bool {
        true
    }

    open spec fn value(self) -> int {
        self as int
    }

    proof fn lemma_width() {
    }

    proof fn lemma_value(self) {
        signed_int_min_max_values();
    }

    proof fn lemma_value_injective(self, other: Self) {
    }

    fn width_bits() -> u32 {
        isize::BITS
    }

    fn is_signed() -> bool {
        true
    }

    fn to_raw(self) -> u128 {
        proof {
            signed_int_min_max_values();
            unsigned_int_max_values();
            lemma_pow2_unfold(isize::BITS as nat);
            lemma_wrap_unwrap(self as int, isize::BITS as nat, true);
        }
        if self >= 0 {
            self as u128
        } else {
            (usize::MAX - ((-(self + 1)) as usize)) as u128
        }
    }

    fn from_raw(r: u128) -> isize {
        proof {
            signed_int_min_max_values();
            unsigned_int_max_values();
            lemma_pow2_unfold(isize::BITS as nat);
        }
        if r <= isize::MAX as u128 {
            r as isize
        } else {
            -(((usize::MAX as u128 - r) as isize)) - 1
        }
    }
}

} // verus!
