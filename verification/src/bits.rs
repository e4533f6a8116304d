//! The mathematical model of bit strings and of Rice-Golomb codes.
//!
//! A bit string is a `Seq<bool>`, read from index 0 upwards; a number written
//! into bits puts its least significant bit first.

use vstd::prelude::*;
use vstd::arithmetic::power2::pow2;
use vstd::arithmetic::power2::lemma_pow2_pos;
use vstd::arithmetic::power2::lemma_pow2_unfold;
use vstd::arithmetic::power2::lemma_pow2_adds;
use vstd::arithmetic::div_mod::lemma_div_denominator;
use vstd::arithmetic::div_mod::lemma_mod_breakdown;
use vstd::arithmetic::div_mod::lemma_fundamental_div_mod;
use vstd::arithmetic::div_mod::lemma_fundamental_div_mod_converse;

verus! {

/// Bit `i` of `x`, bit 0 being the least significant.
pub open spec fn bit_of(x: nat, i: nat) -> bool {
    (x / pow2(i)) % 2 == 1
}

/// The `n` least significant bits of `x`, least significant first.
pub open spec fn low_bits(x: nat, n: nat) -> Seq<bool> {
    Seq::new(n, |i: int| bit_of(x, i as nat))
}

/// The number that a bit string stands for, its first bit being the least
/// significant.
pub open spec fn bits_value(s: Seq<bool>) -> nat
    decreases s.len(),
{
    if s.len() == 0 {
        0
    } else {
        (if s[0] { 1nat } else { 0nat }) + 2 * bits_value(s.drop_first())
    }
}

/// The unary code of `q`: `q` set bits, then one clear bit.
pub open spec fn unary_code(q: nat) -> Seq<bool> {
    Seq::new(q + 1, |i: int| i < q)
}

/// The Rice-Golomb code of `x` with an `m`-bit remainder: the quotient
/// `x / 2^m` in unary, then the remainder `x % 2^m` in `m` bits.
pub open spec fn rice_code(x: nat, m: nat) -> Seq<bool> {
    unary_code(x / pow2(m)) + low_bits(x % pow2(m), m)
}

/// The number of set bits at the front of `s`.
pub open spec fn leading_ones(s: Seq<bool>) -> nat
    decreases s.len(),
{
    if s.len() > 0 && s[0] {
        1 + leading_ones(s.drop_first())
    } else {
        0
    }
}

/// Reads one Rice-Golomb code with an `m`-bit remainder from the front of
/// `s`: the quotient, the remainder and the number of bits the code takes.
/// There is none when `s` holds no clear bit to end the quotient, or fewer
/// than `m` bits after it.
pub open spec fn rice_split(s: Seq<bool>, m: nat) -> Option<(nat, nat, nat)> {
    let q = leading_ones(s);
    if q < s.len() && q + 1 + m <= s.len() {
        Some((q, bits_value(s.subrange(q + 1 as int, q + 1 + m as int)), q + 1 + m))
    } else {
        None
    }
}

/// The bits of all bytes of `s`, each byte least significant bit first.
pub open spec fn bytes_bits(s: Seq<u8>) -> Seq<bool>
    decreases s.len(),
{
    if s.len() == 0 {
        Seq::empty()
    } else {
        low_bits(s[0] as nat, 8) + bytes_bits(s.drop_first())
    }
}

/// The set bits at the front of a string are all set, and the bit after
/// them, if any, is clear.
pub proof fn lemma_leading_ones(s: Seq<bool>)
    ensures
        leading_ones(s) <= s.len(),
        forall|i: int| 0 <= i < leading_ones(s) ==> s[i],
        leading_ones(s) < s.len() ==> !s[leading_ones(s) as int],
    decreases s.len(),
{
    if s.len() > 0 && s[0] {
        lemma_leading_ones(s.drop_first());
        assert forall|i: int| 0 <= i < leading_ones(s) implies s[i] by {
            if i > 0 {
                assert(s[i] == s.drop_first()[i - 1]);
            }
        }
    }
}

/// A string that starts with `q` set bits and then a clear one has exactly
/// `q` leading ones.
pub proof fn lemma_leading_ones_exact(s: Seq<bool>, q: nat)
    requires
        q < s.len(),
        forall|i: int| 0 <= i < q ==> s[i],
        !s[q as int],
    ensures
        leading_ones(s) == q,
    decreases q,
{
    if q > 0 {
        assert forall|i: int| 0 <= i < q - 1 implies s.drop_first()[i] by {
            assert(s[i + 1]);
        }
        lemma_leading_ones_exact(s.drop_first(), (q - 1) as nat);
    }
}

/// Bit `i + 1` of `x` is bit `i` of `x / 2`.
pub proof fn lemma_bit_of_half(x: nat, i: nat)
    ensures
        bit_of(x, i + 1) == bit_of(x / 2, i),
        x / pow2(i + 1) == (x / 2) / pow2(i),
{
    lemma_pow2_pos(i);
    lemma_pow2_unfold(i + 1);
    lemma_div_denominator(x as int, 2, pow2(i) as int);
}

/// Reading back the `n` low bits of `x` gives `x % 2^n`.
pub proof fn lemma_bits_value_low_bits(x: nat, n: nat)
    ensures
        bits_value(low_bits(x, n)) == x % pow2(n),
    decreases n,
{
    let s = low_bits(x, n);
    if n == 0 {
        assert(pow2(0) == 1) by {
            vstd::arithmetic::power2::lemma2_to64();
        }
    } else {
        lemma_pow2_unfold(n);
        lemma_pow2_pos((n - 1) as nat);
        assert(s.drop_first() =~= low_bits(x / 2, (n - 1) as nat)) by {
            assert forall|i: int| 0 <= i < n - 1 implies s.drop_first()[i] == low_bits(
                x / 2,
                (n - 1) as nat,
            )[i] by {
                lemma_bit_of_half(x, i as nat);
            }
        }
        lemma_bits_value_low_bits(x / 2, (n - 1) as nat);
        assert(pow2(0) == 1) by {
            vstd::arithmetic::power2::lemma2_to64();
        }
        assert(s[0] == (x % 2 == 1));
        lemma_mod_breakdown(x as int, 2, pow2((n - 1) as nat) as int);
    }
}

/// A bit string of length `n` stands for a number below `2^n`.
pub proof fn lemma_bits_value_bound(s: Seq<bool>)
    ensures
        bits_value(s) < pow2(s.len()),
    decreases s.len(),
{
    if s.len() == 0 {
        assert(pow2(0) == 1) by {
            vstd::arithmetic::power2::lemma2_to64();
        }
    } else {
        lemma_bits_value_bound(s.drop_first());
        lemma_pow2_unfold(s.len());
    }
}

/// Only the `n` low bits of `x` show in `low_bits(x, n)`.
pub proof fn lemma_low_bits_mod(x: nat, n: nat)
    ensures
        low_bits(x % pow2(n), n) == low_bits(x, n),
{
    assert forall|i: int| 0 <= i < n implies #[trigger] bit_of(x % pow2(n), i as nat) == bit_of(x, i as nat) by {
        let k = (n - i) as nat;
        lemma_pow2_adds(i as nat, k);
        lemma_pow2_pos(i as nat);
        lemma_pow2_pos(k);
        lemma_pow2_pos(n);
        lemma_fundamental_div_mod(x as int, pow2(n) as int);
        let a = x / pow2(n);
        let r = x % pow2(n);
        // x = a * 2^n + r, so x / 2^i = a * 2^k + r / 2^i.
        lemma_fundamental_div_mod(r as int, pow2(i as nat) as int);
        assert(x == (a * pow2(k) + r / pow2(i as nat)) * pow2(i as nat) + r % pow2(i as nat))
            by (nonlinear_arith)
            requires
                x == a * pow2(n) + r,
                pow2(n) == pow2(i as nat) * pow2(k),
                r == pow2(i as nat) * (r / pow2(i as nat)) + r % pow2(i as nat),
        ;
        vstd::arithmetic::div_mod::lemma_mod_pos_bound(r as int, pow2(i as nat) as int);
        lemma_fundamental_div_mod_converse(
            x as int,
            pow2(i as nat) as int,
            (a * pow2(k) + r / pow2(i as nat)) as int,
            (r % pow2(i as nat)) as int,
        );
        // (a * 2^k + y) % 2 == y % 2 because 2 divides 2^k when k > 0.
        lemma_pow2_unfold(k);
        assert((a * pow2(k) + r / pow2(i as nat)) % 2 == (r / pow2(i as nat)) % 2) by {
            vstd::arithmetic::div_mod::lemma_mod_multiples_vanish(
                a * pow2((k - 1) as nat) as int,
                (r / pow2(i as nat)) as int,
                2,
            );
            assert(a * pow2(k) == 2 * (a * pow2((k - 1) as nat))) by (nonlinear_arith)
                requires
                    pow2(k) == 2 * pow2((k - 1) as nat),
            ;
        }
    }
    assert(low_bits(x % pow2(n), n) =~= low_bits(x, n));
}

/// The `q + 1` low bits of `2^q - 1` are its unary code.
pub proof fn lemma_unary_mask(q: nat)
    ensures
        pow2(q) >= 1,
        low_bits((pow2(q) - 1) as nat, q + 1) == unary_code(q),
{
    lemma_pow2_pos(q);
    let m = (pow2(q) - 1) as nat;
    assert forall|i: int| 0 <= i <= q implies #[trigger] bit_of(m, i as nat) == (i < q) by {
        lemma_mask_bits(q, i as nat);
    }
    assert(low_bits(m, q + 1) =~= unary_code(q));
}

/// Dividing `2^q - 1` by `2^i`, for `i <= q`, leaves `2^(q - i) - 1`.
pub proof fn lemma_mask_bits(q: nat, i: nat)
    requires
        i <= q,
    ensures
        ((pow2(q) - 1) as nat) / pow2(i) == pow2((q - i) as nat) - 1,
        bit_of((pow2(q) - 1) as nat, i) == (i < q),
    decreases i,
{
    lemma_pow2_pos(q);
    lemma_pow2_pos((q - i) as nat);
    if i == 0 {
        assert(pow2(0) == 1) by {
            vstd::arithmetic::power2::lemma2_to64();
        }
    } else {
        lemma_mask_bits(q, (i - 1) as nat);
        let m = (pow2(q) - 1) as nat;
        // m / 2^i == (m / 2^(i-1)) / 2
        lemma_pow2_pos((i - 1) as nat);
        lemma_pow2_unfold(i);
        lemma_div_denominator(m as int, pow2((i - 1) as nat) as int, 2);
        lemma_pow2_unfold((q - i + 1) as nat);
        assert(pow2((q - (i - 1)) as nat) == 2 * pow2((q - i) as nat));
    }
    if i < q {
        lemma_pow2_unfold((q - i) as nat);
    } else {
        assert(pow2(0) == 1) by {
            vstd::arithmetic::power2::lemma2_to64();
        }
    }
}

/// The number of set bits at the front of a unary code followed by
/// anything is the coded number.
pub proof fn lemma_leading_ones_unary(q: nat, rest: Seq<bool>)
    ensures
        leading_ones(unary_code(q) + rest) == q,
{
    let s = unary_code(q) + rest;
    assert(s[q as int] == false);
    assert forall|i: int| 0 <= i < q implies s[i] by {}
    lemma_leading_ones_exact(s, q);
}

/// Reading a Rice-Golomb code from the front of a string gives back the
/// quotient and remainder of the coded number, and the code's length,
/// whatever follows the code.
pub proof fn lemma_rice_split_code(x: nat, m: nat, rest: Seq<bool>)
    ensures
        rice_code(x, m).len() == x / pow2(m) + 1 + m,
        rice_split(rice_code(x, m) + rest, m) == Some(
            (x / pow2(m), x % pow2(m), (x / pow2(m) + 1 + m) as nat),
        ),
        (x / pow2(m)) * pow2(m) + x % pow2(m) == x,
{
    lemma_pow2_pos(m);
    let q = x / pow2(m);
    let r = x % pow2(m);
    let s = rice_code(x, m) + rest;
    assert(s =~= unary_code(q) + (low_bits(r, m) + rest));
    lemma_leading_ones_unary(q, low_bits(r, m) + rest);
    assert(s.subrange(q + 1 as int, q + 1 + m as int) =~= low_bits(r, m));
    lemma_bits_value_low_bits(r, m);
    vstd::arithmetic::div_mod::lemma_mod_pos_bound(x as int, pow2(m) as int);
    vstd::arithmetic::div_mod::lemma_small_mod(r, pow2(m));
    lemma_fundamental_div_mod(x as int, pow2(m) as int);
    assert(q * pow2(m) == pow2(m) * q) by (nonlinear_arith);
}

/// Writing the number a bit string stands for in as many bits as the
/// string has gives the string back.
pub proof fn lemma_low_bits_bits_value(t: Seq<bool>)
    ensures
        low_bits(bits_value(t), t.len()) == t,
    decreases t.len(),
{
    if t.len() > 0 {
        let x = bits_value(t);
        let rest = t.drop_first();
        lemma_low_bits_bits_value(rest);
        assert(pow2(0) == 1) by {
            vstd::arithmetic::power2::lemma2_to64();
        }
        assert forall|i: int| 0 <= i < t.len() implies #[trigger] bit_of(x, i as nat) == t[i] by {
            if i > 0 {
                lemma_bit_of_half(x, (i - 1) as nat);
                assert(x / 2 == bits_value(rest));
                assert(rest[i - 1] == t[i]);
                assert(low_bits(bits_value(rest), rest.len())[i - 1] == rest[i - 1]);
            } else {
                let b: int = if t[0] { 1 } else { 0 };
                assert(x == 2 * bits_value(rest) + b);
                vstd::arithmetic::div_mod::lemma_mod_multiples_vanish(bits_value(rest) as int, b, 2);
                assert(x / pow2(0) == x);
            }
        }
        assert(low_bits(x, t.len()) =~= t);
    }
}

/// Writing back the quotient and remainder that reading a code gives,
/// with the same remainder width, yields exactly the bits the read took.
pub proof fn lemma_rice_split_reencode(s: Seq<bool>, m: nat)
    requires
        rice_split(s, m) is Some,
    ensures
        ({
            let (q, r, n) = rice_split(s, m).unwrap();
            &&& r < pow2(m)
            &&& rice_code(q * pow2(m) + r, m) == s.take(n as int)
            &&& n <= s.len()
        }),
{
    let (q, r, n) = rice_split(s, m).unwrap();
    let t = s.subrange(q + 1 as int, q + 1 + m as int);
    lemma_pow2_pos(m);
    lemma_bits_value_bound(t);
    lemma_leading_ones(s);
    let x = q * pow2(m) + r;
    lemma_fundamental_div_mod_converse(x as int, pow2(m) as int, q as int, r as int);
    lemma_low_bits_bits_value(t);
    assert(unary_code(q) =~= s.take(q + 1 as int));
    assert(rice_code(x, m) =~= s.take(n as int));
}

/// A larger number never gets a shorter code, and the code's length
/// depends on the number only through the quotient `x / 2^m`.
pub proof fn lemma_rice_code_len_monotone(x1: nat, x2: nat, m: nat)
    requires
        x1 <= x2,
    ensures
        rice_code(x1, m).len() == x1 / pow2(m) + 1 + m,
        rice_code(x1, m).len() <= rice_code(x2, m).len(),
{
    lemma_pow2_pos(m);
    vstd::arithmetic::div_mod::lemma_div_is_ordered(x1 as int, x2 as int, pow2(m) as int);
}

/// `2^d` is at least `d + 1`.
proof fn lemma_pow2_above(d: nat)
    ensures
        pow2(d) >= d + 1,
    decreases d,
{
    if d == 0 {
        vstd::arithmetic::power2::lemma2_to64();
    } else {
        lemma_pow2_above((d - 1) as nat);
        lemma_pow2_unfold(d);
    }
}

/// Narrower remainders give shorter codes to small numbers, wider ones to
/// large numbers: with `k1 < k2`, a number below `2^k1` has a shorter code
/// with `k1` bits of remainder, and a number of at least `2^(k2 + 1)` a
/// shorter code with `k2` bits.
pub proof fn lemma_rice_code_len_widths(x: nat, k1: nat, k2: nat)
    requires
        k1 < k2,
    ensures
        x < pow2(k1) ==> rice_code(x, k1).len() < rice_code(x, k2).len(),
        x >= pow2(k2 + 1) ==> rice_code(x, k2).len() < rice_code(x, k1).len(),
{
    let d = (k2 - k1) as nat;
    lemma_pow2_pos(k1);
    lemma_pow2_pos(k2);
    lemma_pow2_pos(d);
    if x < pow2(k1) {
        vstd::arithmetic::power2::lemma_pow2_strictly_increases(k1, k2);
        vstd::arithmetic::div_mod::lemma_basic_div(x as int, pow2(k1) as int);
        vstd::arithmetic::div_mod::lemma_basic_div(x as int, pow2(k2) as int);
    }
    if x >= pow2(k2 + 1) {
        lemma_pow2_unfold(k2 + 1);
        let a = x / pow2(k2);
        let b = x / pow2(k1);
        // a >= 2
        vstd::arithmetic::div_mod::lemma_div_is_ordered(
            2 * pow2(k2) as int,
            x as int,
            pow2(k2) as int,
        );
        vstd::arithmetic::div_mod::lemma_div_multiples_vanish(2, pow2(k2) as int);
        assert(a >= 2);
        // b / 2^d == a, so b >= a * 2^d
        lemma_pow2_adds(k1, d);
        lemma_div_denominator(x as int, pow2(k1) as int, pow2(d) as int);
        assert(b / pow2(d) == a);
        lemma_fundamental_div_mod(b as int, pow2(d) as int);
        vstd::arithmetic::div_mod::lemma_mod_pos_bound(b as int, pow2(d) as int);
        lemma_pow2_above(d);
        assert(b + k1 > a + k2) by (nonlinear_arith)
            requires
                b == pow2(d) * (b / pow2(d)) + b % pow2(d),
                b / pow2(d) == a,
                b % pow2(d) >= 0,
                a >= 2,
                pow2(d) >= d + 1,
                d == k2 - k1,
                d >= 1,
        ;
    }
}

/// Bit `p` of the bits of a byte string is bit `p % 8` of byte `p / 8`.
pub proof fn lemma_bytes_bits_index(s: Seq<u8>)
    ensures
        bytes_bits(s).len() == 8 * s.len(),
        forall|p: int|
            0 <= p < 8 * s.len() ==> #[trigger] bytes_bits(s)[p] == bit_of(
                s[p / 8] as nat,
                (p % 8) as nat,
            ),
    decreases s.len(),
{
    if s.len() > 0 {
        let rest = s.drop_first();
        lemma_bytes_bits_index(rest);
        assert forall|p: int| 0 <= p < 8 * s.len() implies #[trigger] bytes_bits(s)[p] == bit_of(
            s[p / 8] as nat,
            (p % 8) as nat,
        ) by {
            if p >= 8 {
                assert(bytes_bits(s)[p] == bytes_bits(rest)[p - 8]);
                assert((p - 8) / 8 == p / 8 - 1);
                assert((p - 8) % 8 == p % 8);
                assert(rest[p / 8 - 1] == s[p / 8]);
            }
        }
    }
}

/// For `x = v + 2^k * h` with `v < 2^k`, the bits of `x` below `k` are
/// those of `v`, and bit `k + i` is bit `i` of `h`.
pub proof fn lemma_bit_of_split(v: nat, k: nat, h: nat, j: nat)
    requires
        v < pow2(k),
    ensures
        j < k ==> bit_of(v + pow2(k) * h, j) == bit_of(v, j),
        j >= k ==> bit_of(v + pow2(k) * h, j) == bit_of(h, (j - k) as nat),
{
    let x = v + pow2(k) * h;
    lemma_pow2_pos(k);
    lemma_pow2_pos(j);
    if j >= k {
        let d = (j - k) as nat;
        lemma_pow2_pos(d);
        assert(x == h * pow2(k) + v) by (nonlinear_arith)
            requires
                x == v + pow2(k) * h,
        ;
        lemma_fundamental_div_mod_converse(x as int, pow2(k) as int, h as int, v as int);
        lemma_pow2_adds(k, d);
        lemma_div_denominator(x as int, pow2(k) as int, pow2(d) as int);
    } else {
        let d = (k - j) as nat;
        lemma_pow2_pos(d);
        lemma_pow2_adds(j, d);
        lemma_fundamental_div_mod(v as int, pow2(j) as int);
        vstd::arithmetic::div_mod::lemma_mod_pos_bound(v as int, pow2(j) as int);
        let qv = v / pow2(j);
        assert(x == pow2(j) * (qv + h * pow2(d)) + v % pow2(j)) by (nonlinear_arith)
            requires
                x == v + pow2(k) * h,
                v == pow2(j) * qv + v % pow2(j),
                pow2(k) == pow2(j) * pow2(d),
        ;
        lemma_fundamental_div_mod_converse(
            x as int,
            pow2(j) as int,
            (qv + h * pow2(d)) as int,
            (v % pow2(j)) as int,
        );
        lemma_pow2_unfold(d);
        assert(h * pow2(d) == 2 * (h * pow2((d - 1) as nat))) by (nonlinear_arith)
            requires
                pow2(d) == 2 * pow2((d - 1) as nat),
        ;
        vstd::arithmetic::div_mod::lemma_mod_multiples_vanish(
            (h * pow2((d - 1) as nat)) as int,
            qv as int,
            2,
        );
    }
}

/// The layout of a Rice-Golomb code, bit by bit: with `q = x / 2^m`, the
/// code is `q + 1 + m` bits long, its first `q` bits are set, bit `q` is
/// clear, and bit `q + 1 + j` is bit `j` of `x` itself, for `j < m`.
pub proof fn lemma_rice_code_layout(x: nat, m: nat)
    ensures
        rice_code(x, m).len() == x / pow2(m) + 1 + m,
        forall|p: int|
            0 <= p < x / pow2(m) ==> #[trigger] rice_code(x, m)[p],
        !rice_code(x, m)[(x / pow2(m)) as int],
        forall|j: int|
            0 <= j < m ==> #[trigger] rice_code(x, m)[x / pow2(m) + 1 + j] == ((x / pow2(
                j as nat,
            )) % 2 == 1),
{
    lemma_low_bits_mod(x, m);
    lemma_pow2_pos(m);
    let q = x / pow2(m);
    assert(rice_code(x, m)[q as int] == unary_code(q)[q as int]);
    assert forall|j: int| 0 <= j < m implies #[trigger] rice_code(x, m)[q + 1 + j] == ((x / pow2(
        j as nat,
    )) % 2 == 1) by {
        assert(rice_code(x, m)[q + 1 + j] == low_bits(x % pow2(m), m)[j]);
        assert(low_bits(x % pow2(m), m)[j] == low_bits(x, m)[j]);
    }
}

} // verus!
