//! Rice-Golomb coding of single integers: the quotient in unary, the
//! remainder in a fixed number of bits.

use vstd::prelude::*;
use vstd::arithmetic::power2::pow2;
use vstd::arithmetic::power2::lemma_pow2_pos;
use vstd::arithmetic::power2::lemma_pow2_unfold;
use vstd::arithmetic::power2::lemma_pow2_adds;
use vstd::arithmetic::power2::lemma_pow2_strictly_increases;
use vstd::arithmetic::div_mod::lemma_fundamental_div_mod;
use vstd::arithmetic::div_mod::lemma_fundamental_div_mod_converse;
use vstd::arithmetic::div_mod::lemma_mod_pos_bound;
use vstd::arithmetic::div_mod::lemma_small_mod;
use crate::word::RiceInt;
use crate::word::unwrap;
use crate::word::lemma_wrap_unwrap;
use crate::word::pow2_u128;
use crate::word::low_mask;
use crate::word::max_value;
use crate::word::shift_in;
use crate::bits::bits_value;
use crate::bits::bit_of;
use crate::bits::leading_ones;
use crate::bits::lemma_bits_value_bound;
use crate::bits::lemma_leading_ones;
use crate::bits::lemma_unary_mask;
use crate::bits::low_bits;
use crate::bits::rice_code;
use crate::bits::rice_split;
use crate::bits::unary_code;
use crate::bits::lemma_rice_split_code;
use crate::store::BitSlice;
use crate::store::BitVec;
use crate::store::max_store_len;

verus! {

/// `2^a <= 2^b` when `a <= b`.
proof fn lemma_pow2_le(a: nat, b: nat)
    requires
        a <= b,
    ensures
        pow2(a) <= pow2(b),
{
    if a < b {
        lemma_pow2_strictly_increases(a, b);
    }
}

/// The arithmetic behind the Rice-Golomb split of one integer.
pub trait RiceAux: RiceInt {
    /// `2^self - 1`: the number whose `self` low bits are set, which
    /// written in `self + 1` bits is the unary code of `self`. The value
    /// must lie in `0 .. width`.
    fn to_unary(self) -> (r: Self)
        requires
            0 <= self.value() < Self::width(),
        ensures
            r.value() == pow2(self.value() as nat) - 1,
    {
        proof {
            self.lemma_value();
            Self::lemma_width();
            lemma_pow2_pos((Self::width() - 1) as nat);
            lemma_pow2_unfold(Self::width());
            lemma_pow2_le(self.value() as nat, (Self::width() - 1) as nat);
            lemma_fundamental_div_mod_converse(self.value(), pow2(Self::width()) as int, 0, self.value());
        }
        let n = self.to_raw();
        let u = low_mask(n as u32);
        proof {
            lemma_pow2_pos(n as nat);
        }
        Self::from_raw(u)
    }

    /// `self` divided by `2^MAX_BITS`, rounded down (an arithmetic shift
    /// right by `MAX_BITS`).
    fn quotient<const MAX_BITS: u32>(self) -> (r: Self)
        requires
            MAX_BITS < Self::width(),
        ensures
            r.value() == self.value() / (pow2(MAX_BITS as nat) as int),
    {
        proof {
            self.lemma_value();
            Self::lemma_width();
        }
        let w = Self::width_bits();
        let raw = self.to_raw();
        let p = pow2_u128(MAX_BITS);
        proof {
            lemma_pow2_pos(MAX_BITS as nat);
        }
        let q = raw / p;
        let ghost v = self.value();
        let ghost pm = pow2(MAX_BITS as nat) as int;
        let ghost k = (w - MAX_BITS) as nat;
        proof {
            lemma_wrap_unwrap(v, w as nat, Self::signed());
            lemma_pow2_pos(MAX_BITS as nat);
            lemma_pow2_pos(k);
            lemma_pow2_adds(k, MAX_BITS as nat);
            lemma_pow2_unfold(w as nat);
            lemma_pow2_pos((w - 1) as nat);
            lemma_fundamental_div_mod(raw as int, pm);
            lemma_mod_pos_bound(raw as int, pm);
        }
        if Self::is_signed() && raw >= pow2_u128(w - 1) {
            // The value is negative: its bit pattern is `v + 2^w`.
            proof {
                lemma_pow2_le(k, w as nat);
            }
            let hi = low_mask(w) - low_mask(w - MAX_BITS);
            let ghost x = q as int - pow2(k) as int;
            proof {
                assert(v == raw - pow2(w as nat));
                // v == (q - 2^k) * 2^m + raw % 2^m
                assert(v == x * pm + (raw as int % pm)) by (nonlinear_arith)
                    requires
                        v == raw - pow2(w as nat),
                        raw as int == pm * q + raw as int % pm,
                        pow2(w as nat) == pow2(k) * pm,
                        x == q - pow2(k),
                ;
                lemma_fundamental_div_mod_converse(v, pm, x, raw as int % pm);
                // x lies in the type's range and is negative.
                assert(q < pow2(k)) by (nonlinear_arith)
                    requires
                        raw < pow2(w as nat),
                        raw as int == pm * q + raw as int % pm,
                        0 <= raw as int % pm,
                        pow2(w as nat) == pow2(k) * pm,
                        pm > 0,
                ;
                assert(x >= -pow2((w - 1) as nat)) by (nonlinear_arith)
                    requires
                        v >= -pow2((w - 1) as nat),
                        v == x * pm + (raw as int % pm),
                        raw as int % pm < pm,
                        pm >= 1,
                        x < 0,
                ;
                lemma_fundamental_div_mod_converse(x, pow2(w as nat) as int, -1, x + pow2(w as nat));
                lemma_wrap_unwrap(x, w as nat, true);
            }
            Self::from_raw(q + hi)
        } else {
            proof {
                assert(v == raw);
                lemma_fundamental_div_mod_converse(v, pm, q as int, raw as int % pm);
                assert(q <= raw) by (nonlinear_arith)
                    requires
                        raw as int == pm * q + raw as int % pm,
                        0 <= raw as int % pm,
                        pm >= 1,
                        q >= 0,
                ;
                if Self::signed() {
                    assert(q < pow2((w - 1) as nat));
                }
            }
            Self::from_raw(q)
        }
    }

    /// `self` modulo `2^MAX_BITS`, always in `0 .. 2^MAX_BITS` (the low
    /// `MAX_BITS` bits of the bit pattern).
    fn remainder<const MAX_BITS: u32>(self) -> (r: Self)
        requires
            MAX_BITS < Self::width(),
        ensures
            r.value() == self.value() % (pow2(MAX_BITS as nat) as int),
    {
        proof {
            self.lemma_value();
            Self::lemma_width();
        }
        let w = Self::width_bits();
        let raw = self.to_raw();
        let p = pow2_u128(MAX_BITS);
        let ghost v = self.value();
        let ghost pm = pow2(MAX_BITS as nat) as int;
        let ghost k = (w - MAX_BITS) as nat;
        proof {
            lemma_wrap_unwrap(v, w as nat, Self::signed());
            lemma_pow2_pos(MAX_BITS as nat);
            lemma_pow2_pos(k);
            lemma_pow2_adds(k, MAX_BITS as nat);
            lemma_pow2_unfold(w as nat);
            lemma_pow2_le(MAX_BITS as nat, (w - 1) as nat);
            lemma_fundamental_div_mod(v, pow2(w as nat) as int);
            let a = v / pow2(w as nat) as int;
            // raw == v - a * 2^w == v - (a * 2^k) * 2^m
            assert(raw as int == v + (-(a * pow2(k) as int)) * pm) by (nonlinear_arith)
                requires
                    v == pow2(w as nat) * a + raw,
                    pow2(w as nat) == pow2(k) * pm,
            ;
            vstd::arithmetic::div_mod::lemma_mod_multiples_vanish(-(a * pow2(k) as int), v, pm);
            assert(raw as int % pm == v % pm) by (nonlinear_arith)
                requires
                    raw as int == v + (-(a * pow2(k) as int)) * pm,
                    (pm * (-(a * pow2(k) as int)) + v) % pm == v % pm,
            ;
            lemma_mod_pos_bound(raw as int, pm);
        }
        Self::from_raw(raw % p)
    }
}

impl<T: RiceInt> RiceAux for T {
}

/// The value of a `w`-bit integer type of the given signedness whose bit
/// pattern is the low `w` bits of `q * 2^m + r`: what `(q << m) | r`
/// computes in that type.
pub open spec fn combine(q: nat, r: nat, m: nat, w: nat, signed: bool) -> int {
    unwrap((((q * pow2(m) + r) as int) % (pow2(w) as int)) as nat, w, signed)
}

/// The quotient and remainder that `RiceAux` computes recompose the value:
/// `(v / 2^m) * 2^m + v % 2^m == v`, with the remainder in `0 .. 2^m`,
/// negative values included.
pub proof fn lemma_quotient_remainder(v: int, m: nat)
    ensures
        (v / (pow2(m) as int)) * pow2(m) + v % (pow2(m) as int) == v,
        0 <= v % (pow2(m) as int) < pow2(m),
{
    lemma_pow2_pos(m);
    lemma_fundamental_div_mod(v, pow2(m) as int);
    vstd::arithmetic::div_mod::lemma_mod_bound(v, pow2(m) as int);
    assert((v / (pow2(m) as int)) * pow2(m) == pow2(m) * (v / (pow2(m) as int))) by (nonlinear_arith);
}

/// Decoding the Rice-Golomb code of a non-negative value of `I`, whatever
/// bits follow the code, gives back the value and the length of the code;
/// its quotient never has more set bits than `I` can count.
pub proof fn lemma_rice_roundtrip<I: RiceInt>(v: I, m: nat, rest: Seq<bool>)
    requires
        m < I::width(),
        v.value() >= 0,
    ensures
        leading_ones(rice_code(v.value() as nat, m) + rest) <= max_value(I::width(), I::signed()),
        rice_split(rice_code(v.value() as nat, m) + rest, m) matches Some((q, r, n)) && n
            == rice_code(v.value() as nat, m).len() && combine(q, r, m, I::width(), I::signed())
            == v.value(),
{
    let x = v.value() as nat;
    I::lemma_width();
    v.lemma_value();
    lemma_pow2_pos(m);
    lemma_rice_split_code(x, m, rest);
    crate::bits::lemma_leading_ones_unary(x / pow2(m), crate::bits::low_bits(x % pow2(m), m) + rest);
    assert(rice_code(x, m) + rest =~= unary_code(x / pow2(m)) + (crate::bits::low_bits(
        x % pow2(m),
        m,
    ) + rest));
    assert(x / pow2(m) <= x) by (nonlinear_arith)
        requires
            (x / pow2(m)) * pow2(m) + x % pow2(m) == x,
            pow2(m) >= 1,
            x % pow2(m) >= 0,
            x / pow2(m) >= 0,
    ;
    lemma_pow2_unfold(I::width());
    lemma_wrap_unwrap(v.value(), I::width(), I::signed());
    lemma_fundamental_div_mod_converse(v.value(), pow2(I::width()) as int, 0, v.value());
}

/// Decoding then re-encoding: when a full code lies at the front of `s`
/// and its number `q * 2^m + r` is a value of `I`, that number is what
/// `I` decodes, and encoding it again writes exactly the bits the read
/// took.
pub proof fn lemma_rice_decode_reencode<I: RiceInt>(s: Seq<bool>, m: nat)
    requires
        m < I::width(),
        rice_split(s, m) matches Some((q, r, n)) && q * pow2(m) + r <= max_value(
            I::width(),
            I::signed(),
        ),
    ensures
        rice_split(s, m) matches Some((q, r, n)) && combine(q, r, m, I::width(), I::signed()) == q
            * pow2(m) + r && rice_code((q * pow2(m) + r) as nat, m) == s.take(n as int) && n
            <= s.len(),
{
    let (q, r, n) = rice_split(s, m).unwrap();
    I::lemma_width();
    crate::bits::lemma_rice_split_reencode(s, m);
    lemma_pow2_unfold(I::width());
    lemma_pow2_pos((I::width() - 1) as nat);
    let x = q * pow2(m) + r;
    lemma_fundamental_div_mod_converse(x as int, pow2(I::width()) as int, 0, x as int);
}

/// Rice-Golomb codes with an `m`-bit remainder of all numbers of `xs`,
/// back to back.
pub open spec fn rice_stream(xs: Seq<nat>, m: nat) -> Seq<bool>
    decreases xs.len(),
{
    if xs.len() == 0 {
        Seq::empty()
    } else {
        rice_code(xs[0], m) + rice_stream(xs.drop_first(), m)
    }
}

/// Where the `i`-th code of `rice_stream(xs, m)` starts.
pub open spec fn rice_stream_offset(xs: Seq<nat>, m: nat, i: nat) -> nat {
    rice_stream(xs.take(i as int), m).len()
}

/// The codes of a stream follow one another: from where the `i`-th one
/// starts, the stream holds that code, then the codes of the numbers after.
proof fn lemma_rice_stream_skip(xs: Seq<nat>, m: nat, i: nat)
    requires
        i <= xs.len(),
    ensures
        rice_stream(xs.take(i as int), m) + rice_stream(xs.skip(i as int), m) == rice_stream(
            xs,
            m,
        ),
    decreases i,
{
    if i == 0 {
        assert(xs.take(0) =~= Seq::<nat>::empty());
        assert(xs.skip(0) =~= xs);
        assert(rice_stream(xs.take(0), m) =~= Seq::<bool>::empty());
        assert(rice_stream(xs.take(0), m) + rice_stream(xs, m) =~= rice_stream(xs, m));
    } else {
        let ys = xs.drop_first();
        lemma_rice_stream_skip(ys, m, (i - 1) as nat);
        assert(xs.take(i as int).drop_first() =~= ys.take(i - 1));
        assert(xs.take(i as int)[0] == xs[0]);
        assert(ys.skip(i - 1) =~= xs.skip(i as int));
        assert(rice_stream(xs.take(i as int), m) == rice_code(xs[0], m) + rice_stream(
            ys.take(i - 1),
            m,
        ));
        assert(rice_stream(xs.take(i as int), m) + rice_stream(xs.skip(i as int), m) =~= rice_code(
            xs[0],
            m,
        ) + (rice_stream(ys.take(i - 1), m) + rice_stream(ys.skip(i - 1), m)));
    }
}

/// Decoding a stream of back-to-back codes: reading a code where the
/// `i`-th one starts gives back the `i`-th number's quotient and remainder,
/// and the read takes exactly as many bits as lie before the next code.
pub proof fn lemma_rice_stream_decode(xs: Seq<nat>, m: nat, i: nat)
    requires
        i < xs.len(),
    ensures
        rice_split(rice_stream(xs, m).skip(rice_stream_offset(xs, m, i) as int), m) == Some(
            (
                xs[i as int] / pow2(m),
                xs[i as int] % pow2(m),
                (rice_stream_offset(xs, m, i + 1) - rice_stream_offset(xs, m, i)) as nat,
            ),
        ),
        (xs[i as int] / pow2(m)) * pow2(m) + xs[i as int] % pow2(m) == xs[i as int],
{
    let s = rice_stream(xs, m);
    let off = rice_stream_offset(xs, m, i);
    lemma_rice_stream_skip(xs, m, i);
    let tail = xs.skip(i as int);
    assert(tail[0] == xs[i as int]);
    assert(s.skip(off as int) =~= rice_stream(tail, m));
    assert(rice_stream(tail, m) == rice_code(xs[i as int], m) + rice_stream(tail.drop_first(), m));
    lemma_rice_split_code(xs[i as int], m, rice_stream(tail.drop_first(), m));
    // The next offset is this one plus the length of the i-th code.
    assert(xs.take(i + 1 as int) =~= xs.take(i as int).push(xs[i as int]));
    lemma_rice_stream_skip(xs.take(i + 1 as int), m, i);
    assert(xs.take(i + 1 as int).take(i as int) =~= xs.take(i as int));
    assert(xs.take(i + 1 as int).skip(i as int) =~= seq![xs[i as int]]);
    let one = seq![xs[i as int]];
    assert(one.drop_first() =~= Seq::<nat>::empty());
    assert(rice_stream(one.drop_first(), m) =~= Seq::<bool>::empty());
    assert(rice_stream(one, m) =~= rice_code(xs[i as int], m));
}

/// The number of set bits at the front of `store`, counted in a `usize`.
fn count_leading_ones(store: &BitSlice) -> (r: usize)
    ensures
        r == leading_ones(store@),
{
    proof {
        lemma_leading_ones(store@);
    }
    let n = store.len();
    let mut i: usize = 0;
    while i < n
        invariant
            n == store@.len(),
            i <= leading_ones(store@),
            leading_ones(store@) <= store@.len(),
            forall|j: int| 0 <= j < leading_ones(store@) ==> store@[j],
            leading_ones(store@) < store@.len() ==> !store@[leading_ones(store@) as int],
        decreases n - i,
    {
        if store.get(i) == Some(false) {
            return i;
        }
        i = i + 1;
    }
    i
}

/// What `rice_decode_remainder` reads from the front of `s`: the first
/// `k = min(m, |s|)` bits as a number, least significant first. In a
/// signed type a short read (`0 < k < m`) whose last bit is set is
/// sign-extended, which sets the bits `k .. m` as well.
pub open spec fn partial_remainder(s: Seq<bool>, m: nat, signed: bool) -> nat {
    let k = if m <= s.len() {
        m
    } else {
        s.len()
    };
    if signed && 0 < k < m && s[k - 1] {
        (bits_value(s.take(k as int)) + pow2(m) - pow2(k)) as nat
    } else {
        bits_value(s.take(k as int))
    }
}

/// What a remainder read gives, bit by bit: it fits in `m` bits, and its
/// bit `j` below `m` is bit `j` of `s` where `s` has one; past the end of a
/// shorter `s` it is set exactly when the type is signed and the last bit of
/// `s` is set.
pub proof fn lemma_partial_remainder_bits(s: Seq<bool>, m: nat, signed: bool)
    ensures
        partial_remainder(s, m, signed) < pow2(m),
        forall|j: nat|
            j < m ==> #[trigger] bit_of(partial_remainder(s, m, signed), j) == if (j as int)
                < s.len() {
                s[j as int]
            } else {
                signed && s.len() > 0 && s[s.len() - 1]
            },
{
    let k: nat = if m <= s.len() {
        m
    } else {
        s.len()
    };
    let t = s.take(k as int);
    let v = bits_value(t);
    lemma_bits_value_bound(t);
    crate::bits::lemma_low_bits_bits_value(t);
    lemma_pow2_pos(k);
    lemma_pow2_le(k, m);
    let fill = signed && 0 < k < m && s[k - 1];
    let h: nat = if fill {
        (pow2((m - k) as nat) - 1) as nat
    } else {
        0
    };
    lemma_pow2_pos((m - k) as nat);
    lemma_pow2_adds(k, (m - k) as nat);
    assert(partial_remainder(s, m, signed) == v + pow2(k) * h) by (nonlinear_arith)
        requires
            fill ==> partial_remainder(s, m, signed) == v + pow2(m) - pow2(k),
            !fill ==> partial_remainder(s, m, signed) == v,
            fill ==> h == pow2((m - k) as nat) - 1,
            !fill ==> h == 0,
            pow2(m) == pow2(k) * pow2((m - k) as nat),
    ;
    assert(v + pow2(k) * h < pow2(m)) by (nonlinear_arith)
        requires
            v < pow2(k),
            h <= pow2((m - k) as nat) - 1,
            pow2(m) == pow2(k) * pow2((m - k) as nat),
    ;
    assert forall|j: nat| j < m implies #[trigger] bit_of(partial_remainder(s, m, signed), j)
        == if (j as int) < s.len() {
        s[j as int]
    } else {
        signed && s.len() > 0 && s[s.len() - 1]
    } by {
        crate::bits::lemma_bit_of_split(v, k, h, j);
        if j < k {
            assert(low_bits(v, k)[j as int] == bit_of(v, j));
            assert(t[j as int] == s[j as int]);
        } else if fill {
            crate::bits::lemma_mask_bits((m - k) as nat, (j - k) as nat);
        } else {
            lemma_pow2_pos((j - k) as nat);
            assert(h == 0);
            assert((0nat / pow2((j - k) as nat)) == 0);
        }
    }
}

/// Rice-Golomb coding of an integer type, with `MAX_BITS` bits of remainder.
pub trait Rice: RiceAux {
    /// Appends the quotient `self / 2^MAX_BITS` in unary: that many set
    /// bits, then one clear bit. The value must not be negative.
    fn rice_encode_quotient<const MAX_BITS: u32>(self, store: &mut BitVec)
        requires
            MAX_BITS < Self::width(),
            self.value() >= 0,
            old(store)@.len() + self.value() / (pow2(MAX_BITS as nat) as int) + 1
                <= max_store_len(),
        ensures
            final(store)@ == old(store)@ + unary_code(
                (self.value() / (pow2(MAX_BITS as nat) as int)) as nat,
            ),
    {
        proof {
            Self::lemma_width();
            lemma_pow2_pos(MAX_BITS as nat);
        }
        let binary_quotient = self.quotient::<MAX_BITS>();
        let q = binary_quotient.to_raw();
        let ghost qv = self.value() / (pow2(MAX_BITS as nat) as int);
        proof {
            binary_quotient.lemma_value();
            lemma_wrap_unwrap(qv, Self::width(), Self::signed());
            assert(0 <= qv);
            lemma_fundamental_div_mod_converse(qv, pow2(Self::width()) as int, 0, qv);
            assert(q == qv);
        }
        if q < Self::width_bits() as u128 {
            let unary_quotient = binary_quotient.to_unary();
            let u = unary_quotient.to_raw();
            proof {
                lemma_pow2_pos(q as nat);
                lemma_pow2_le(q as nat, (Self::width() - 1) as nat);
                lemma_pow2_unfold(Self::width());
                lemma_pow2_pos((Self::width() - 1) as nat);
                lemma_fundamental_div_mod_converse(
                    unary_quotient.value(),
                    pow2(Self::width()) as int,
                    0,
                    unary_quotient.value(),
                );
                lemma_unary_mask(q as nat);
            }
            store.append_low_bits(u, (q + 1) as usize);
        } else {
            let n = q as usize;
            let mut i: usize = 0;
            while i < n
                invariant
                    i <= n,
                    n == qv,
                    n + 1 + old(store)@.len() <= max_store_len(),
                    store@ == old(store)@ + Seq::new(i as nat, |j: int| true),
                decreases n - i,
            {
                store.push(true);
                i = i + 1;
                assert(store@ =~= old(store)@ + Seq::new(i as nat, |j: int| true));
            }
            store.push(false);
            assert(store@ =~= old(store)@ + unary_code(n as nat));
        }
    }

    /// Appends the remainder `self mod 2^MAX_BITS` in `MAX_BITS` bits,
    /// least significant first.
    fn rice_encode_remainder<const MAX_BITS: u32>(self, store: &mut BitVec)
        requires
            MAX_BITS < Self::width(),
            old(store)@.len() + MAX_BITS <= max_store_len(),
        ensures
            final(store)@ == old(store)@ + low_bits(
                (self.value() % (pow2(MAX_BITS as nat) as int)) as nat,
                MAX_BITS as nat,
            ),
    {
        proof {
            Self::lemma_width();
            lemma_pow2_pos(MAX_BITS as nat);
        }
        let binary_remainder = self.remainder::<MAX_BITS>();
        let r = binary_remainder.to_raw();
        proof {
            let rv = binary_remainder.value();
            vstd::arithmetic::div_mod::lemma_mod_bound(self.value(), pow2(MAX_BITS as nat) as int);
            lemma_pow2_le(MAX_BITS as nat, Self::width());
            lemma_fundamental_div_mod_converse(rv, pow2(Self::width()) as int, 0, rv);
        }
        store.append_low_bits(r, MAX_BITS as usize);
    }

    /// Reads a unary quotient from the front of `store`: the number of set
    /// bits before the first clear one, and the number of bits it takes,
    /// that clear bit included. There is none when `store` holds no clear
    /// bit. When there is one, the quotient is a value of `Self`, so it may
    /// not exceed the type's largest value.
    fn rice_decode_quotient<const MAX_BITS: u32>(store: &BitSlice) -> (res: Option<(Self, usize)>)
        requires
            leading_ones(store@) < store@.len() ==> leading_ones(store@) <= max_value(
                Self::width(),
                Self::signed(),
            ),
        ensures
            (res is Some) == (leading_ones(store@) < store@.len()),
            res matches Some((q, skip)) ==> q.value() == leading_ones(store@) && skip
                == leading_ones(store@) + 1,
    {
        proof {
            Self::lemma_width();
            lemma_pow2_unfold(Self::width());
            lemma_pow2_pos((Self::width() - 1) as nat);
        }
        let ones = count_leading_ones(store);
        if ones < store.len() {
            Some((Self::from_raw(ones as u128), ones + 1))
        } else {
            None
        }
    }

    /// Reads a remainder of up to `MAX_BITS` bits, least significant bit
    /// first, from the front of `store`: all `MAX_BITS` bits when there are
    /// that many, else as many as there are. Those bits are loaded into
    /// `Self`, so in a signed type a short read is sign-extended from its
    /// last bit, and the `MAX_BITS` low bits of the result are kept.
    fn rice_decode_remainder<const MAX_BITS: u32>(store: &BitSlice) -> (res: Option<Self>)
        requires
            MAX_BITS < Self::width(),
        ensures
            res matches Some(r) && r.value() == partial_remainder(
                store@,
                MAX_BITS as nat,
                Self::signed(),
            ),
            MAX_BITS <= store@.len() ==> (res matches Some(r) && r.value() == bits_value(
                store@.take(MAX_BITS as int),
            )),
    {
        proof {
            Self::lemma_width();
            lemma_pow2_pos(MAX_BITS as nat);
            lemma_pow2_le(MAX_BITS as nat, (Self::width() - 1) as nat);
            lemma_pow2_unfold(Self::width());
            lemma_pow2_pos((Self::width() - 1) as nat);
        }
        let len = store.len();
        let max_pos: usize = if (MAX_BITS as usize) < len {
            MAX_BITS as usize
        } else {
            len
        };
        let loaded: u128 = if max_pos == 0 {
            assert(store@.take(0) =~= Seq::<bool>::empty());
            0
        } else {
            store.load(0, max_pos)
        };
        proof {
            assert(store@.subrange(0, max_pos as int) =~= store@.take(max_pos as int));
            lemma_bits_value_bound(store@.take(max_pos as int));
            lemma_pow2_le(max_pos as nat, MAX_BITS as nat);
        }
        // A short read into a signed type repeats its last bit upwards.
        let sign_fill = Self::is_signed() && 0 < max_pos && max_pos < MAX_BITS as usize
            && store.get(max_pos - 1) == Some(true);
        let filled: u128 = if sign_fill {
            proof {
                lemma_pow2_strictly_increases(max_pos as nat, MAX_BITS as nat);
            }
            loaded + (low_mask(MAX_BITS) - low_mask(max_pos as u32))
        } else {
            loaded
        };
        let r = Self::from_raw(filled);
        proof {
            lemma_small_mod(filled as nat, pow2(MAX_BITS as nat));
        }
        Some(r.remainder::<MAX_BITS>())
    }

    /// Appends the Rice-Golomb code of `self`: the quotient in unary, then
    /// the remainder in `MAX_BITS` bits. The value must not be negative.
    fn rice_encode<const MAX_BITS: u32>(self, store: &mut BitVec)
        requires
            MAX_BITS < Self::width(),
            self.value() >= 0,
            old(store)@.len() + self.value() / (pow2(MAX_BITS as nat) as int) + 1 + MAX_BITS
                <= max_store_len(),
        ensures
            final(store)@ == old(store)@ + rice_code(self.value() as nat, MAX_BITS as nat),
    {
        proof {
            lemma_pow2_pos(MAX_BITS as nat);
        }
        self.rice_encode_quotient::<MAX_BITS>(store);
        self.rice_encode_remainder::<MAX_BITS>(store);
        assert(store@ =~= old(store)@ + rice_code(self.value() as nat, MAX_BITS as nat));
    }

    /// Reads one Rice-Golomb code from the front of `store`: the value, of
    /// which only the type's width of low bits of `(quotient << MAX_BITS) |
    /// remainder` are kept, and the number of bits the code takes. There is
    /// none when `store` holds no clear bit to end the quotient or fewer
    /// than `MAX_BITS` bits after it. When there is a full code, its
    /// quotient is a value of `Self`, so it may not exceed the type's
    /// largest value.
    fn rice_decode<const MAX_BITS: u32>(store: &BitSlice) -> (res: Option<(Self, usize)>)
        requires
            MAX_BITS < Self::width(),
            rice_split(store@, MAX_BITS as nat) is Some ==> leading_ones(store@) <= max_value(
                Self::width(),
                Self::signed(),
            ),
        ensures
            match rice_split(store@, MAX_BITS as nat) {
                None => res is None,
                Some((q, r, n)) => res matches Some((v, skip)) && skip == n && v.value()
                    == combine(q, r, MAX_BITS as nat, Self::width(), Self::signed()),
            },
    {
        proof {
            Self::lemma_width();
            lemma_leading_ones(store@);
        }
        let total = store.len();
        let ones = count_leading_ones(store);
        if ones >= total || total - (ones + 1) < MAX_BITS as usize {
            return None;
        }
        let (quot, skip) = match Self::rice_decode_quotient::<MAX_BITS>(store) {
            Some(found) => found,
            None => return None,
        };
        let rest = match store.slice_from(skip) {
            Some(rest) => rest,
            None => return None,
        };
        let rem = match Self::rice_decode_remainder::<MAX_BITS>(&rest) {
            Some(rem) => rem,
            None => return None,
        };
        let ghost lo = leading_ones(store@);
        proof {
            assert(rest@.take(MAX_BITS as int) =~= store@.subrange(lo + 1 as int, lo + 1 + MAX_BITS as int));
            lemma_bits_value_bound(rest@.take(MAX_BITS as int));
            quot.lemma_value();
            lemma_pow2_unfold(Self::width());
            lemma_pow2_pos((Self::width() - 1) as nat);
            lemma_pow2_le(MAX_BITS as nat, (Self::width() - 1) as nat);
            lemma_fundamental_div_mod_converse(lo as int, pow2(Self::width()) as int, 0, lo as int);
            lemma_fundamental_div_mod_converse(
                rem.value(),
                pow2(Self::width()) as int,
                0,
                rem.value(),
            );
        }
        let x = shift_in(quot.to_raw(), rem.to_raw(), MAX_BITS, Self::width_bits());
        proof {
            lemma_pow2_pos(Self::width());
            lemma_mod_pos_bound((lo * pow2(MAX_BITS as nat) + rem.value()), pow2(Self::width()) as int);
        }
        Some((Self::from_raw(x), skip + MAX_BITS as usize))
    }
}

impl<T: RiceInt> Rice for T {
}

} // verus!
