use rice_golomb::BitVec;
use rice_golomb::Rice;
use rice_golomb::RiceAux;

#[test]
fn rice_decode() {
    let mut store = BitVec::new();

    // ---------------------------------------------------------
    // basic tests
    // ---------------------------------------------------------
    255u8.rice_encode::<7>(&mut store);
    assert_eq!(store.len(), 9);
    let (decoded, skip) = u8::rice_decode::<7>(&store.as_bitslice()).unwrap();
    assert_eq!(decoded, 255u8);
    assert_eq!(skip, 9);
    store.clear();

    1024u32.rice_encode::<10>(&mut store);
    assert_eq!(store.len(), 12);
    let (decoded, skip) = u32::rice_decode::<10>(&store.as_bitslice()).unwrap();
    assert_eq!(decoded, 1024u32);
    assert_eq!(skip, 12);
    store.clear();

    // ---------------------------------------------------------
    // 46-bit vectors
    // ---------------------------------------------------------

    0u64.rice_encode::<46>(&mut store);
    assert_eq!(store.len(), 47); // Q=0 (1 bit), R=0 (46 bits)
    let (decoded, skip) = u64::rice_decode::<46>(&store.as_bitslice()).unwrap();
    assert_eq!(decoded, 0u64);
    assert_eq!(skip, 47);
    store.clear();

    0x0000400000001337u64.rice_encode::<46>(&mut store);
    assert_eq!(store.len(), 48); // Q=1 (2 bits), R=0x1337 (46 bits)
    let (decoded, skip) = u64::rice_decode::<46>(&store.as_bitslice()).unwrap();
    assert_eq!(decoded, 0x0000400000001337u64);
    assert_eq!(skip, 48);
    store.clear();

    0x0004000000000123u64.rice_encode::<46>(&mut store);
    assert_eq!(store.len(), 63); // Q=16 (17 bits), R=0x0123 (46 bits)
    let (decoded, skip) = u64::rice_decode::<46>(&store.as_bitslice()).unwrap();
    assert_eq!(decoded, 0x0004000000000123u64);
    assert_eq!(skip, 63);
    store.clear();

    // ---------------------------------------------------------
    // continuous stream decoding; verify we can decode
    // multiple sequential elements by correctly advancing
    // via the `skip` offset
    // ---------------------------------------------------------
    let stream_values = [
        0u32,    // edge case 0
        15u32,   // fits perfectly in remainder (Q=0)
        42u32,   // Q=1, R=10
        100u32,  // Q=3, R=4
        9999u32, // large quotient
    ];

    // encode all into a single bitstream using MAX_BITS = 5
    for &v in stream_values.iter() {
        v.rice_encode::<5>(&mut store);
    }

    let mut offset = 0;
    for &expected in stream_values.iter() {
        // slice the bitvec from the current offset to the end
        let slice = store.slice_from(offset).unwrap();

        let (decoded, skip) = u32::rice_decode::<5>(&slice).expect("failed to decode");

        assert_eq!(decoded, expected, "mismatch at offset {offset}");
        offset += skip;
    }

    // ensure we perfectly consumed the entire bitstream
    assert_eq!(
        offset,
        store.len(),
        "stream length mismatch after full decode"
    );
    store.clear();
}

#[test]
fn encode_quotient() {
    let mut store = BitVec::new();

    struct TestCase {
        value: u64,
        pattern: Vec<bool>,
    }

    let cases = [
        TestCase {
            value: 0x0000000000000000,
            pattern: vec![false], // 0b0
        },
        TestCase {
            value: 0x0000200000000000,
            pattern: vec![false], // 0b0
        },
        TestCase {
            value: 0x0000400000001337,
            pattern: vec![true, false], // 0b01
        },
        TestCase {
            value: 0x0000C00000ABCDEF,
            pattern: vec![true, true, true, false], // 0b0111
        },
        TestCase {
            value: 0x0004000000000123,
            pattern: std::iter::repeat_n(true, 16)
                .chain(std::iter::once(false))
                .collect(), // 0b01111111111111111
        },
    ];

    for test_case in cases {
        test_case.value.rice_encode_quotient::<46>(&mut store);

        for (i, expected_bit) in test_case.pattern.into_iter().enumerate() {
            assert_eq!(expected_bit, store.get(i).unwrap());
        }

        store.clear();
    }
}

#[test]
fn encode_remainder() {
    let mut store = BitVec::new();

    struct TestCase {
        value: u64,
        expected_remainder: u64,
    }

    let cases = [
        TestCase {
            value: 0x0000000000000000,
            expected_remainder: 0x000000000000,
        },
        TestCase {
            value: 0x0000200000000000,
            expected_remainder: 0x200000000000,
        },
        TestCase {
            value: 0x0000400000001337,
            expected_remainder: 0x000000001337,
        },
        TestCase {
            value: 0x0000C00000ABCDEF,
            expected_remainder: 0x000000ABCDEF,
        },
        TestCase {
            value: 0x0004000000000123,
            expected_remainder: 0x000000000123,
        },
    ];

    for test_case in cases {
        test_case.value.rice_encode_remainder::<46>(&mut store);

        assert_eq!(store.len(), 46, "remainder must be exactly 46 bits");

        for i in 0..46 {
            let expected_bit = (test_case.expected_remainder & (1u64 << i)) != 0;

            assert_eq!(
                expected_bit,
                store.get(i).unwrap(),
                "mismatch at bit {i} for value {:#018X}",
                test_case.value
            );
        }

        store.clear();
    }
}

#[test]
fn unary() {
    let x = 0u64.to_unary();
    assert_eq!(x, 0b0, "got {x:b}");

    let x = 1u64.to_unary();
    assert_eq!(x, 0b1, "got {x:b}");

    let x = 2u64.to_unary();
    assert_eq!(x, 0b11, "got {x:b}");

    let x = 3u64.to_unary();
    assert_eq!(x, 0b111, "got {x:b}");

    let x = 4u64.to_unary();
    assert_eq!(x, 0b1111, "got {x:b}");

    let x = 63u64.to_unary();
    assert_eq!(x, !(1 << 63), "got {x:b}");
}

#[test]
fn unary_signed_and_wide() {
    assert_eq!(7i8.to_unary(), 127i8);
    assert_eq!(0i32.to_unary(), 0i32);
    assert_eq!(127u128.to_unary(), u128::MAX >> 1);
    assert_eq!(5usize.to_unary(), 31usize);
}

#[test]
fn quotient_and_remainder_split_values() {
    assert_eq!(100u32.quotient::<5>(), 3);
    assert_eq!(100u32.remainder::<5>(), 4);
    // Negative values round down and keep a non-negative remainder.
    assert_eq!((-100i32).quotient::<5>(), -4);
    assert_eq!((-100i32).remainder::<5>(), 28);
    assert_eq!((-1i8).quotient::<3>(), -1);
    assert_eq!((-1i8).remainder::<3>(), 7);
    assert_eq!(i128::MIN.quotient::<0>(), i128::MIN);
    assert_eq!(i128::MIN.remainder::<4>(), 0);
    assert_eq!(u128::MAX.quotient::<127>(), 1);
    assert_eq!(u128::MAX.remainder::<127>(), u128::MAX >> 1);
}

#[test]
fn decode_quotient_counts_leading_ones() {
    let mut store = BitVec::new();
    store.push(true);
    store.push(true);
    store.push(false);
    store.push(true);
    assert_eq!(u8::rice_decode_quotient::<3>(&store.as_bitslice()), Some((2u8, 3)));

    let mut ones = BitVec::new();
    ones.push(true);
    ones.push(true);
    assert_eq!(u8::rice_decode_quotient::<3>(&ones.as_bitslice()), None);
    assert_eq!(u8::rice_decode_quotient::<3>(&BitVec::new().as_bitslice()), None);
}

#[test]
fn decode_remainder_reads_the_bits_present() {
    let mut store = BitVec::new();
    store.push(true);
    store.push(false);
    store.push(true);
    assert_eq!(u16::rice_decode_remainder::<3>(&store.as_bitslice()), Some(5u16));
    assert_eq!(u16::rice_decode_remainder::<2>(&store.as_bitslice()), Some(1u16));
    // Fewer bits than the width: the bits that are there.
    assert_eq!(u16::rice_decode_remainder::<4>(&store.as_bitslice()), Some(5u16));
    assert_eq!(u16::rice_decode_remainder::<0>(&store.as_bitslice()), Some(0u16));
    assert_eq!(u16::rice_decode_remainder::<4>(&BitVec::new().as_bitslice()), Some(0u16));
}

#[test]
fn decode_without_a_full_code_is_none_for_long_runs() {
    // 300 set bits: more than a u8 can count, and no full code.
    let mut ones = BitVec::new();
    for _ in 0..300 {
        ones.push(true);
    }
    assert_eq!(u8::rice_decode::<3>(&ones.as_bitslice()), None);
    assert_eq!(u8::rice_decode_quotient::<3>(&ones.as_bitslice()), None);
    // 300 set bits, a clear bit, then a remainder cut short.
    ones.push(false);
    ones.push(true);
    assert_eq!(u8::rice_decode::<3>(&ones.as_bitslice()), None);
}

#[test]
fn decode_needs_a_full_code() {
    let mut store = BitVec::new();
    9u8.rice_encode::<3>(&mut store); // 1 0 | 1 0 0
    assert_eq!(store.len(), 5);
    // From the second bit on, the bits read as quotient 0, remainder 1.
    let tail = store.slice_from(1).unwrap();
    assert_eq!(u8::rice_decode::<3>(&tail), Some((1u8, 4)));
    // A remainder cut short: no value.
    let mut cut = BitVec::new();
    cut.push(true);
    cut.push(false);
    cut.push(true);
    assert_eq!(u8::rice_decode::<3>(&cut.as_bitslice()), None);
    // No clear bit at all: no value.
    let mut ones = BitVec::new();
    for _ in 0..5 {
        ones.push(true);
    }
    assert_eq!(u8::rice_decode::<3>(&ones.as_bitslice()), None);
}

#[test]
fn decode_keeps_only_the_low_bits_of_the_type() {
    // Quotient 5 with a 7-bit remainder does not fit a u8: (5 << 7) | 1
    // keeps its low eight bits, 0b1000_0001.
    let mut store = BitVec::new();
    for _ in 0..5 {
        store.push(true);
    }
    store.push(false);
    store.push(true);
    for _ in 0..6 {
        store.push(false);
    }
    assert_eq!(u8::rice_decode::<7>(&store.as_bitslice()), Some((129u8, 13)));
    assert_eq!(i8::rice_decode::<7>(&store.as_bitslice()), Some((-127i8, 13)));
}

#[test]
fn signed_values_roundtrip() {
    let mut store = BitVec::new();
    for v in [0i64, 1, 31, 32, 1000, i64::MAX >> 50] {
        v.rice_encode::<5>(&mut store);
    }
    let mut offset = 0;
    for v in [0i64, 1, 31, 32, 1000, i64::MAX >> 50] {
        let (d, skip) = i64::rice_decode::<5>(&store.slice_from(offset).unwrap()).unwrap();
        assert_eq!(d, v);
        offset += skip;
    }
    assert_eq!(offset, store.len());
}

#[test]
fn zero_remainder_bits_is_pure_unary() {
    let mut store = BitVec::new();
    3u16.rice_encode::<0>(&mut store);
    assert_eq!(store.len(), 4);
    assert_eq!(store.get(3), Some(false));
    assert_eq!(u16::rice_decode::<0>(&store.as_bitslice()), Some((3u16, 4)));
}

#[test]
fn short_remainder_in_signed_type_is_sign_extended() {
    let mut store = BitVec::new();
    store.push(true);
    store.push(true);
    store.push(true);
    assert_eq!(i8::rice_decode_remainder::<7>(&store.as_bitslice()), Some(127i8));
    assert_eq!(u8::rice_decode_remainder::<7>(&store.as_bitslice()), Some(7u8));
    assert_eq!(i8::rice_decode_remainder::<3>(&store.as_bitslice()), Some(7i8));
    let mut low = BitVec::new();
    low.push(true);
    low.push(true);
    low.push(false);
    assert_eq!(i8::rice_decode_remainder::<7>(&low.as_bitslice()), Some(3i8));
    let mut one = BitVec::new();
    one.push(true);
    assert_eq!(i64::rice_decode_remainder::<5>(&one.as_bitslice()), Some(31i64));
}
