use rice_golomb::BitVec;
use rice_golomb::Encodable;

#[test]
fn extend_from_int() {
    let mut store = BitVec::new();

    const BITMAP: u64 = 0b111010u64;

    BITMAP.encode(&mut store);

    for (i, expected_bit) in [false, true, false, true, true, true]
        .into_iter()
        .enumerate()
    {
        assert_eq!(expected_bit, store.get(i).unwrap());
    }

    assert_eq!(<u64 as Encodable>::len(&BITMAP), store.len());
}

#[test]
fn extend_from_slice() {
    let mut store = BitVec::new();

    let bits = [1u8, 2, 3, 4, 5, 6];

    bits.encode(&mut store);

    for (outer_idx, bitmap) in bits.into_iter().enumerate() {
        for (global_idx, expected_bit) in
            (0..8).map(|i| (outer_idx * 8 + i, (bitmap >> i) & 1 == 1))
        {
            assert_eq!(expected_bit, store.get(global_idx).unwrap());
        }
    }

    assert_eq!(<[u8] as Encodable>::len(&bits), store.len());
}

#[test]
fn encode_signed_int_writes_twos_complement() {
    let mut store = BitVec::new();
    (-2i8).encode(&mut store);
    assert_eq!(store.len(), 8);
    let expected = [false, true, true, true, true, true, true, true];
    for (i, bit) in expected.into_iter().enumerate() {
        assert_eq!(store.get(i), Some(bit));
    }
    assert_eq!(store.get(8), None);
}

#[test]
fn encode_appends_after_existing_bits() {
    let mut store = BitVec::new();
    store.push(true);
    5u16.encode(&mut store);
    assert_eq!(store.len(), 17);
    assert_eq!(store.get(0), Some(true));
    assert_eq!(store.get(1), Some(true));
    assert_eq!(store.get(2), Some(false));
    assert_eq!(store.get(3), Some(true));
    for i in 4..17 {
        assert_eq!(store.get(i), Some(false));
    }
}

#[test]
fn encodable_len_and_is_empty() {
    let empty: [u8; 0] = [];
    assert_eq!(<[u8] as Encodable>::len(&empty), 0);
    assert!(<[u8] as Encodable>::is_empty(&empty));
    assert!(!<[u8] as Encodable>::is_empty(&[7u8]));
    assert_eq!(<u128 as Encodable>::len(&1u128), 128);
    assert_eq!(<i32 as Encodable>::len(&-1i32), 32);
    assert!(!<u8 as Encodable>::is_empty(&0u8));

    let mut store = BitVec::new();
    empty.encode(&mut store);
    assert!(store.is_empty());
}

#[test]
fn encode_u128_all_bits() {
    let mut store = BitVec::new();
    (u128::MAX - 1).encode(&mut store);
    assert_eq!(store.len(), 128);
    assert_eq!(store.get(0), Some(false));
    for i in 1..128 {
        assert_eq!(store.get(i), Some(true));
    }
}
