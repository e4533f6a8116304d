use rice_golomb::BitVec;
use rice_golomb::Encoder;
use std::iter;

#[test]
fn u64_value_stream_compaction() {
    type RegInt = u64;
    const MAX_BITS: u32 = 8;

    let mut store = BitVec::new();

    let sorted_elements = [
        20, 21, 26, 36, 49, 55, 62, 79, 135, 282, 291, 340, 525, 537, 569, 644, 665, 759, 841,
        975, 2518, 3475, 4577, 4750, 4998, 5499, 5566, 5952, 7035, 7939, 8506, 9240,
    ];

    for elem in sorted_elements {
        Encoder::<RegInt, MAX_BITS>::encode(&elem, &mut store);
        assert_eq!(
            elem,
            Encoder::<RegInt, MAX_BITS>::decode(&store.as_bitslice()).unwrap(),
        );
        println!("encoded len of {elem} => {}", store.len());
        store.clear();
    }

    for diff in iter::once(0)
        .chain(sorted_elements.iter().copied())
        .zip(sorted_elements.iter().copied())
        .map(|(prev, next)| next - prev)
    {
        Encoder::<RegInt, MAX_BITS>::encode(&diff, &mut store);
    }

    assert!(sorted_elements.len() * 64 > store.len());

    let mut ptr = 0;
    let mut decoded_elements = Vec::with_capacity(sorted_elements.len());
    let mut last = None;

    while let Some((decoded_diff, skip)) = store
        .slice_from(ptr)
        .and_then(|store| Encoder::<RegInt, MAX_BITS>::decode_and_skip(&store))
    {
        let decoded = decoded_diff + last.unwrap_or_default();

        decoded_elements.push(decoded);

        ptr += skip;
        last = Some(decoded);
    }

    assert_eq!(sorted_elements.len(), decoded_elements.len());
    assert_eq!(&sorted_elements[..], decoded_elements);
}

#[test]
fn encoder_decode_reports_short_input() {
    let mut store = BitVec::new();
    Encoder::<u32, 4>::encode(&37, &mut store); // Q=2, R=5: 1 1 0 | 1 0 1 0
    assert_eq!(store.len(), 7);
    assert_eq!(Encoder::<u32, 4>::decode(&store.as_bitslice()), Some(37));
    assert_eq!(Encoder::<u32, 4>::decode_and_skip(&store.as_bitslice()), Some((37, 7)));
    assert_eq!(Encoder::<u32, 4>::decode(&store.slice_from(3).unwrap()), None);
    assert_eq!(Encoder::<u32, 4>::decode_and_skip(&BitVec::new().as_bitslice()), None);
}

#[test]
fn bit_slices_view_the_tail() {
    let mut store = BitVec::new();
    store.push(true);
    store.push(false);
    store.push(true);
    let tail = store.slice_from(1).unwrap();
    assert_eq!(tail.len(), 2);
    assert_eq!(tail.get(0), Some(false));
    assert_eq!(tail.get(1), Some(true));
    assert_eq!(tail.get(2), None);
    assert!(tail.slice_from(2).unwrap().is_empty());
    assert!(tail.slice_from(3).is_none());
    assert!(store.slice_from(4).is_none());
}

#[test]
fn decode_is_decode_and_skip_without_the_skip() {
    let mut store = BitVec::new();
    Encoder::<u16, 3>::encode(&77, &mut store);
    Encoder::<u16, 3>::encode(&5, &mut store);
    for _ in 0..400 {
        store.push(true);
    }
    for start in 0..store.len() + 1 {
        let slice = store.slice_from(start).unwrap();
        assert_eq!(
            Encoder::<u8, 3>::decode(&slice),
            Encoder::<u8, 3>::decode_and_skip(&slice).map(|(v, _)| v)
        );
        assert_eq!(
            Encoder::<u16, 3>::decode(&slice),
            Encoder::<u16, 3>::decode_and_skip(&slice).map(|(v, _)| v)
        );
    }
    assert_eq!(Encoder::<u16, 3>::decode(&store.as_bitslice()), Some(77));
    assert_eq!(Encoder::<u8, 3>::decode(&store.slice_from(17).unwrap()), None);
}

#[test]
fn bounded_slices_view_a_run_of_bits() {
    let mut store = BitVec::new();
    Encoder::<u32, 2>::encode(&9, &mut store); // Q=2, R=1: 1 1 0 | 1 0
    for _ in 0..3 {
        store.push(true);
    }
    let code = store.slice(0, 5).unwrap();
    assert_eq!(code.len(), 5);
    assert_eq!(Encoder::<u32, 2>::decode_and_skip(&code), Some((9, 5)));
    // Cutting the view short leaves no full code.
    assert_eq!(Encoder::<u32, 2>::decode(&store.slice(0, 4).unwrap()), None);
    let inner = code.slice(1, 3).unwrap();
    assert_eq!(inner.get(0), Some(true));
    assert_eq!(inner.get(1), Some(false));
    assert_eq!(inner.get(2), None);
    assert!(code.slice(3, 6).is_none());
    assert!(store.slice(2, 1).is_none());
    assert!(store.slice(0, 9).is_none());
}
