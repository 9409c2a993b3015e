use typed_memory::ArrayBuffer;
use typed_memory::TypedArray;
use typed_memory::TypedArrayKind;

#[test]
fn whole_buffer_scenario_u8() {
    let mut buffer = ArrayBuffer::new(4).unwrap();
    let view = TypedArray::with_buffer(TypedArrayKind::UInt8, &buffer).unwrap();
    assert_eq!(view.len(), 4);
    assert!(view.set_number(&mut buffer, 0, 65.0f64.to_bits()).is_ok());
    assert_eq!(view.get_number(&buffer, 0), Some(65.0f64.to_bits()));
    assert!(view.set_number(&mut buffer, 4, 1.0f64.to_bits()).is_err());
}

#[test]
fn typed_get_and_set_round_trip() {
    let mut buffer = ArrayBuffer::new(16).unwrap();
    let view = TypedArray::with_buffer(TypedArrayKind::SInt32, &buffer).unwrap();
    assert_eq!(view.len(), 4);
    assert!(view.set::<i32>(&mut buffer, 2, -123456789).is_ok());
    assert_eq!(view.get::<i32>(&buffer, 2), Some(-123456789));
    assert_eq!(view.get::<i32>(&buffer, 0), Some(0));
}

#[test]
fn typed_access_probes_kind_without_failing_hard() {
    let mut buffer = ArrayBuffer::new(8).unwrap();
    let view = TypedArray::with_buffer(TypedArrayKind::UInt16, &buffer).unwrap();
    // Wrong element type: an empty result, not an error.
    assert_eq!(view.get::<u32>(&buffer, 0), None);
    assert_eq!(view.get::<i16>(&buffer, 0), None);
    assert!(view.set::<u8>(&mut buffer, 0, 7).is_err());
    // Matching type works.
    assert!(view.set::<u16>(&mut buffer, 3, 0xbeef).is_ok());
    assert_eq!(view.get::<u16>(&buffer, 3), Some(0xbeef));
    // Out-of-range index: empty on read, failure indicator on write.
    assert_eq!(view.get::<u16>(&buffer, 4), None);
    assert!(view.set::<u16>(&mut buffer, 4, 1).is_err());
}

#[test]
fn aliasing_u32_write_is_visible_through_u8_view() {
    let mut buffer = ArrayBuffer::new(4).unwrap();
    let u8_view = TypedArray::with_buffer(TypedArrayKind::UInt8, &buffer).unwrap();
    let u32_view = TypedArray::with_buffer(TypedArrayKind::UInt32, &buffer).unwrap();
    let value: u32 = 0x01020304;
    assert!(u32_view
        .set_number(&mut buffer, 0, (value as f64).to_bits())
        .is_ok());
    // Native byte order is little-endian: least-significant byte first.
    let expected = value.to_le_bytes();
    for i in 0..4 {
        assert_eq!(
            u8_view.get_number(&buffer, i),
            Some((expected[i] as f64).to_bits())
        );
    }
    // The same bytes are visible through the raw buffer too.
    assert_eq!(buffer.slice(), &expected);
}

#[test]
fn aliasing_u8_writes_assemble_into_a_u32() {
    let mut buffer = ArrayBuffer::new(4).unwrap();
    let u8_view = TypedArray::with_buffer(TypedArrayKind::UInt8, &buffer).unwrap();
    let u32_view = TypedArray::with_buffer(TypedArrayKind::UInt32, &buffer).unwrap();
    for (i, b) in [0x44u8, 0x33, 0x22, 0x11].iter().enumerate() {
        assert!(u8_view.set::<u8>(&mut buffer, i, *b).is_ok());
    }
    assert_eq!(u32_view.get::<u32>(&buffer, 0), Some(0x11223344));
}

#[test]
fn overlapping_views_at_offsets_share_bytes() {
    let mut buffer = ArrayBuffer::new(8).unwrap();
    let whole = TypedArray::with_buffer(TypedArrayKind::UInt16, &buffer).unwrap();
    let tail = TypedArray::with_offset(TypedArrayKind::UInt16, &buffer, 4).unwrap();
    assert_eq!(tail.len(), 2);
    assert!(tail.set::<u16>(&mut buffer, 0, 0xaaaa).is_ok());
    assert_eq!(whole.get::<u16>(&buffer, 2), Some(0xaaaa));
}

#[test]
fn writes_do_not_touch_neighbouring_elements() {
    let mut buffer = ArrayBuffer::new(6).unwrap();
    let view = TypedArray::with_buffer(TypedArrayKind::UInt16, &buffer).unwrap();
    assert!(view.set::<u16>(&mut buffer, 0, 0x1111).is_ok());
    assert!(view.set::<u16>(&mut buffer, 1, 0x2222).is_ok());
    assert!(view.set::<u16>(&mut buffer, 2, 0x3333).is_ok());
    assert!(view.set::<u16>(&mut buffer, 1, 0xffee).is_ok());
    assert_eq!(view.get::<u16>(&buffer, 0), Some(0x1111));
    assert_eq!(view.get::<u16>(&buffer, 1), Some(0xffee));
    assert_eq!(view.get::<u16>(&buffer, 2), Some(0x3333));
}

#[test]
fn signed_elements_store_twos_complement() {
    let mut buffer = ArrayBuffer::new(2).unwrap();
    let view = TypedArray::with_buffer(TypedArrayKind::SInt16, &buffer).unwrap();
    assert!(view.set::<i16>(&mut buffer, 0, -2).is_ok());
    assert_eq!(buffer.slice(), &(-2i16).to_le_bytes());
    assert_eq!(view.get::<i16>(&buffer, 0), Some(-2));
    assert!(view.set::<i16>(&mut buffer, 0, i16::MIN).is_ok());
    assert_eq!(view.get::<i16>(&buffer, 0), Some(i16::MIN));
}

#[test]
fn sixty_four_bit_elements_round_trip() {
    let mut buffer = ArrayBuffer::new(16).unwrap();
    let signed = TypedArray::with_buffer(TypedArrayKind::SInt64, &buffer).unwrap();
    assert!(signed.set::<i64>(&mut buffer, 0, i64::MIN).is_ok());
    assert!(signed.set::<i64>(&mut buffer, 1, i64::MAX).is_ok());
    assert_eq!(signed.get::<i64>(&buffer, 0), Some(i64::MIN));
    assert_eq!(signed.get::<i64>(&buffer, 1), Some(i64::MAX));
    let unsigned = TypedArray::with_buffer(TypedArrayKind::UInt64, &buffer).unwrap();
    assert!(unsigned.set::<u64>(&mut buffer, 0, u64::MAX).is_ok());
    assert_eq!(unsigned.get::<u64>(&buffer, 0), Some(u64::MAX));
    assert!(unsigned.set::<u64>(&mut buffer, 1, 0x1122334455667788).is_ok());
    assert_eq!(
        &buffer.slice()[8..],
        &0x1122334455667788u64.to_le_bytes()
    );
}
