use typed_memory::ArrayBuffer;
use typed_memory::TypedArray;
use typed_memory::TypedArrayKind;

fn number_round_trip(kind: TypedArrayKind, written: f64) -> f64 {
    let (view, mut buffer) = TypedArray::with_len(kind, 1).unwrap();
    view.set_number(&mut buffer, 0, written.to_bits()).unwrap();
    f64::from_bits(view.get_number(&buffer, 0).unwrap())
}

/// The reference for truncate-and-wrap on values whose integer part fits
/// an `i128`: truncate toward zero, then wrap modulo `2^bits`.
fn wrap_reference(value: f64, bits: u32) -> u64 {
    let t = value.trunc() as i128;
    (t.rem_euclid(1i128 << bits)) as u64
}

#[test]
fn sint8_truncation_round_trip() {
    // 300 wraps to 44 in eight bits, reinterpreted as a signed byte.
    assert_eq!(number_round_trip(TypedArrayKind::SInt8, 300.0), 44.0);
}

#[test]
fn integer_writes_truncate_toward_zero_and_wrap() {
    let cases = [
        0.0, -0.0, 1.0, -1.0, 0.5, -0.5, 1.9, -1.9, 127.0, 128.0, 255.0, 256.0, 300.0, -300.7,
        65535.9, 65536.0, -65537.2, 4294967295.0, 4294967296.0, -4294967297.0, 1e15, -1e15,
        9007199254740993.0, 1e18, -1e18,
    ];
    for value in cases {
        let got = number_round_trip(TypedArrayKind::UInt8, value);
        assert_eq!(got, wrap_reference(value, 8) as f64, "u8 {value}");
        let got = number_round_trip(TypedArrayKind::UInt16, value);
        assert_eq!(got, wrap_reference(value, 16) as f64, "u16 {value}");
        let got = number_round_trip(TypedArrayKind::UInt32, value);
        assert_eq!(got, wrap_reference(value, 32) as f64, "u32 {value}");
        let got = number_round_trip(TypedArrayKind::SInt8, value);
        assert_eq!(got, wrap_reference(value, 8) as u8 as i8 as f64, "i8 {value}");
        let got = number_round_trip(TypedArrayKind::SInt16, value);
        assert_eq!(
            got,
            wrap_reference(value, 16) as u16 as i16 as f64,
            "i16 {value}"
        );
        let got = number_round_trip(TypedArrayKind::SInt32, value);
        assert_eq!(
            got,
            wrap_reference(value, 32) as u32 as i32 as f64,
            "i32 {value}"
        );
        let got = number_round_trip(TypedArrayKind::UInt64, value);
        assert_eq!(got, wrap_reference(value, 64) as f64, "u64 {value}");
        let got = number_round_trip(TypedArrayKind::SInt64, value);
        assert_eq!(got, wrap_reference(value, 64) as i64 as f64, "i64 {value}");
    }
}

#[test]
fn non_finite_numbers_store_zero_in_integer_elements() {
    for value in [f64::NAN, f64::INFINITY, f64::NEG_INFINITY] {
        for kind in [
            TypedArrayKind::SInt8,
            TypedArrayKind::UInt16,
            TypedArrayKind::SInt32,
            TypedArrayKind::UInt64,
        ] {
            assert_eq!(number_round_trip(kind, value), 0.0);
        }
    }
}

#[test]
fn huge_magnitudes_wrap_to_zero_in_every_integer_width() {
    // Any value of magnitude at least 2^116 is a multiple of 2^64.
    for value in [1e35, -1e35, f64::MAX, -f64::MAX] {
        for kind in [TypedArrayKind::UInt8, TypedArrayKind::SInt32, TypedArrayKind::UInt64] {
            assert_eq!(number_round_trip(kind, value), 0.0, "{value}");
        }
    }
}

#[test]
fn unsigned_reads_match_native_widening() {
    let mut buffer = ArrayBuffer::new(8).unwrap();
    let view = TypedArray::with_buffer(TypedArrayKind::UInt32, &buffer).unwrap();
    for v in [0u32, 1, 2, 255, 256, 65535, 1 << 20, u32::MAX - 1, u32::MAX] {
        view.set::<u32>(&mut buffer, 0, v).unwrap();
        assert_eq!(view.get_number(&buffer, 0), Some((v as f64).to_bits()));
    }
    let view = TypedArray::with_buffer(TypedArrayKind::UInt64, &buffer).unwrap();
    for v in [
        0u64,
        1,
        (1 << 53) - 1,
        1 << 53,
        (1 << 53) + 1,
        (1 << 53) + 2,
        (1 << 60) + 12345,
        u64::MAX,
        u64::MAX - 1,
        0xffff_ffff_ffff_fc00,
    ] {
        view.set::<u64>(&mut buffer, 0, v).unwrap();
        assert_eq!(
            view.get_number(&buffer, 0),
            Some((v as f64).to_bits()),
            "{v}"
        );
    }
}

#[test]
fn signed_reads_match_native_widening() {
    let mut buffer = ArrayBuffer::new(8).unwrap();
    let view = TypedArray::with_buffer(TypedArrayKind::SInt16, &buffer).unwrap();
    for v in [0i16, 1, -1, 127, -128, i16::MAX, i16::MIN] {
        view.set::<i16>(&mut buffer, 0, v).unwrap();
        assert_eq!(view.get_number(&buffer, 0), Some((v as f64).to_bits()));
    }
    let view = TypedArray::with_buffer(TypedArrayKind::SInt64, &buffer).unwrap();
    for v in [
        0i64,
        -1,
        i64::MAX,
        i64::MIN,
        i64::MIN + 1,
        (1 << 53) + 1,
        -(1 << 53) - 1,
        -987654321987654321,
    ] {
        view.set::<i64>(&mut buffer, 0, v).unwrap();
        assert_eq!(
            view.get_number(&buffer, 0),
            Some((v as f64).to_bits()),
            "{v}"
        );
    }
}

#[test]
fn float64_elements_store_the_number_exactly() {
    let mut buffer = ArrayBuffer::new(8).unwrap();
    let view = TypedArray::with_buffer(TypedArrayKind::Float64, &buffer).unwrap();
    for v in [
        0.0,
        -0.0,
        1.5,
        -1.0 / 3.0,
        f64::MAX,
        f64::MIN_POSITIVE,
        5e-324,
        f64::INFINITY,
        f64::NEG_INFINITY,
    ] {
        view.set_number(&mut buffer, 0, v.to_bits()).unwrap();
        assert_eq!(view.get_number(&buffer, 0), Some(v.to_bits()), "{v}");
        assert_eq!(buffer.slice(), &v.to_bits().to_le_bytes());
    }
    view.set_number(&mut buffer, 0, f64::NAN.to_bits()).unwrap();
    assert!(f64::from_bits(view.get_number(&buffer, 0).unwrap()).is_nan());
}

#[test]
fn float32_elements_narrow_and_widen_like_native_casts() {
    let mut buffer = ArrayBuffer::new(4).unwrap();
    let view = TypedArray::with_buffer(TypedArrayKind::Float32, &buffer).unwrap();
    let cases = [
        0.0f64,
        -0.0,
        1.0,
        1.5,
        -2.75,
        0.1,
        1.0 / 3.0,
        3.4028234663852886e38,  // largest binary32 value
        3.4028235678e38,        // rounds to infinity in binary32
        1e39,
        -1e39,
        1.1754943508222875e-38, // smallest binary32 normal
        1e-40,                  // binary32 subnormal
        7.006492321624085e-46,  // half the smallest binary32 subnormal
        1.401298464324817e-45,  // smallest binary32 subnormal
        1e-46,
        f64::MAX,
        f64::MIN_POSITIVE,
        5e-324,
        f64::INFINITY,
        f64::NEG_INFINITY,
        2.0f64.powi(127),
        2.0f64.powi(128),
        -2.0f64.powi(-149),
        2.0f64.powi(-150),
        1.0000000596046448,     // halfway between two binary32 values: ties to even
    ];
    for v in cases {
        view.set_number(&mut buffer, 0, v.to_bits()).unwrap();
        let narrowed = v as f32;
        assert_eq!(buffer.slice(), &narrowed.to_bits().to_le_bytes(), "{v}");
        let widened = narrowed as f64;
        assert_eq!(view.get_number(&buffer, 0), Some(widened.to_bits()), "{v}");
    }
    view.set_number(&mut buffer, 0, f64::NAN.to_bits()).unwrap();
    assert!(f64::from_bits(view.get_number(&buffer, 0).unwrap()).is_nan());
}

#[test]
fn out_of_range_numeric_access_fails_without_writing() {
    let (view, mut buffer) = TypedArray::with_len(TypedArrayKind::UInt8, 2).unwrap();
    assert!(view.set_number(&mut buffer, 2, 9.0f64.to_bits()).is_err());
    assert_eq!(view.get_number(&buffer, 2), None);
    assert_eq!(buffer.slice(), &[0, 0]);
}
