use typed_memory::ArrayBuffer;
use typed_memory::RangeRule;
use typed_memory::TypedArray;
use typed_memory::TypedArrayKind;

const ALL_KINDS: [TypedArrayKind; 10] = [
    TypedArrayKind::SInt8,
    TypedArrayKind::UInt8,
    TypedArrayKind::SInt16,
    TypedArrayKind::UInt16,
    TypedArrayKind::SInt32,
    TypedArrayKind::UInt32,
    TypedArrayKind::SInt64,
    TypedArrayKind::UInt64,
    TypedArrayKind::Float32,
    TypedArrayKind::Float64,
];

#[test]
fn with_len_gives_requested_shape_for_every_kind() {
    for kind in ALL_KINDS {
        for len in [0usize, 1, 2, 7] {
            let (view, buffer) = TypedArray::with_len(kind, len).unwrap();
            assert_eq!(view.len(), len);
            assert_eq!(view.byte_offset(), 0);
            assert_eq!(view.byte_len(), len * kind.bytes_per_element());
            assert_eq!(buffer.len(), len * kind.bytes_per_element());
            for i in 0..buffer.len() {
                assert_eq!(buffer.read_byte(i), 0);
            }
        }
    }
}

#[test]
fn with_buffer_succeeds_exactly_on_whole_multiples() {
    for kind in ALL_KINDS {
        let w = kind.bytes_per_element();
        for len in 0usize..25 {
            let buffer = ArrayBuffer::new(len).unwrap();
            let r = TypedArray::with_buffer(kind, &buffer);
            if len % w == 0 {
                let view = r.unwrap();
                assert_eq!(view.len(), len / w);
                assert_eq!(view.byte_len(), len);
                assert_eq!(view.byte_offset(), 0);
            } else {
                let err = r.unwrap_err();
                assert_eq!(err.kind, kind);
                assert_eq!(err.rule, RangeRule::UnalignedBufferLength);
            }
        }
    }
}

#[test]
fn new_rejects_misaligned_offset_whatever_the_count() {
    let buffer = ArrayBuffer::new(64).unwrap();
    for kind in ALL_KINDS {
        let w = kind.bytes_per_element();
        if w == 1 {
            continue;
        }
        for count in [0usize, 1, 1000] {
            let err = TypedArray::new(kind, &buffer, 1, count).unwrap_err();
            assert_eq!(err.kind, kind);
            assert_eq!(err.rule, RangeRule::MisalignedOffset);
        }
    }
}

#[test]
fn new_rejects_out_of_bounds_window() {
    let buffer = ArrayBuffer::new(8).unwrap();
    let err = TypedArray::new(TypedArrayKind::UInt32, &buffer, 0, 3).unwrap_err();
    assert_eq!(err.rule, RangeRule::OutOfBounds);
    let err = TypedArray::new(TypedArrayKind::UInt32, &buffer, 12, 0).unwrap_err();
    assert_eq!(err.rule, RangeRule::OutOfBounds);
    let view = TypedArray::new(TypedArrayKind::UInt32, &buffer, 4, 1).unwrap();
    assert_eq!(view.byte_offset(), 4);
    assert_eq!(view.len(), 1);
}

#[test]
fn explicit_range_on_four_bytes_offset_one_fails() {
    let buffer = ArrayBuffer::new(4).unwrap();
    let err = TypedArray::new(TypedArrayKind::UInt32, &buffer, 1, 1).unwrap_err();
    assert_eq!(err.kind, TypedArrayKind::UInt32);
    assert_eq!(err.rule, RangeRule::MisalignedOffset);
}

#[test]
fn with_offset_derives_count_from_remaining_bytes() {
    let buffer = ArrayBuffer::new(12).unwrap();
    let view = TypedArray::with_offset(TypedArrayKind::UInt32, &buffer, 4).unwrap();
    assert_eq!(view.byte_offset(), 4);
    assert_eq!(view.len(), 2);
    assert_eq!(view.byte_len(), 8);
}

#[test]
fn with_offset_rejects_offset_past_end_and_ragged_tail() {
    let buffer = ArrayBuffer::new(10).unwrap();
    let err = TypedArray::with_offset(TypedArrayKind::UInt16, &buffer, 12).unwrap_err();
    assert_eq!(err.rule, RangeRule::OutOfBounds);
    // Aligned offset, but the remaining span is not a whole number of elements.
    let err = TypedArray::with_offset(TypedArrayKind::UInt32, &buffer, 4).unwrap_err();
    assert_eq!(err.rule, RangeRule::OutOfBounds);
    // A misaligned offset is reported as such.
    let err = TypedArray::with_offset(TypedArrayKind::UInt32, &buffer, 2).unwrap_err();
    assert_eq!(err.rule, RangeRule::MisalignedOffset);
}

#[test]
fn default_view_is_empty_for_every_kind() {
    for kind in ALL_KINDS {
        let (view, buffer) = TypedArray::default_view(kind);
        assert_eq!(view.len(), 0);
        assert_eq!(view.byte_len(), 0);
        assert_eq!(view.byte_offset(), 0);
        assert_eq!(buffer.len(), 0);
    }
}

#[test]
fn buffer_create_zero_fills_and_default_is_empty() {
    let buffer = ArrayBuffer::new(5).unwrap();
    assert_eq!(buffer.len(), 5);
    assert_eq!(buffer.slice(), &[0, 0, 0, 0, 0]);
    let empty = ArrayBuffer::default();
    assert_eq!(empty.len(), 0);
}

#[test]
fn range_error_messages_name_the_rule() {
    let buffer = ArrayBuffer::new(4).unwrap();
    let err = TypedArray::new(TypedArrayKind::SInt16, &buffer, 1, 1).unwrap_err();
    assert_eq!(
        err.message(),
        "start offset of Int16Array should be a multiple of 2"
    );
    let err = TypedArray::new(TypedArrayKind::UInt32, &buffer, 0, 2).unwrap_err();
    assert_eq!(
        err.message(),
        "attempting to construct out-of-bounds UInt32Array on ArrayBuffer"
    );
    let buffer = ArrayBuffer::new(5).unwrap();
    let err = TypedArray::with_buffer(TypedArrayKind::Float64, &buffer).unwrap_err();
    assert_eq!(
        err.message(),
        "buffer length for Float64Array should be a multiple of 8"
    );
}

#[test]
fn names_follow_the_kind() {
    let (view, _) = TypedArray::default_view(TypedArrayKind::SInt8);
    assert_eq!(view.name(), "Int8Array");
    let (view, _) = TypedArray::default_view(TypedArrayKind::Float64);
    assert_eq!(view.name(), "Float64Array");
    assert_eq!(TypedArrayKind::UInt16.display_name(), "UInt16");
    assert_eq!(TypedArrayKind::SInt64.bytes_per_element(), 8);
    assert_eq!(TypedArrayKind::Float32.bytes_per_element(), 4);
}
