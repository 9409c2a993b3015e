use typed_memory::typed_array::TypedArrayVariant;
use typed_memory::ArrayBuffer;
use typed_memory::TypedArray;
use typed_memory::TypedArrayKind;

#[test]
fn whole_buffer_iteration_yields_one_element_per_width() {
    for (kind, len) in [
        (TypedArrayKind::UInt8, 24usize),
        (TypedArrayKind::SInt16, 24),
        (TypedArrayKind::UInt32, 24),
        (TypedArrayKind::Float64, 24),
    ] {
        let buffer = ArrayBuffer::new(len).unwrap();
        let view = TypedArray::with_buffer(kind, &buffer).unwrap();
        let mut it = view.iter();
        let mut count = 0usize;
        while it.next(&buffer).is_some() {
            count += 1;
        }
        assert_eq!(count, len / kind.bytes_per_element());
        assert_eq!(count, view.len());
    }
}

#[test]
fn iteration_yields_tagged_values_in_index_order() {
    let mut buffer = ArrayBuffer::new(6).unwrap();
    let view = TypedArray::with_buffer(TypedArrayKind::SInt16, &buffer).unwrap();
    view.set::<i16>(&mut buffer, 0, 10).unwrap();
    view.set::<i16>(&mut buffer, 1, -20).unwrap();
    view.set::<i16>(&mut buffer, 2, 30).unwrap();
    let mut it = view.iter();
    assert_eq!(it.next(&buffer), Some(TypedArrayVariant::SInt16(10)));
    assert_eq!(it.next(&buffer), Some(TypedArrayVariant::SInt16(-20)));
    assert_eq!(it.next(&buffer), Some(TypedArrayVariant::SInt16(30)));
    assert_eq!(it.next(&buffer), None);
    assert_eq!(it.next(&buffer), None);
}

#[test]
fn iteration_restarts_from_the_first_element() {
    let mut buffer = ArrayBuffer::new(2).unwrap();
    let view = TypedArray::with_buffer(TypedArrayKind::UInt8, &buffer).unwrap();
    view.set::<u8>(&mut buffer, 0, 1).unwrap();
    view.set::<u8>(&mut buffer, 1, 2).unwrap();
    let mut first = view.iter();
    assert_eq!(first.next(&buffer), Some(TypedArrayVariant::UInt8(1)));
    // A fresh call to iter() walks again from index 0, not a shared cursor.
    let mut second = view.iter();
    assert_eq!(second.next(&buffer), Some(TypedArrayVariant::UInt8(1)));
    assert_eq!(first.next(&buffer), Some(TypedArrayVariant::UInt8(2)));
}

#[test]
fn default_float64_view_iterates_zero_elements() {
    let (view, buffer) = TypedArray::default_view(TypedArrayKind::Float64);
    assert_eq!(view.len(), 0);
    assert_eq!(view.byte_len(), 0);
    let mut it = view.iter();
    assert_eq!(it.next(&buffer), None);
}

#[test]
fn float_variants_carry_bit_patterns() {
    let mut buffer = ArrayBuffer::new(4).unwrap();
    let view = TypedArray::with_buffer(TypedArrayKind::Float32, &buffer).unwrap();
    view.set_number(&mut buffer, 0, 1.5f64.to_bits()).unwrap();
    let mut it = view.iter();
    assert_eq!(
        it.next(&buffer),
        Some(TypedArrayVariant::Float32(1.5f32.to_bits()))
    );
}

#[test]
fn iteration_sees_writes_made_between_steps() {
    let mut buffer = ArrayBuffer::new(2).unwrap();
    let view = TypedArray::with_buffer(TypedArrayKind::UInt8, &buffer).unwrap();
    let mut it = view.iter();
    assert_eq!(it.next(&buffer), Some(TypedArrayVariant::UInt8(0)));
    view.set::<u8>(&mut buffer, 1, 77).unwrap();
    assert_eq!(it.next(&buffer), Some(TypedArrayVariant::UInt8(77)));
}
