//! A typed-array memory model: fixed-length shared byte buffers together with
//! strongly typed, bounds-checked numeric views over them.
//!
//! An [`ArrayBuffer`](array_buffer::ArrayBuffer) is plain mutable byte storage
//! of a fixed length. A [`TypedArray`](typed_array::TypedArray) is a window
//! into such a buffer — an element kind, a byte offset and an element count —
//! validated once at construction. Many views, of different kinds and over
//! overlapping byte ranges, may read and write the same buffer; a write
//! through one view is visible through every other view of the same bytes.
//! All multi-byte elements are stored little-endian.
//!
//! Numeric access ([`TypedArray::get_number`](typed_array::TypedArray::get_number),
//! [`TypedArray::set_number`](typed_array::TypedArray::set_number)) speaks the
//! host's one numeric type, an IEEE-754 binary64 value, handled here by its
//! bit pattern; the conversions between element values and that format are
//! implemented as integer bit manipulation in [`numeric`].

pub mod array_buffer;
pub mod bytes;
pub mod element;
pub mod kind;
pub mod laws;
pub mod numeric;
pub mod typed_array;

pub use array_buffer::AllocError;
pub use array_buffer::ArrayBuffer;
pub use element::TypedArrayElement;
pub use kind::TypedArrayKind;
pub use typed_array::RangeError;
pub use typed_array::RangeRule;
pub use typed_array::TypedArray;
