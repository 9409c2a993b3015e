//! Typed, bounds-checked views over an [`ArrayBuffer`].
//!
//! A [`TypedArray`] is a window: an element kind, a byte offset and an
//! element count, validated once at construction against the buffer it is
//! meant to read. The view does not own the buffer; every accessor takes the
//! buffer alongside it. Any number of views — of different kinds and over
//! overlapping byte ranges — may work on one buffer, and a write through one
//! view is immediately visible through every other view of the same bytes:
//! that aliasing is the point of the design, not a defect.
//!
//! Construction enforces two invariants: the byte offset is a multiple of
//! the element width, and the window `[offset, offset + count * width)` lies
//! inside the buffer. Per-element access is bounds-checked dynamically and
//! never panics.

use vstd::prelude::*;
use vstd::string::StringExecFns;

use crate::array_buffer::AllocError;
use crate::array_buffer::ArrayBuffer;
use crate::bytes::le_val;
use crate::bytes::lemma_pow256_values;
use crate::bytes::of_signed;
use crate::element::read_le4;
use crate::element::read_le8;
use crate::element::write_le1;
use crate::element::write_le2;
use crate::element::write_le4;
use crate::element::write_le8;
use crate::element::written;
use crate::element::TypedArrayElement;
use crate::kind::TypedArrayKind;
use crate::numeric::elem_of_number_bits;
use crate::numeric::f32_bits_to_f64_bits;
use crate::numeric::f64_bits_of_i64;
use crate::numeric::f64_bits_of_u64;
use crate::numeric::f64_bits_to_f32_bits;
use crate::numeric::f64_bits_to_uint64_wrap;
use crate::numeric::number_bits_of_elem;

verus! {

/// The construction rule a rejected view would have broken.
#[derive(Debug, Clone, Copy, PartialEq, Eq, Structural)]
pub enum RangeRule {
    /// The byte offset is not a multiple of the element width.
    MisalignedOffset,
    /// The requested window does not lie inside the buffer.
    OutOfBounds,
    /// The buffer's length is not a multiple of the element width.
    UnalignedBufferLength,
}

/// An alignment or bounds violation found while constructing a view. It
/// names the violated rule and the element kind of the attempted view.
#[derive(Debug, Clone, Copy, PartialEq, Eq, Structural)]
pub struct RangeError {
    pub kind: TypedArrayKind,
    pub rule: RangeRule,
}

impl RangeError {
    pub(crate) fn new(kind: TypedArrayKind, rule: RangeRule) -> (r: Self)
        ensures
            r == (RangeError { kind, rule }),
    {
        RangeError { kind, rule }
    }

    /// What `message` returns: a sentence naming the violated rule and the
    /// host-visible name of the attempted view's type.
    pub open spec fn message_spec(self) -> Seq<char> {
        match self.rule {
            RangeRule::MisalignedOffset => "start offset of "@ + self.kind.display_name_spec()
                + "Array should be a multiple of "@ + self.kind.width_digit_spec(),
            RangeRule::OutOfBounds => "attempting to construct out-of-bounds "@
                + self.kind.display_name_spec() + "Array on ArrayBuffer"@,
            RangeRule::UnalignedBufferLength => "buffer length for "@
                + self.kind.display_name_spec() + "Array should be a multiple of "@
                + self.kind.width_digit_spec(),
        }
    }

    /// A message naming the violated rule, e.g. `start offset of Int16Array
    /// should be a multiple of 2`.
    pub fn message(self) -> (r: String)
        ensures
            r@ == self.message_spec(),
    {
        match self.rule {
            RangeRule::MisalignedOffset => String::from_str("start offset of ").concat(
                self.kind.display_name(),
            ).concat("Array should be a multiple of ").concat(self.kind.width_digit()),
            RangeRule::OutOfBounds => String::from_str(
                "attempting to construct out-of-bounds ",
            ).concat(self.kind.display_name()).concat("Array on ArrayBuffer"),
            RangeRule::UnalignedBufferLength => String::from_str("buffer length for ").concat(
                self.kind.display_name(),
            ).concat("Array should be a multiple of ").concat(self.kind.width_digit()),
        }
    }
}

/// A typed window over an [`ArrayBuffer`]: an element kind, a byte offset
/// and an element count. Element `i` occupies the `width` bytes starting at
/// `offset + i * width` of whatever buffer the view is used with.
#[derive(Debug, Clone, Copy)]
pub struct TypedArray {
    kind: TypedArrayKind,
    offset: usize,
    length: usize,
}

impl TypedArray {
    /// The element kind this view reads bytes as.
    pub closed spec fn kind_spec(self) -> TypedArrayKind {
        self.kind
    }

    /// The byte offset of the window inside its buffer.
    pub closed spec fn offset_spec(self) -> nat {
        self.offset as nat
    }

    /// The number of elements in the window.
    pub closed spec fn length_spec(self) -> nat {
        self.length as nat
    }

    /// The number of bytes the window covers.
    pub open spec fn byte_len_spec(self) -> nat {
        self.length_spec() * self.kind_spec().width()
    }

    /// The first byte position past the window.
    pub open spec fn end_spec(self) -> nat {
        self.offset_spec() + self.byte_len_spec()
    }

    /// The construction invariants that do not mention a buffer: the offset
    /// is aligned to the element width and the window's extent fits the
    /// machine's size type.
    #[verifier::type_invariant]
    pub open spec fn wf(self) -> bool {
        &&& self.offset_spec() % self.kind_spec().width() == 0
        &&& self.end_spec() <= usize::MAX
    }

    /// Whether the window lies inside a buffer holding the bytes `buf`.
    /// Constructors guarantee it for the buffer the view was validated
    /// against; accessors re-check it, so using a view with a shorter buffer
    /// yields failure indicators rather than panics.
    pub open spec fn valid_for(self, buf: Seq<u8>) -> bool {
        self.end_spec() <= buf.len()
    }

    /// The unsigned encoding of element `i` of this view in the bytes `buf`.
    pub open spec fn elem_nat(self, buf: Seq<u8>, i: int) -> nat {
        le_val(
            buf,
            self.offset_spec() + i * self.kind_spec().width(),
            self.kind_spec().width(),
        )
    }

    /// What a successful element write leaves behind: element `i` of this
    /// view holds the encoding `v` and every byte outside the element is
    /// unchanged.
    pub open spec fn elem_written(self, old_buf: Seq<u8>, new_buf: Seq<u8>, i: int, v: nat) -> bool {
        written(
            old_buf,
            new_buf,
            self.offset_spec() + i * self.kind_spec().width(),
            self.kind_spec().width(),
            v,
        )
    }

    /// Validates an explicit window: `offset` must be a multiple of the
    /// element width and `[offset, offset + length * width)` must lie inside
    /// the buffer. Fails with a [`RangeError`] naming the violated rule;
    /// misalignment is reported whatever the count or buffer length.
    pub fn new(
        kind: TypedArrayKind,
        buffer: &ArrayBuffer,
        offset: usize,
        length: usize,
    ) -> (r: Result<TypedArray, RangeError>)
        ensures
            r is Ok <==> offset as nat % kind.width() == 0 && offset + length * kind.width()
                <= buffer@.len(),
            offset as nat % kind.width() != 0 <==> r == Err::<TypedArray, RangeError>(
                RangeError { kind, rule: RangeRule::MisalignedOffset },
            ),
            offset as nat % kind.width() == 0 && offset + length * kind.width() > buffer@.len()
                <==> r == Err::<TypedArray, RangeError>(
                RangeError { kind, rule: RangeRule::OutOfBounds },
            ),
            match r {
                Ok(v) => {
                    &&& v.kind_spec() == kind
                    &&& v.offset_spec() == offset
                    &&& v.length_spec() == length
                    &&& v.valid_for(buffer@)
                },
                Err(_) => true,
            },
    {
        let w = kind.bytes_per_element();
        let n = buffer.len();
        if offset % w != 0 {
            return Err(RangeError::new(kind, RangeRule::MisalignedOffset));
        }
        if offset > n {
            proof {
                broadcast use vstd::arithmetic::mul::lemma_mul_nonnegative;

            }
            return Err(RangeError::new(kind, RangeRule::OutOfBounds));
        }
        let q = (n - offset) / w;
        proof {
            vstd::arithmetic::div_mod::lemma_fundamental_div_mod((n - offset) as int, w as int);
            broadcast use vstd::arithmetic::mul::lemma_mul_inequality;
            broadcast use vstd::arithmetic::mul::lemma_mul_is_commutative;

        }
        if length > q {
            proof {
                assert(length * w as int >= (q + 1) * w as int);
                assert((q + 1) * w as int > n - offset);
            }
            return Err(RangeError::new(kind, RangeRule::OutOfBounds));
        }
        proof {
            assert(length * w as int <= q * w as int);
            assert(q * w as int <= n - offset);
        }
        Ok(TypedArray { kind, offset, length })
    }

    /// Wraps the tail of the buffer from `offset` on, deriving the count
    /// from the remaining bytes. Fails with a [`RangeError`] if `offset`
    /// exceeds the buffer length, if the remaining span is not a whole
    /// number of elements, or if `offset` is misaligned.
    pub fn with_offset(
        kind: TypedArrayKind,
        buffer: &ArrayBuffer,
        offset: usize,
    ) -> (r: Result<TypedArray, RangeError>)
        ensures
            r is Ok <==> offset as nat % kind.width() == 0 && offset <= buffer@.len() && (
            buffer@.len() - offset) % kind.width() as int == 0,
            offset as nat % kind.width() != 0 <==> r == Err::<TypedArray, RangeError>(
                RangeError { kind, rule: RangeRule::MisalignedOffset },
            ),
            offset as nat % kind.width() == 0 && (offset > buffer@.len() || (buffer@.len() - offset)
                % kind.width() as int != 0) <==> r == Err::<TypedArray, RangeError>(
                RangeError { kind, rule: RangeRule::OutOfBounds },
            ),
            match r {
                Ok(v) => {
                    &&& v.kind_spec() == kind
                    &&& v.offset_spec() == offset
                    &&& v.length_spec() == (buffer@.len() - offset) / kind.width() as int
                    &&& v.byte_len_spec() == buffer@.len() - offset
                    &&& v.valid_for(buffer@)
                },
                Err(_) => true,
            },
    {
        let w = kind.bytes_per_element();
        let n = buffer.len();
        if offset % w != 0 {
            return Err(RangeError::new(kind, RangeRule::MisalignedOffset));
        }
        if offset > n {
            return Err(RangeError::new(kind, RangeRule::OutOfBounds));
        }
        let rem = n - offset;
        if rem % w != 0 {
            return Err(RangeError::new(kind, RangeRule::OutOfBounds));
        }
        let length = rem / w;
        proof {
            vstd::arithmetic::div_mod::lemma_fundamental_div_mod(rem as int, w as int);
            broadcast use vstd::arithmetic::mul::lemma_mul_is_commutative;

        }
        Ok(TypedArray { kind, offset, length })
    }

    /// Wraps a whole buffer at offset 0. Succeeds exactly when the buffer's
    /// length is a whole number of elements, yielding one element per
    /// `width` bytes; fails with a [`RangeError`] otherwise.
    pub fn with_buffer(kind: TypedArrayKind, buffer: &ArrayBuffer) -> (r: Result<
        TypedArray,
        RangeError,
    >)
        ensures
            r is Ok <==> buffer@.len() % kind.width() == 0,
            buffer@.len() % kind.width() != 0 <==> r == Err::<TypedArray, RangeError>(
                RangeError { kind, rule: RangeRule::UnalignedBufferLength },
            ),
            match r {
                Ok(v) => {
                    &&& v.kind_spec() == kind
                    &&& v.offset_spec() == 0
                    &&& v.length_spec() == buffer@.len() / kind.width()
                    &&& v.byte_len_spec() == buffer@.len()
                    &&& v.valid_for(buffer@)
                },
                Err(_) => true,
            },
    {
        let w = kind.bytes_per_element();
        let n = buffer.len();
        if n % w != 0 {
            return Err(RangeError::new(kind, RangeRule::UnalignedBufferLength));
        }
        let length = n / w;
        proof {
            vstd::arithmetic::div_mod::lemma_fundamental_div_mod(n as int, w as int);
            broadcast use vstd::arithmetic::mul::lemma_mul_is_commutative;

        }
        Ok(TypedArray { kind, offset: 0, length })
    }

    /// Allocates a fresh zero-filled buffer of `length * width` bytes and
    /// wraps it whole. Fails with [`AllocError`] exactly when the byte count
    /// exceeds the machine's size type or the reservation cannot be
    /// satisfied.
    pub fn with_len(kind: TypedArrayKind, length: usize) -> (r: Result<
        (TypedArray, ArrayBuffer),
        AllocError,
    >)
        ensures
            length * kind.width() > usize::MAX ==> r is Err,
            match r {
                Ok((v, b)) => {
                    &&& v.kind_spec() == kind
                    &&& v.offset_spec() == 0
                    &&& v.length_spec() == length
                    &&& v.byte_len_spec() == length * kind.width()
                    &&& b@.len() == length * kind.width()
                    &&& forall|i: int| 0 <= i < b@.len() ==> b@[i] == 0u8
                    &&& v.valid_for(b@)
                },
                Err(_) => true,
            },
    {
        let w = kind.bytes_per_element();
        if length > usize::MAX / w {
            proof {
                vstd::arithmetic::div_mod::lemma_fundamental_div_mod(usize::MAX as int, w as int);
                broadcast use vstd::arithmetic::mul::lemma_mul_inequality;
                broadcast use vstd::arithmetic::mul::lemma_mul_is_commutative;

            }
            return Err(AllocError);
        }
        proof {
            vstd::arithmetic::div_mod::lemma_fundamental_div_mod(usize::MAX as int, w as int);
            broadcast use vstd::arithmetic::mul::lemma_mul_inequality;
            broadcast use vstd::arithmetic::mul::lemma_mul_is_commutative;

        }
        let bytes = length * w;
        let buffer = match ArrayBuffer::new(bytes) {
            Ok(b) => b,
            Err(e) => {
                return Err(e);
            },
        };
        Ok((TypedArray { kind, offset: 0, length }, buffer))
    }

    /// The canonical empty view: a zero-length default buffer wrapped whole,
    /// offset 0 and count 0. Never fails.
    pub fn default_view(kind: TypedArrayKind) -> (r: (TypedArray, ArrayBuffer))
        ensures
            r.0.kind_spec() == kind,
            r.0.offset_spec() == 0,
            r.0.length_spec() == 0,
            r.0.byte_len_spec() == 0,
            r.1@ == Seq::<u8>::empty(),
            r.0.valid_for(r.1@),
    {
        let buffer = ArrayBuffer::default();
        proof {
            let w = kind.width();
            vstd::arithmetic::mul::lemma_mul_basics(w as int);
            vstd::arithmetic::div_mod::lemma_small_mod(0, w);
        }
        (TypedArray { kind, offset: 0, length: 0 }, buffer)
    }

    /// The view's byte offset inside its buffer.
    pub fn byte_offset(&self) -> (r: usize)
        ensures
            r == self.offset_spec(),
    {
        self.offset
    }

    /// The number of bytes the view covers.
    pub fn byte_len(&self) -> (r: usize)
        ensures
            r == self.byte_len_spec(),
    {
        proof {
            use_type_invariant(self);
        }
        self.length * self.kind.bytes_per_element()
    }

    /// The number of elements in the view.
    pub fn len(&self) -> (r: usize)
        ensures
            r == self.length_spec(),
    {
        self.length
    }

    /// The element kind of the view.
    pub fn kind(&self) -> (r: TypedArrayKind)
        ensures
            r == self.kind_spec(),
    {
        self.kind
    }

    /// The host-visible type name of the view, `<Name>Array`.
    pub fn name(&self) -> (r: &'static str)
        ensures
            r@ == self.kind_spec().display_name_spec() + "Array"@,
    {
        let r: &'static str = match self.kind {
            TypedArrayKind::SInt8 => "Int8Array",
            TypedArrayKind::UInt8 => "UInt8Array",
            TypedArrayKind::SInt16 => "Int16Array",
            TypedArrayKind::UInt16 => "UInt16Array",
            TypedArrayKind::SInt32 => "Int32Array",
            TypedArrayKind::UInt32 => "UInt32Array",
            TypedArrayKind::SInt64 => "Int64Array",
            TypedArrayKind::UInt64 => "UInt64Array",
            TypedArrayKind::Float32 => "Float32Array",
            TypedArrayKind::Float64 => "Float64Array",
        };
        proof {
            lemma_array_names();
        }
        r
    }

    /// The byte position of element `index`, with the facts callers of the
    /// element readers and writers need.
    fn elem_pos(&self, buffer: &ArrayBuffer, index: usize) -> (r: usize)
        requires
            index < self.length_spec(),
            self.valid_for(buffer@),
        ensures
            r == self.offset_spec() + index * self.kind_spec().width(),
            r + self.kind_spec().width() <= buffer@.len(),
    {
        proof {
            use_type_invariant(self);
            broadcast use vstd::arithmetic::mul::lemma_mul_inequality;
            broadcast use vstd::arithmetic::mul::lemma_mul_is_commutative;
            broadcast use vstd::arithmetic::mul::lemma_mul_is_distributive_add_other_way;

            assert((index + 1) * self.kind_spec().width() <= self.length_spec()
                * self.kind_spec().width());
        }
        let w = self.kind.bytes_per_element();
        self.offset + index * w
    }

    /// Whether the window lies inside the given buffer; `true` for the
    /// buffer a constructor validated the view against, as long as it has
    /// not been swapped for a shorter one.
    pub fn fits(&self, buffer: &ArrayBuffer) -> (r: bool)
        ensures
            r == self.valid_for(buffer@),
    {
        proof {
            use_type_invariant(self);
        }
        let w = self.kind.bytes_per_element();
        self.offset + self.length * w <= buffer.len()
    }

    /// Typed read: the element at `index`, as long as `T` is the view's own
    /// element type, `index` is in range and the view fits the buffer;
    /// `None` otherwise — never a panic, so callers may probe cheaply.
    /// The returned encoding determines the value itself
    /// (`TypedArrayElement::lemma_as_nat_injective`).
    pub fn get<T: TypedArrayElement>(&self, buffer: &ArrayBuffer, index: usize) -> (r: Option<T>)
        ensures
            r is Some <==> T::kind_spec() == self.kind_spec() && index < self.length_spec()
                && self.valid_for(buffer@),
            match r {
                Some(x) => x.as_nat() == self.elem_nat(buffer@, index as int),
                None => true,
            },
    {
        if !(T::kind() == self.kind) {
            return None;
        }
        if index >= self.length {
            return None;
        }
        if !self.fits(buffer) {
            return None;
        }
        let pos = self.elem_pos(buffer, index);
        Some(T::read(buffer, pos))
    }

    /// Typed write: stores `value` at `index` and reports success, as long
    /// as `T` is the view's own element type, `index` is in range and the
    /// view fits the buffer. Fails without touching the buffer otherwise.
    pub fn set<T: TypedArrayElement>(
        &self,
        buffer: &mut ArrayBuffer,
        index: usize,
        value: T,
    ) -> (r: Result<(), ()>)
        ensures
            r is Ok <==> T::kind_spec() == self.kind_spec() && index < self.length_spec()
                && self.valid_for(old(buffer)@),
            match r {
                Ok(()) => self.elem_written(
                    old(buffer)@,
                    final(buffer)@,
                    index as int,
                    value.as_nat(),
                ),
                Err(()) => final(buffer)@ == old(buffer)@,
            },
    {
        if !(T::kind() == self.kind) {
            return Err(());
        }
        if index >= self.length {
            return Err(());
        }
        if !self.fits(buffer) {
            return Err(());
        }
        let pos = self.elem_pos(buffer, index);
        T::write(buffer, pos, value);
        Ok(())
    }
}

/// Each kind's `<Name>Array` literal is its display name followed by
/// `Array`.
proof fn lemma_array_names()
    ensures
        "Int8Array"@ == "Int8"@ + "Array"@,
        "UInt8Array"@ == "UInt8"@ + "Array"@,
        "Int16Array"@ == "Int16"@ + "Array"@,
        "UInt16Array"@ == "UInt16"@ + "Array"@,
        "Int32Array"@ == "Int32"@ + "Array"@,
        "UInt32Array"@ == "UInt32"@ + "Array"@,
        "Int64Array"@ == "Int64"@ + "Array"@,
        "UInt64Array"@ == "UInt64"@ + "Array"@,
        "Float32Array"@ == "Float32"@ + "Array"@,
        "Float64Array"@ == "Float64"@ + "Array"@,
{
    reveal_strlit("Int8Array");
    reveal_strlit("UInt8Array");
    reveal_strlit("Int16Array");
    reveal_strlit("UInt16Array");
    reveal_strlit("Int32Array");
    reveal_strlit("UInt32Array");
    reveal_strlit("Int64Array");
    reveal_strlit("UInt64Array");
    reveal_strlit("Float32Array");
    reveal_strlit("Float64Array");
    reveal_strlit("Int8");
    reveal_strlit("UInt8");
    reveal_strlit("Int16");
    reveal_strlit("UInt16");
    reveal_strlit("Int32");
    reveal_strlit("UInt32");
    reveal_strlit("Int64");
    reveal_strlit("UInt64");
    reveal_strlit("Float32");
    reveal_strlit("Float64");
    reveal_strlit("Array");
    assert("Int8Array"@ =~= "Int8"@ + "Array"@);
    assert("UInt8Array"@ =~= "UInt8"@ + "Array"@);
    assert("Int16Array"@ =~= "Int16"@ + "Array"@);
    assert("UInt16Array"@ =~= "UInt16"@ + "Array"@);
    assert("Int32Array"@ =~= "Int32"@ + "Array"@);
    assert("UInt32Array"@ =~= "UInt32"@ + "Array"@);
    assert("Int64Array"@ =~= "Int64"@ + "Array"@);
    assert("UInt64Array"@ =~= "UInt64"@ + "Array"@);
    assert("Float32Array"@ =~= "Float32"@ + "Array"@);
    assert("Float64Array"@ =~= "Float64"@ + "Array"@);
}

} // verus!

verus! {

/// One element read out of a view, tagged with the view's kind. The two
/// floating-point variants carry the stored IEEE-754 bit pattern.
#[derive(Debug, Clone, Copy, PartialEq, Eq, Structural)]
pub enum TypedArrayVariant {
    SInt8(i8),
    UInt8(u8),
    SInt16(i16),
    UInt16(u16),
    SInt32(i32),
    UInt32(u32),
    SInt64(i64),
    UInt64(u64),
    Float32(u32),
    Float64(u64),
}

impl TypedArrayVariant {
    /// The element kind this value was read as.
    pub open spec fn kind_of(self) -> TypedArrayKind {
        match self {
            TypedArrayVariant::SInt8(_) => TypedArrayKind::SInt8,
            TypedArrayVariant::UInt8(_) => TypedArrayKind::UInt8,
            TypedArrayVariant::SInt16(_) => TypedArrayKind::SInt16,
            TypedArrayVariant::UInt16(_) => TypedArrayKind::UInt16,
            TypedArrayVariant::SInt32(_) => TypedArrayKind::SInt32,
            TypedArrayVariant::UInt32(_) => TypedArrayKind::UInt32,
            TypedArrayVariant::SInt64(_) => TypedArrayKind::SInt64,
            TypedArrayVariant::UInt64(_) => TypedArrayKind::UInt64,
            TypedArrayVariant::Float32(_) => TypedArrayKind::Float32,
            TypedArrayVariant::Float64(_) => TypedArrayKind::Float64,
        }
    }

    /// The unsigned element encoding of the carried value.
    pub open spec fn encoding(self) -> nat {
        match self {
            TypedArrayVariant::SInt8(x) => of_signed(x as int, 1),
            TypedArrayVariant::UInt8(x) => x as nat,
            TypedArrayVariant::SInt16(x) => of_signed(x as int, 2),
            TypedArrayVariant::UInt16(x) => x as nat,
            TypedArrayVariant::SInt32(x) => of_signed(x as int, 4),
            TypedArrayVariant::UInt32(x) => x as nat,
            TypedArrayVariant::SInt64(x) => of_signed(x as int, 8),
            TypedArrayVariant::UInt64(x) => x as nat,
            TypedArrayVariant::Float32(x) => x as nat,
            TypedArrayVariant::Float64(x) => x as nat,
        }
    }

    /// The carried value as the host's numeric representation, a binary64
    /// bit pattern.
    pub fn number_bits(self) -> (r: u64)
        ensures
            r == number_bits_of_elem(self.kind_of(), self.encoding()),
    {
        proof {
            lemma_pow256_values();
        }
        match self {
            TypedArrayVariant::SInt8(x) => f64_bits_of_i64(x as i64),
            TypedArrayVariant::UInt8(x) => f64_bits_of_u64(x as u64),
            TypedArrayVariant::SInt16(x) => f64_bits_of_i64(x as i64),
            TypedArrayVariant::UInt16(x) => f64_bits_of_u64(x as u64),
            TypedArrayVariant::SInt32(x) => f64_bits_of_i64(x as i64),
            TypedArrayVariant::UInt32(x) => f64_bits_of_u64(x as u64),
            TypedArrayVariant::SInt64(x) => f64_bits_of_i64(x),
            TypedArrayVariant::UInt64(x) => f64_bits_of_u64(x),
            TypedArrayVariant::Float32(x) => f32_bits_to_f64_bits(x),
            TypedArrayVariant::Float64(x) => x,
        }
    }
}

impl TypedArray {
    /// Reads element `index` as a tagged value.
    fn read_variant(&self, buffer: &ArrayBuffer, index: usize) -> (r: TypedArrayVariant)
        requires
            self.valid_for(buffer@),
            index < self.length_spec(),
        ensures
            r.kind_of() == self.kind_spec(),
            r.encoding() == self.elem_nat(buffer@, index as int),
    {
        let pos = self.elem_pos(buffer, index);
        match self.kind {
            TypedArrayKind::SInt8 => TypedArrayVariant::SInt8(
                <i8 as TypedArrayElement>::read(buffer, pos),
            ),
            TypedArrayKind::UInt8 => TypedArrayVariant::UInt8(
                <u8 as TypedArrayElement>::read(buffer, pos),
            ),
            TypedArrayKind::SInt16 => TypedArrayVariant::SInt16(
                <i16 as TypedArrayElement>::read(buffer, pos),
            ),
            TypedArrayKind::UInt16 => TypedArrayVariant::UInt16(
                <u16 as TypedArrayElement>::read(buffer, pos),
            ),
            TypedArrayKind::SInt32 => TypedArrayVariant::SInt32(
                <i32 as TypedArrayElement>::read(buffer, pos),
            ),
            TypedArrayKind::UInt32 => TypedArrayVariant::UInt32(
                <u32 as TypedArrayElement>::read(buffer, pos),
            ),
            TypedArrayKind::SInt64 => TypedArrayVariant::SInt64(
                <i64 as TypedArrayElement>::read(buffer, pos),
            ),
            TypedArrayKind::UInt64 => TypedArrayVariant::UInt64(
                <u64 as TypedArrayElement>::read(buffer, pos),
            ),
            TypedArrayKind::Float32 => TypedArrayVariant::Float32(read_le4(buffer, pos)),
            TypedArrayKind::Float64 => TypedArrayVariant::Float64(read_le8(buffer, pos)),
        }
    }

    /// Numeric read: element `index` as the host's binary64 bit pattern,
    /// or `None` when the index is out of range (or the view does not fit
    /// the buffer) — never a panic. Integer elements of width 32 bits or
    /// less convert exactly; the 64-bit kinds may lose precision above
    /// 2^53 in magnitude, by design.
    pub fn get_number(&self, buffer: &ArrayBuffer, index: usize) -> (r: Option<u64>)
        ensures
            r is Some <==> index < self.length_spec() && self.valid_for(buffer@),
            match r {
                Some(bits) => bits == number_bits_of_elem(
                    self.kind_spec(),
                    self.elem_nat(buffer@, index as int),
                ),
                None => true,
            },
    {
        if index >= self.length {
            return None;
        }
        if !self.fits(buffer) {
            return None;
        }
        let v = self.read_variant(buffer, index);
        Some(v.number_bits())
    }

    /// Numeric write: narrows the number `bits` (a binary64 bit pattern) to
    /// the view's kind — truncating toward zero and wrapping for the
    /// integer kinds, whatever the magnitude, rounding to nearest for
    /// Float32 — and stores it at `index`. Fails without touching the
    /// buffer exactly when the index is out of range or the view does not
    /// fit the buffer.
    pub fn set_number(&self, buffer: &mut ArrayBuffer, index: usize, bits: u64) -> (r: Result<
        (),
        (),
    >)
        ensures
            r is Ok <==> index < self.length_spec() && self.valid_for(old(buffer)@),
            match r {
                Ok(()) => self.elem_written(
                    old(buffer)@,
                    final(buffer)@,
                    index as int,
                    elem_of_number_bits(self.kind_spec(), bits),
                ),
                Err(()) => final(buffer)@ == old(buffer)@,
            },
    {
        proof {
            lemma_pow256_values();
        }
        if index >= self.length {
            return Err(());
        }
        if !self.fits(buffer) {
            return Err(());
        }
        let pos = self.elem_pos(buffer, index);
        match self.kind {
            TypedArrayKind::SInt8 | TypedArrayKind::UInt8 => {
                let v = f64_bits_to_uint64_wrap(bits);
                write_le1(buffer, pos, (v % 0x100) as u8);
            },
            TypedArrayKind::SInt16 | TypedArrayKind::UInt16 => {
                let v = f64_bits_to_uint64_wrap(bits);
                write_le2(buffer, pos, (v % 0x10000) as u16);
            },
            TypedArrayKind::SInt32 | TypedArrayKind::UInt32 => {
                let v = f64_bits_to_uint64_wrap(bits);
                write_le4(buffer, pos, (v % 0x100000000) as u32);
            },
            TypedArrayKind::SInt64 | TypedArrayKind::UInt64 => {
                let v = f64_bits_to_uint64_wrap(bits);
                write_le8(buffer, pos, v);
            },
            TypedArrayKind::Float32 => {
                write_le4(buffer, pos, f64_bits_to_f32_bits(bits));
            },
            TypedArrayKind::Float64 => {
                write_le8(buffer, pos, bits);
            },
        }
        Ok(())
    }

    /// A fresh iterator over this view, starting at element 0. Iteration is
    /// restartable: every call yields a new walk from the start.
    pub fn iter(&self) -> (it: TypedArrayIter)
        ensures
            it.view_spec() == *self,
            it.pos_spec() == 0,
    {
        TypedArrayIter { view: *self, pos: 0 }
    }
}

/// A finite, restartable walk over a view's elements in index order. Each
/// step reads the buffer as it is at that moment.
pub struct TypedArrayIter {
    view: TypedArray,
    pos: usize,
}

impl TypedArrayIter {
    /// The view being walked.
    pub closed spec fn view_spec(self) -> TypedArray {
        self.view
    }

    /// The index the next step will read.
    pub closed spec fn pos_spec(self) -> nat {
        self.pos as nat
    }

    /// The next element, tagged with the view's kind, or `None` once all
    /// `len()` elements have been yielded (or if the view does not fit the
    /// buffer).
    pub fn next(&mut self, buffer: &ArrayBuffer) -> (r: Option<TypedArrayVariant>)
        ensures
            final(self).view_spec() == old(self).view_spec(),
            r is Some <==> old(self).pos_spec() < old(self).view_spec().length_spec() && old(
                self,
            ).view_spec().valid_for(buffer@),
            r is Some ==> final(self).pos_spec() == old(self).pos_spec() + 1,
            r is None ==> final(self).pos_spec() == old(self).pos_spec(),
            match r {
                Some(v) => v.kind_of() == old(self).view_spec().kind_spec() && v.encoding() == old(
                    self,
                ).view_spec().elem_nat(buffer@, old(self).pos_spec() as int),
                None => true,
            },
    {
        if self.pos < self.view.len() && self.view.fits(buffer) {
            let v = self.view.read_variant(buffer, self.pos);
            self.pos = self.pos + 1;
            Some(v)
        } else {
            None
        }
    }
}

} // verus!
