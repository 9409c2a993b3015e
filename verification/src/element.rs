//! Reading and writing fixed-width elements of a buffer.
//!
//! [`TypedArrayElement`] is implemented by every native integer type that an
//! element kind stores directly. Each element is encoded as its width in
//! bytes, least-significant byte first; signed values use two's complement.
//! The floating-point kinds store IEEE-754 bit patterns, which travel through
//! these functions as `u32` / `u64` values.

use vstd::prelude::*;

use crate::array_buffer::ArrayBuffer;
use crate::bytes::le_byte;
use crate::bytes::le_val;
use crate::bytes::lemma_le_bytes_read_back;
use crate::bytes::lemma_pow256_values;
use crate::bytes::of_signed;
use crate::bytes::pow256;
use crate::kind::TypedArrayKind;

verus! {

/// What `write_le` leaves in the buffer: the `w` bytes at `pos` hold the
/// little-endian encoding of `v`, every other byte is unchanged, and the
/// length is unchanged.
pub open spec fn written(old_buf: Seq<u8>, new_buf: Seq<u8>, pos: int, w: nat, v: nat) -> bool {
    &&& new_buf.len() == old_buf.len()
    &&& forall|j: int|
        pos <= j < pos + w ==> new_buf[j] == le_byte(v, (j - pos) as nat)
    &&& forall|j: int|
        0 <= j < old_buf.len() && !(pos <= j < pos + w) ==> new_buf[j] == old_buf[j]
}

/// A value freshly written reads back as itself.
pub proof fn lemma_written_reads_back(old_buf: Seq<u8>, new_buf: Seq<u8>, pos: int, w: nat, v: nat)
    requires
        written(old_buf, new_buf, pos, w, v),
        0 <= pos,
        pos + w <= old_buf.len(),
        v < pow256(w),
    ensures
        le_val(new_buf, pos, w) == v,
{
    lemma_le_bytes_read_back(new_buf, pos, w, v);
}

/// Reads the byte at `pos`.
pub fn read_le1(buf: &ArrayBuffer, pos: usize) -> (r: u8)
    requires
        pos + 1 <= buf@.len(),
    ensures
        r as nat == le_val(buf@, pos as int, 1),
{
    let r = buf.read_byte(pos);
    proof {
        assert(le_val(buf@, pos as int, 1) == r as nat + 256 * le_val(buf@, pos + 1, 0));
    }
    r
}

/// Reads the two bytes at `pos` as an unsigned little-endian value.
pub fn read_le2(buf: &ArrayBuffer, pos: usize) -> (r: u16)
    requires
        pos + 2 <= buf@.len(),
    ensures
        r as nat == le_val(buf@, pos as int, 2),
{
    proof {
        buf.lemma_len_fits();
    }
    let b0 = buf.read_byte(pos);
    let b1 = buf.read_byte(pos + 1);
    proof {
        assert(le_val(buf@, pos + 2, 0) == 0);
        assert(le_val(buf@, pos + 1, 1) == b1 as nat + 256 * le_val(buf@, pos + 2, 0));
        assert(le_val(buf@, pos as int, 2) == b0 as nat + 256 * le_val(buf@, pos + 1, 1));
    }
    b0 as u16 + 256 * (b1 as u16)
}

/// Reads the four bytes at `pos` as an unsigned little-endian value.
pub fn read_le4(buf: &ArrayBuffer, pos: usize) -> (r: u32)
    requires
        pos + 4 <= buf@.len(),
    ensures
        r as nat == le_val(buf@, pos as int, 4),
{
    proof {
        buf.lemma_len_fits();
    }
    let b0 = buf.read_byte(pos);
    let b1 = buf.read_byte(pos + 1);
    let b2 = buf.read_byte(pos + 2);
    let b3 = buf.read_byte(pos + 3);
    proof {
        assert(le_val(buf@, pos + 4, 0) == 0);
        assert(le_val(buf@, pos + 3, 1) == b3 as nat + 256 * le_val(buf@, pos + 4, 0));
        assert(le_val(buf@, pos + 2, 2) == b2 as nat + 256 * le_val(buf@, pos + 3, 1));
        assert(le_val(buf@, pos + 1, 3) == b1 as nat + 256 * le_val(buf@, pos + 2, 2));
        assert(le_val(buf@, pos as int, 4) == b0 as nat + 256 * le_val(buf@, pos + 1, 3));
    }
    b0 as u32 + 0x100 * (b1 as u32) + 0x10000 * (b2 as u32) + 0x1000000 * (b3 as u32)
}

/// Reads the eight bytes at `pos` as an unsigned little-endian value.
pub fn read_le8(buf: &ArrayBuffer, pos: usize) -> (r: u64)
    requires
        pos + 8 <= buf@.len(),
    ensures
        r as nat == le_val(buf@, pos as int, 8),
{
    proof {
        buf.lemma_len_fits();
    }
    let lo = read_le4(buf, pos);
    let hi = read_le4(buf, pos + 4);
    proof {
        lemma_le_val_split8(buf@, pos as int);
    }
    lo as u64 + 0x100000000 * (hi as u64)
}

/// An eight-byte value splits into its low and high four-byte halves.
proof fn lemma_le_val_split8(buf: Seq<u8>, pos: int)
    ensures
        le_val(buf, pos, 8) == le_val(buf, pos, 4) + 0x100000000 * le_val(buf, pos + 4, 4),
{
    let x = le_val(buf, pos + 4, 4);
    assert(le_val(buf, pos + 3, 5) == buf[pos + 3] as nat + 256 * x);
    assert(le_val(buf, pos + 2, 6) == buf[pos + 2] as nat + 256 * le_val(buf, pos + 3, 5));
    assert(le_val(buf, pos + 1, 7) == buf[pos + 1] as nat + 256 * le_val(buf, pos + 2, 6));
    assert(le_val(buf, pos, 8) == buf[pos] as nat + 256 * le_val(buf, pos + 1, 7));
    assert(le_val(buf, pos + 4, 0) == 0);
    assert(le_val(buf, pos + 3, 1) == buf[pos + 3] as nat + 256 * le_val(buf, pos + 4, 0));
    assert(le_val(buf, pos + 2, 2) == buf[pos + 2] as nat + 256 * le_val(buf, pos + 3, 1));
    assert(le_val(buf, pos + 1, 3) == buf[pos + 1] as nat + 256 * le_val(buf, pos + 2, 2));
    assert(le_val(buf, pos, 4) == buf[pos] as nat + 256 * le_val(buf, pos + 1, 3));
}

/// Writes `v` at `pos` as one byte.
pub fn write_le1(buf: &mut ArrayBuffer, pos: usize, v: u8)
    requires
        pos + 1 <= old(buf)@.len(),
    ensures
        written(old(buf)@, final(buf)@, pos as int, 1, v as nat),
{
    proof {
        lemma_pow256_values();
        vstd::arithmetic::div_mod::lemma_div_basics(v as int);
    }
    buf.write_byte(pos, v);
    proof {
        assert(le_byte(v as nat, 0) == v);
    }
}

/// Writes `v` at `pos` as two little-endian bytes.
pub fn write_le2(buf: &mut ArrayBuffer, pos: usize, v: u16)
    requires
        pos + 2 <= old(buf)@.len(),
    ensures
        written(old(buf)@, final(buf)@, pos as int, 2, v as nat),
{
    proof {
        buf.lemma_len_fits();
        lemma_pow256_values();
        vstd::arithmetic::div_mod::lemma_div_basics(v as int);
    }
    buf.write_byte(pos, (v % 256) as u8);
    buf.write_byte(pos + 1, ((v / 256) % 256) as u8);
    proof {
        assert(le_byte(v as nat, 0) == (v % 256));
        assert(le_byte(v as nat, 1) == ((v / 256) % 256));
    }
}

/// Writes `v` at `pos` as four little-endian bytes.
pub fn write_le4(buf: &mut ArrayBuffer, pos: usize, v: u32)
    requires
        pos + 4 <= old(buf)@.len(),
    ensures
        written(old(buf)@, final(buf)@, pos as int, 4, v as nat),
{
    proof {
        buf.lemma_len_fits();
        lemma_pow256_values();
        vstd::arithmetic::div_mod::lemma_div_basics(v as int);
    }
    buf.write_byte(pos, (v % 0x100) as u8);
    buf.write_byte(pos + 1, ((v / 0x100) % 0x100) as u8);
    buf.write_byte(pos + 2, ((v / 0x10000) % 0x100) as u8);
    buf.write_byte(pos + 3, ((v / 0x1000000) % 0x100) as u8);
    proof {
        assert(le_byte(v as nat, 0) == (v % 0x100));
        assert(le_byte(v as nat, 1) == ((v / 0x100) % 0x100));
        assert(le_byte(v as nat, 2) == ((v / 0x10000) % 0x100));
        assert(le_byte(v as nat, 3) == ((v / 0x1000000) % 0x100));
    }
}

/// Writes `v` at `pos` as eight little-endian bytes.
pub fn write_le8(buf: &mut ArrayBuffer, pos: usize, v: u64)
    requires
        pos + 8 <= old(buf)@.len(),
    ensures
        written(old(buf)@, final(buf)@, pos as int, 8, v as nat),
{
    proof {
        buf.lemma_len_fits();
        lemma_pow256_values();
        vstd::arithmetic::div_mod::lemma_div_basics(v as int);
    }
    buf.write_byte(pos, (v % 0x100) as u8);
    buf.write_byte(pos + 1, ((v / 0x100) % 0x100) as u8);
    buf.write_byte(pos + 2, ((v / 0x10000) % 0x100) as u8);
    buf.write_byte(pos + 3, ((v / 0x1000000) % 0x100) as u8);
    buf.write_byte(pos + 4, ((v / 0x100000000) % 0x100) as u8);
    buf.write_byte(pos + 5, ((v / 0x10000000000) % 0x100) as u8);
    buf.write_byte(pos + 6, ((v / 0x1000000000000) % 0x100) as u8);
    buf.write_byte(pos + 7, ((v / 0x100000000000000) % 0x100) as u8);
    proof {
        assert(le_byte(v as nat, 0) == (v % 0x100));
        assert(le_byte(v as nat, 1) == ((v / 0x100) % 0x100));
        assert(le_byte(v as nat, 2) == ((v / 0x10000) % 0x100));
        assert(le_byte(v as nat, 3) == ((v / 0x1000000) % 0x100));
        assert(le_byte(v as nat, 4) == ((v / 0x100000000) % 0x100));
        assert(le_byte(v as nat, 5) == ((v / 0x10000000000) % 0x100));
        assert(le_byte(v as nat, 6) == ((v / 0x1000000000000) % 0x100));
        assert(le_byte(v as nat, 7) == ((v / 0x100000000000000) % 0x100));
    }
}

/// A native value that a typed view can read and write directly.
///
/// `as_nat` is the value's unsigned little-endian encoding (two's complement
/// for the signed types); it determines the bytes an element occupies.
pub trait TypedArrayElement: Sized + Copy {
    /// The element kind whose views hold values of this type.
    spec fn kind_spec() -> TypedArrayKind;

    /// The unsigned encoding of this value, below `256^width`.
    spec fn as_nat(self) -> nat;

    /// The encoding fits in the element's width.
    proof fn lemma_as_nat_bound(self)
        ensures
            self.as_nat() < pow256(Self::kind_spec().width()),
    ;

    /// Two values with the same encoding are the same value.
    proof fn lemma_as_nat_injective(self, other: Self)
        ensures
            self.as_nat() == other.as_nat() ==> self == other,
    ;

    /// The element kind whose views hold values of this type.
    fn kind() -> (k: TypedArrayKind)
        ensures
            k == Self::kind_spec(),
    ;

    /// Reads the element stored at byte position `pos`.
    fn read(buf: &ArrayBuffer, pos: usize) -> (r: Self)
        requires
            pos + Self::kind_spec().width() <= buf@.len(),
        ensures
            r.as_nat() == le_val(buf@, pos as int, Self::kind_spec().width()),
    ;

    /// Writes this value at byte position `pos`; no other byte changes.
    fn write(buf: &mut ArrayBuffer, pos: usize, v: Self)
        requires
            pos + Self::kind_spec().width() <= old(buf)@.len(),
        ensures
            written(old(buf)@, final(buf)@, pos as int, Self::kind_spec().width(), v.as_nat()),
    ;
}

impl TypedArrayElement for u8 {
    open spec fn kind_spec() -> TypedArrayKind {
        TypedArrayKind::UInt8
    }

    open spec fn as_nat(self) -> nat {
        self as nat
    }

    proof fn lemma_as_nat_bound(self) {
        lemma_pow256_values();
    }

    proof fn lemma_as_nat_injective(self, other: Self) {
    }

    fn kind() -> TypedArrayKind {
        TypedArrayKind::UInt8
    }

    fn read(buf: &ArrayBuffer, pos: usize) -> Self {
        read_le1(buf, pos)
    }

    fn write(buf: &mut ArrayBuffer, pos: usize, v: Self) {
        write_le1(buf, pos, v);
    }
}

impl TypedArrayElement for u16 {
    open spec fn kind_spec() -> TypedArrayKind {
        TypedArrayKind::UInt16
    }

    open spec fn as_nat(self) -> nat {
        self as nat
    }

    proof fn lemma_as_nat_bound(self) {
        lemma_pow256_values();
    }

    proof fn lemma_as_nat_injective(self, other: Self) {
    }

    fn kind() -> TypedArrayKind {
        TypedArrayKind::UInt16
    }

    fn read(buf: &ArrayBuffer, pos: usize) -> Self {
        read_le2(buf, pos)
    }

    fn write(buf: &mut ArrayBuffer, pos: usize, v: Self) {
        write_le2(buf, pos, v);
    }
}

impl TypedArrayElement for u32 {
    open spec fn kind_spec() -> TypedArrayKind {
        TypedArrayKind::UInt32
    }

    open spec fn as_nat(self) -> nat {
        self as nat
    }

    proof fn lemma_as_nat_bound(self) {
        lemma_pow256_values();
    }

    proof fn lemma_as_nat_injective(self, other: Self) {
    }

    fn kind() -> TypedArrayKind {
        TypedArrayKind::UInt32
    }

    fn read(buf: &ArrayBuffer, pos: usize) -> Self {
        read_le4(buf, pos)
    }

    fn write(buf: &mut ArrayBuffer, pos: usize, v: Self) {
        write_le4(buf, pos, v);
    }
}

impl TypedArrayElement for u64 {
    open spec fn kind_spec() -> TypedArrayKind {
        TypedArrayKind::UInt64
    }

    open spec fn as_nat(self) -> nat {
        self as nat
    }

    proof fn lemma_as_nat_bound(self) {
        lemma_pow256_values();
    }

    proof fn lemma_as_nat_injective(self, other: Self) {
    }

    fn kind() -> TypedArrayKind {
        TypedArrayKind::UInt64
    }

    fn read(buf: &ArrayBuffer, pos: usize) -> Self {
        read_le8(buf, pos)
    }

    fn write(buf: &mut ArrayBuffer, pos: usize, v: Self) {
        write_le8(buf, pos, v);
    }
}

impl TypedArrayElement for i8 {
    open spec fn kind_spec() -> TypedArrayKind {
        TypedArrayKind::SInt8
    }

    open spec fn as_nat(self) -> nat {
        of_signed(self as int, 1)
    }

    proof fn lemma_as_nat_bound(self) {
        lemma_pow256_values();
    }

    proof fn lemma_as_nat_injective(self, other: Self) {
        lemma_pow256_values();
    }

    fn kind() -> TypedArrayKind {
        TypedArrayKind::SInt8
    }

    fn read(buf: &ArrayBuffer, pos: usize) -> (r: Self)
    {
        proof {
            lemma_pow256_values();
        }
        let x = read_le1(buf, pos);
        if x < 0x80 {
            x as i8
        } else {
            ((x - 0x80) as i8 - 0x7f) - 1
        }
    }

    fn write(buf: &mut ArrayBuffer, pos: usize, v: Self) {
        proof {
            lemma_pow256_values();
        }
        let u: u8 = if v >= 0 {
            v as u8
        } else {
            ((v + 0x7f) + 1) as u8 + 0x80
        };
        write_le1(buf, pos, u);
    }
}

impl TypedArrayElement for i16 {
    open spec fn kind_spec() -> TypedArrayKind {
        TypedArrayKind::SInt16
    }

    open spec fn as_nat(self) -> nat {
        of_signed(self as int, 2)
    }

    proof fn lemma_as_nat_bound(self) {
        lemma_pow256_values();
    }

    proof fn lemma_as_nat_injective(self, other: Self) {
        lemma_pow256_values();
    }

    fn kind() -> TypedArrayKind {
        TypedArrayKind::SInt16
    }

    fn read(buf: &ArrayBuffer, pos: usize) -> (r: Self)
    {
        proof {
            lemma_pow256_values();
        }
        let x = read_le2(buf, pos);
        if x < 0x8000 {
            x as i16
        } else {
            ((x - 0x8000) as i16 - 0x7fff) - 1
        }
    }

    fn write(buf: &mut ArrayBuffer, pos: usize, v: Self) {
        proof {
            lemma_pow256_values();
        }
        let u: u16 = if v >= 0 {
            v as u16
        } else {
            ((v + 0x7fff) + 1) as u16 + 0x8000
        };
        write_le2(buf, pos, u);
    }
}

impl TypedArrayElement for i32 {
    open spec fn kind_spec() -> TypedArrayKind {
        TypedArrayKind::SInt32
    }

    open spec fn as_nat(self) -> nat {
        of_signed(self as int, 4)
    }

    proof fn lemma_as_nat_bound(self) {
        lemma_pow256_values();
    }

    proof fn lemma_as_nat_injective(self, other: Self) {
        lemma_pow256_values();
    }

    fn kind() -> TypedArrayKind {
        TypedArrayKind::SInt32
    }

    fn read(buf: &ArrayBuffer, pos: usize) -> (r: Self)
    {
        proof {
            lemma_pow256_values();
        }
        let x = read_le4(buf, pos);
        if x < 0x80000000 {
            x as i32
        } else {
            ((x - 0x80000000) as i32 - 0x7fffffff) - 1
        }
    }

    fn write(buf: &mut ArrayBuffer, pos: usize, v: Self) {
        proof {
            lemma_pow256_values();
        }
        let u: u32 = if v >= 0 {
            v as u32
        } else {
            ((v + 0x7fffffff) + 1) as u32 + 0x80000000
        };
        write_le4(buf, pos, u);
    }
}

impl TypedArrayElement for i64 {
    open spec fn kind_spec() -> TypedArrayKind {
        TypedArrayKind::SInt64
    }

    open spec fn as_nat(self) -> nat {
        of_signed(self as int, 8)
    }

    proof fn lemma_as_nat_bound(self) {
        lemma_pow256_values();
    }

    proof fn lemma_as_nat_injective(self, other: Self) {
        lemma_pow256_values();
    }

    fn kind() -> TypedArrayKind {
        TypedArrayKind::SInt64
    }

    fn read(buf: &ArrayBuffer, pos: usize) -> (r: Self)
    {
        proof {
            lemma_pow256_values();
        }
        let x = read_le8(buf, pos);
        if x < 0x8000000000000000 {
            x as i64
        } else {
            ((x - 0x8000000000000000) as i64 - 0x7fffffffffffffff) - 1
        }
    }

    fn write(buf: &mut ArrayBuffer, pos: usize, v: Self) {
        proof {
            lemma_pow256_values();
        }
        let u: u64 = if v >= 0 {
            v as u64
        } else {
            ((v + 0x7fffffffffffffff) + 1) as u64 + 0x8000000000000000
        };
        write_le8(buf, pos, u);
    }
}

} // verus!
