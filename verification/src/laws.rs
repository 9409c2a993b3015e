//! Laws relating the view operations to one another.
//!
//! Each proof function here states, over the spec-level model, a guarantee
//! that spans more than one operation: what a read after a write returns,
//! and how a write through one view surfaces in another view of the same
//! buffer.

use vstd::arithmetic::power2::pow2;
use vstd::prelude::*;

use crate::bytes::le_byte;
use crate::bytes::le_val;
use crate::bytes::lemma_pow256_values;
use crate::bytes::pow256;
use crate::element::lemma_written_reads_back;
use crate::kind::TypedArrayKind;
use crate::numeric::elem_of_number_bits;
use crate::numeric::number_bits_of_elem;
use crate::typed_array::TypedArray;

verus! {

/// Every element encoding a numeric write stores fits the element's width.
pub proof fn lemma_elem_of_number_bits_fits(kind: TypedArrayKind, bits: u64)
    ensures
        elem_of_number_bits(kind, bits) < pow256(kind.width()),
{
    lemma_pow256_values();
    match kind {
        TypedArrayKind::Float32 => {
        },
        TypedArrayKind::Float64 => {
        },
        _ => {
            vstd::arithmetic::div_mod::lemma_mod_division_less_than_divisor(
                crate::numeric::number_to_uint64(bits) as int,
                pow256(kind.width()) as int,
            );
        },
    }
}

/// An element write is read back unchanged: after a successful `set` or
/// `set_number` stored the encoding `v` in element `i`, reading element `i`
/// of the new bytes yields `v`. Together with the contracts of
/// `get_number` and `get`, a read after a write returns exactly the value
/// the written element encodes.
pub proof fn lemma_write_then_read(
    view: TypedArray,
    old_buf: Seq<u8>,
    new_buf: Seq<u8>,
    i: int,
    v: nat,
)
    requires
        view.valid_for(old_buf),
        0 <= i < view.length_spec(),
        v < pow256(view.kind_spec().width()),
        view.elem_written(old_buf, new_buf, i, v),
    ensures
        view.elem_nat(new_buf, i) == v,
{
    let w = view.kind_spec().width();
    let pos = view.offset_spec() + i * w;
    assert((i + 1) * w <= view.length_spec() * w) by {
        broadcast use vstd::arithmetic::mul::lemma_mul_inequality;

    }
    assert((i + 1) * w == i * w + w) by {
        broadcast use vstd::arithmetic::mul::lemma_mul_is_distributive_add_other_way;

    }
    assert(i * w >= 0) by {
        broadcast use vstd::arithmetic::mul::lemma_mul_nonnegative;

    }
    lemma_written_reads_back(old_buf, new_buf, pos as int, w, v);
}

/// A numeric write followed by a numeric read round-trips through the
/// element encoding: after `set_number` stored the number `bits` in element
/// `i`, what `get_number` returns for element `i` of the new bytes is the
/// stored element read back as a number —
/// `number_bits_of_elem(kind, elem_of_number_bits(kind, bits))`. For an
/// integer element this is the written number truncated toward zero and
/// wrapped to the element's width, reinterpreted two's complement for the
/// signed kinds.
pub proof fn lemma_set_get_number_round_trip(
    view: TypedArray,
    old_buf: Seq<u8>,
    new_buf: Seq<u8>,
    i: int,
    bits: u64,
)
    requires
        view.valid_for(old_buf),
        0 <= i < view.length_spec(),
        view.elem_written(old_buf, new_buf, i, elem_of_number_bits(view.kind_spec(), bits)),
    ensures
        view.elem_nat(new_buf, i) == elem_of_number_bits(view.kind_spec(), bits),
        number_bits_of_elem(view.kind_spec(), view.elem_nat(new_buf, i)) == number_bits_of_elem(
            view.kind_spec(),
            elem_of_number_bits(view.kind_spec(), bits),
        ),
{
    lemma_elem_of_number_bits_fits(view.kind_spec(), bits);
    lemma_write_then_read(view, old_buf, new_buf, i, elem_of_number_bits(view.kind_spec(), bits));
}

/// Aliasing: two views over one four-byte buffer, a whole-buffer UInt32
/// view `w_view` and a whole-buffer UInt8 view `u_view`. A numeric write
/// through the UInt32 view changes the four bytes the UInt8 view reads, to
/// exactly the little-endian bytes of the written number truncated and
/// wrapped to 32 bits.
pub proof fn lemma_aliasing_u32_u8(
    w_view: TypedArray,
    u_view: TypedArray,
    old_buf: Seq<u8>,
    new_buf: Seq<u8>,
    bits: u64,
    i: int,
)
    requires
        old_buf.len() == 4,
        w_view.kind_spec() == TypedArrayKind::UInt32,
        w_view.offset_spec() == 0,
        w_view.length_spec() == 1,
        u_view.kind_spec() == TypedArrayKind::UInt8,
        u_view.offset_spec() == 0,
        u_view.length_spec() == 4,
        w_view.elem_written(old_buf, new_buf, 0, elem_of_number_bits(TypedArrayKind::UInt32, bits)),
        0 <= i < 4,
    ensures
        u_view.elem_nat(new_buf, i) == le_byte(
            elem_of_number_bits(TypedArrayKind::UInt32, bits),
            i as nat,
        ),
{
    let v = elem_of_number_bits(TypedArrayKind::UInt32, bits);
    assert(new_buf[i] == le_byte(v, i as nat)) by {
        broadcast use vstd::arithmetic::mul::lemma_mul_basics_3;

    }
    assert(u_view.elem_nat(new_buf, i) == le_val(new_buf, i, 1)) by {
        broadcast use vstd::arithmetic::mul::lemma_mul_basics_1;

    }
    assert(le_val(new_buf, i, 1) == new_buf[i] as nat + 256 * le_val(new_buf, i + 1, 0));
}

} // verus!

verus! {

/// Numeric conversion is exact for the integer kinds of width 32 bits or
/// less and for Float64: reading an element as a number and writing that
/// number back stores the very same element. The 64-bit integer kinds are
/// left out deliberately — their read rounds to the nearest binary64 value
/// and may lose precision above 2^53 — as is Float32, whose read-back goes
/// through a widening (see `lemma_f32_widen_narrow_identity`).
pub proof fn lemma_number_round_trip_exact(kind: TypedArrayKind, v: nat)
    requires
        v < pow256(kind.width()),
        kind != TypedArrayKind::SInt64,
        kind != TypedArrayKind::UInt64,
        kind != TypedArrayKind::Float32,
    ensures
        elem_of_number_bits(kind, number_bits_of_elem(kind, v)) == v,
{
    lemma_pow256_values();
    vstd::arithmetic::power2::lemma2_to64();
    vstd::arithmetic::power2::lemma2_to64_rest();
    let w = kind.width();
    match kind {
        TypedArrayKind::Float64 => {
        },
        TypedArrayKind::UInt8 | TypedArrayKind::UInt16 | TypedArrayKind::UInt32 => {
            vstd::arithmetic::power2::lemma_pow2_strictly_increases(32, 53);
            crate::numeric::lemma_trunc_encode_exact(v);
            vstd::arithmetic::div_mod::lemma_small_mod(v, pow256(w));
        },
        _ => {
            vstd::arithmetic::power2::lemma_pow2_strictly_increases(32, 53);
            let x = crate::bytes::to_signed(v, w);
            crate::numeric::lemma_trunc_encode_exact_int(x);
            if x >= 0 {
                vstd::arithmetic::div_mod::lemma_small_mod(v, pow256(w));
            } else {
                let m = pow256(w);
                let c: int = if w == 1 {
                    pow2(56) as int
                } else if w == 2 {
                    pow2(48) as int
                } else {
                    pow2(32) as int
                };
                assert(c * m == pow2(64)) by {
                    vstd::arithmetic::power2::lemma_pow2_adds(56, 8);
                    vstd::arithmetic::power2::lemma_pow2_adds(48, 16);
                    vstd::arithmetic::power2::lemma_pow2_adds(32, 32);
                }
                assert(x + pow2(64) == (c - 1) * m + v) by (nonlinear_arith)
                    requires
                        x == v - m,
                        c * m == pow2(64),
                ;
                assert(((c - 1) * m + v as int) % (m as int) == v as int % (m as int)) by {
                    vstd::arithmetic::div_mod::lemma_mod_multiples_vanish(c - 1, v as int, m as int);
                }
                vstd::arithmetic::div_mod::lemma_small_mod(v, m);
            }
        },
    }
}

} // verus!

verus! {

/// Numeric conversion also round-trips for Float32 elements, except for a
/// stored signaling-NaN pattern, which reading quiets: reading the element
/// as a number widens it exactly, and writing that number back narrows it
/// to the very pattern that was stored.
pub proof fn lemma_float32_number_round_trip(v: nat)
    requires
        v < pow256(4),
        !(crate::numeric::f32_exp(v as u32) == 0xff && 0 < crate::numeric::f32_frac(v as u32)
            < 0x400000),
    ensures
        elem_of_number_bits(
            TypedArrayKind::Float32,
            number_bits_of_elem(TypedArrayKind::Float32, v),
        ) == v,
{
    lemma_pow256_values();
    crate::numeric::lemma_f32_widen_narrow_identity(v as u32);
}

/// A write to one element never corrupts another: after element `i` was
/// overwritten, every other element of the view reads exactly as before.
pub proof fn lemma_write_preserves_other_elements(
    view: TypedArray,
    old_buf: Seq<u8>,
    new_buf: Seq<u8>,
    i: int,
    v: nat,
    j: int,
)
    requires
        view.valid_for(old_buf),
        0 <= i < view.length_spec(),
        0 <= j < view.length_spec(),
        j != i,
        view.elem_written(old_buf, new_buf, i, v),
    ensures
        view.elem_nat(new_buf, j) == view.elem_nat(old_buf, j),
{
    let w = view.kind_spec().width();
    let off = view.offset_spec();
    broadcast use vstd::arithmetic::mul::lemma_mul_inequality;
    broadcast use vstd::arithmetic::mul::lemma_mul_is_distributive_add_other_way;
    broadcast use vstd::arithmetic::mul::lemma_mul_nonnegative;

    assert((j + 1) * w == j * w + w);
    assert((i + 1) * w == i * w + w);
    assert((j + 1) * w <= view.length_spec() * w);
    if j < i {
        assert((j + 1) * w <= i * w);
    } else {
        assert((i + 1) * w <= j * w);
    }
    crate::bytes::lemma_le_val_depends_only_on_range(
        new_buf,
        old_buf,
        (off + j * w) as int,
        w,
    );
}

} // verus!
