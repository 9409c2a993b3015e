//! The little-endian byte model.
//!
//! Multi-byte element values are stored least-significant byte first. The
//! spec functions here say what an unsigned value read from a byte sequence
//! is, which byte an unsigned value contributes at each position, and how
//! unsigned encodings relate to signed (two's-complement) values.

use vstd::prelude::*;

verus! {

/// 256 to the power `n`: the number of values a row of `n` bytes can hold.
pub open spec fn pow256(n: nat) -> nat
    decreases n,
{
    if n == 0 {
        1
    } else {
        256 * pow256((n - 1) as nat)
    }
}

/// The unsigned value of the `w` bytes of `buf` starting at `pos`,
/// least-significant byte first.
pub open spec fn le_val(buf: Seq<u8>, pos: int, w: nat) -> nat
    decreases w,
{
    if w == 0 {
        0
    } else {
        buf[pos] as nat + 256 * le_val(buf, pos + 1, (w - 1) as nat)
    }
}

/// Byte `i` (counting from the least significant) of the unsigned value `v`.
pub open spec fn le_byte(v: nat, i: nat) -> u8 {
    ((v / pow256(i)) % 256) as u8
}

/// The signed reading of an unsigned `w`-byte encoding: two's complement.
pub open spec fn to_signed(v: nat, w: nat) -> int {
    if v < pow256(w) / 2 {
        v as int
    } else {
        v as int - pow256(w) as int
    }
}

/// The unsigned `w`-byte encoding of a signed value: two's complement.
pub open spec fn of_signed(x: int, w: nat) -> nat {
    if x >= 0 {
        x as nat
    } else {
        (x + pow256(w)) as nat
    }
}

/// `le_val` reads only the bytes in `[pos, pos + w)`: two buffers that agree
/// there give the same value.
pub proof fn lemma_le_val_depends_only_on_range(a: Seq<u8>, b: Seq<u8>, pos: int, w: nat)
    requires
        0 <= pos,
        pos + w <= a.len(),
        pos + w <= b.len(),
        forall|j: int| pos <= j < pos + w ==> a[j] == b[j],
    ensures
        le_val(a, pos, w) == le_val(b, pos, w),
    decreases w,
{
    if w > 0 {
        lemma_le_val_depends_only_on_range(a, b, pos + 1, (w - 1) as nat);
    }
}

/// A value read from `w` bytes is below `256^w`.
pub proof fn lemma_le_val_bound(buf: Seq<u8>, pos: int, w: nat)
    ensures
        le_val(buf, pos, w) < pow256(w),
    decreases w,
{
    if w == 0 {
    } else {
        lemma_le_val_bound(buf, pos + 1, (w - 1) as nat);
    }
}

/// If every byte in `[pos, pos + w)` is the matching `le_byte` of `v`, and
/// `v < 256^w`, the bytes read back as `v`.
pub proof fn lemma_le_bytes_read_back(buf: Seq<u8>, pos: int, w: nat, v: nat)
    requires
        0 <= pos,
        pos + w <= buf.len(),
        v < pow256(w),
        forall|j: int| pos <= j < pos + w ==> buf[j] == le_byte(v, (j - pos) as nat),
    ensures
        le_val(buf, pos, w) == v,
    decreases w,
{
    if w == 0 {
    } else {
        let rest = v / 256;
        assert(buf[pos] == le_byte(v, 0));
        assert(pow256(0) == 1);
        assert(le_byte(v, 0) == v % 256) by {
            vstd::arithmetic::div_mod::lemma_div_basics(v as int);
        }
        assert forall|j: int| pos + 1 <= j < pos + 1 + (w - 1) implies buf[j] == le_byte(
            rest,
            (j - (pos + 1)) as nat,
        ) by {
            let i = (j - pos) as nat;
            assert(buf[j] == le_byte(v, i));
            assert(i >= 1);
            lemma_le_byte_shift(v, (i - 1) as nat);
        }
        assert(rest < pow256((w - 1) as nat)) by {
            lemma_pow256_pos((w - 1) as nat);
            vstd::arithmetic::div_mod::lemma_div_is_ordered_by_denominator(v as int, 1, 256);
            assert(v / 256 < pow256(w) / 256 + 1) by {
                vstd::arithmetic::div_mod::lemma_div_is_ordered(
                    v as int,
                    pow256(w) as int,
                    256,
                );
                assert(pow256(w) == 256 * pow256((w - 1) as nat));
                vstd::arithmetic::div_mod::lemma_div_by_multiple(
                    pow256((w - 1) as nat) as int,
                    256,
                );
            }
            assert(pow256(w) / 256 == pow256((w - 1) as nat)) by {
                assert(pow256(w) == 256 * pow256((w - 1) as nat));
                vstd::arithmetic::div_mod::lemma_div_by_multiple(
                    pow256((w - 1) as nat) as int,
                    256,
                );
            }
        }
        lemma_le_bytes_read_back(buf, pos + 1, (w - 1) as nat, rest);
        assert(v == 256 * (v / 256) + v % 256) by {
            vstd::arithmetic::div_mod::lemma_fundamental_div_mod(v as int, 256);
        }
    }
}

/// Dropping the lowest byte of `v` moves every other byte down one place.
pub proof fn lemma_le_byte_shift(v: nat, i: nat)
    ensures
        le_byte(v / 256, i) == le_byte(v, i + 1),
{
    assert((v / 256) / pow256(i) == v / pow256(i + 1)) by {
        lemma_pow256_pos(i);
        vstd::arithmetic::div_mod::lemma_div_denominator(v as int, 256, pow256(i) as int);
        assert(256 * pow256(i) == pow256(i + 1));
    }
}

/// `256^n` is positive.
pub proof fn lemma_pow256_pos(n: nat)
    ensures
        pow256(n) >= 1,
    decreases n,
{
    if n > 0 {
        lemma_pow256_pos((n - 1) as nat);
    }
}

/// The values of `256^n` for the element widths in use.
pub proof fn lemma_pow256_values()
    ensures
        pow256(0) == 1,
        pow256(1) == 0x100,
        pow256(2) == 0x10000,
        pow256(4) == 0x100000000,
        pow256(8) == 0x10000000000000000,
{
    assert(pow256(0) == 1);
    assert(pow256(1) == 0x100);
    assert(pow256(2) == 0x10000);
    assert(pow256(3) == 0x1000000);
    assert(pow256(4) == 0x100000000);
    assert(pow256(5) == 0x10000000000);
    assert(pow256(6) == 0x1000000000000);
    assert(pow256(7) == 0x100000000000000);
    assert(pow256(8) == 0x10000000000000000);
}

} // verus!
