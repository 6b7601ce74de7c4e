//! Big-endian encodings of the two's-complement integers that appear in
//! byte code: operand values, header fields and arena reads.

use vstd::prelude::*;
use vstd::arithmetic::div_mod::lemma_fundamental_div_mod;

verus! {

/// The unsigned value of four big-endian base-256 digits.
pub open spec fn spec_u32_be(b0: u8, b1: u8, b2: u8, b3: u8) -> int {
    b0 * 0x1000000 + b1 * 0x10000 + b2 * 0x100 + b3
}

/// The unsigned value of two big-endian base-256 digits.
pub open spec fn spec_u16_be(b0: u8, b1: u8) -> int {
    b0 * 0x100 + b1
}

/// Reads an unsigned 32-bit quantity in `[0, 2^32)` as a signed one,
/// two's complement.
pub open spec fn spec_i32_of(u: int) -> int {
    if u >= 0x8000_0000 {
        u - 0x1_0000_0000
    } else {
        u
    }
}

/// Reads an unsigned 16-bit quantity in `[0, 2^16)` as a signed one,
/// two's complement.
pub open spec fn spec_i16_of(u: int) -> int {
    if u >= 0x8000 {
        u - 0x1_0000
    } else {
        u
    }
}

/// The signed value of four big-endian bytes.
pub open spec fn spec_i32_be(b0: u8, b1: u8, b2: u8, b3: u8) -> int {
    spec_i32_of(spec_u32_be(b0, b1, b2, b3))
}

/// The signed value of two big-endian bytes.
pub open spec fn spec_i16_be(b0: u8, b1: u8) -> int {
    spec_i16_of(spec_u16_be(b0, b1))
}

/// The unsigned 32-bit representative of a signed value in
/// `[-2^31, 2^31)`: its value modulo `2^32`.
pub open spec fn spec_u32_of_i32(v: int) -> int {
    if v < 0 {
        v + 0x1_0000_0000
    } else {
        v
    }
}

/// The unsigned 16-bit representative of a signed value in
/// `[-2^15, 2^15)`: its value modulo `2^16`.
pub open spec fn spec_u16_of_i16(v: int) -> int {
    if v < 0 {
        v + 0x1_0000
    } else {
        v
    }
}

/// Composes four big-endian bytes into the signed 32-bit value they encode.
pub fn be_to_i32(b0: u8, b1: u8, b2: u8, b3: u8) -> (r: i32)
    ensures
        r as int == spec_i32_be(b0, b1, b2, b3),
{
    let u: u32 =
        (b0 as u32) * 0x1000000 + (b1 as u32) * 0x10000 + (b2 as u32) * 0x100 + (b3 as u32);
    if u >= 0x8000_0000 {
        // Negative: the magnitude 2^32 - u lies in [1, 2^31].
        let mag_minus_one: u32 = u32::MAX - u;
        -(mag_minus_one as i32) - 1
    } else {
        u as i32
    }
}

/// Composes two big-endian bytes into the signed 16-bit value they encode.
pub fn be_to_i16(b0: u8, b1: u8) -> (r: i16)
    ensures
        r as int == spec_i16_be(b0, b1),
{
    let u: u16 = (b0 as u16) * 0x100 + (b1 as u16);
    if u >= 0x8000 {
        let mag_minus_one: u16 = u16::MAX - u;
        -(mag_minus_one as i16) - 1
    } else {
        u as i16
    }
}

/// The four big-endian bytes of an unsigned value in `[0, 2^32)`.
pub open spec fn spec_be4(v: int) -> Seq<u8> {
    seq![
        (v / 0x1000000) as u8,
        ((v / 0x10000) % 0x100) as u8,
        ((v / 0x100) % 0x100) as u8,
        (v % 0x100) as u8,
    ]
}

/// The two big-endian bytes of an unsigned value in `[0, 2^16)`.
pub open spec fn spec_be2(v: int) -> Seq<u8> {
    seq![((v / 0x100) % 0x100) as u8, (v % 0x100) as u8]
}

/// Base-256 decomposition is the inverse of composition.
pub proof fn lemma_be4_value(v: int)
    requires
        0 <= v < 0x1_0000_0000,
    ensures
        spec_u32_be(spec_be4(v)[0], spec_be4(v)[1], spec_be4(v)[2], spec_be4(v)[3]) == v,
{
    lemma_fundamental_div_mod(v, 0x100);
    lemma_fundamental_div_mod(v / 0x100, 0x100);
    lemma_fundamental_div_mod(v / 0x100 / 0x100, 0x100);
    vstd::arithmetic::div_mod::lemma_div_denominator(v, 0x100, 0x100);
    vstd::arithmetic::div_mod::lemma_div_denominator(v, 0x10000, 0x100);
    vstd::arithmetic::div_mod::lemma_div_denominator(v / 0x100, 0x100, 0x100);
    vstd::arithmetic::div_mod::lemma_mod_bound(v, 0x100);
    vstd::arithmetic::div_mod::lemma_mod_bound(v / 0x100, 0x100);
    vstd::arithmetic::div_mod::lemma_mod_bound(v / 0x10000, 0x100);
    assert(v / 0x1000000 < 0x100) by {
        vstd::arithmetic::div_mod::lemma_div_is_ordered(v, 0xffff_ffff, 0x1000000);
    }
    assert(v / 0x1000000 >= 0) by {
        vstd::arithmetic::div_mod::lemma_div_pos_is_pos(v, 0x1000000);
    }
}

/// Base-256 decomposition is the inverse of composition, two bytes.
pub proof fn lemma_be2_value(v: int)
    requires
        0 <= v < 0x1_0000,
    ensures
        spec_u16_be(spec_be2(v)[0], spec_be2(v)[1]) == v,
{
    lemma_fundamental_div_mod(v, 0x100);
    vstd::arithmetic::div_mod::lemma_mod_bound(v, 0x100);
    assert(v / 0x100 < 0x100) by {
        vstd::arithmetic::div_mod::lemma_div_is_ordered(v, 0xffff, 0x100);
    }
    assert((v / 0x100) % 0x100 == v / 0x100) by {
        vstd::arithmetic::div_mod::lemma_div_pos_is_pos(v, 0x100);
        vstd::arithmetic::div_mod::lemma_small_mod((v / 0x100) as nat, 0x100nat);
    }
}

/// Splits an unsigned 32-bit value into its four big-endian bytes.
pub fn u32_to_be(u: u32) -> (r: [u8; 4])
    ensures
        r@ == spec_be4(u as int),
        spec_u32_be(r[0], r[1], r[2], r[3]) == u as int,
{
    let b0: u8 = (u / 0x1000000) as u8;
    let b1: u8 = ((u / 0x10000) % 0x100) as u8;
    let b2: u8 = ((u / 0x100) % 0x100) as u8;
    let b3: u8 = (u % 0x100) as u8;
    proof {
        lemma_be4_value(u as int);
        assert([b0, b1, b2, b3]@ =~= spec_be4(u as int));
    }
    [b0, b1, b2, b3]
}

/// Splits an unsigned 16-bit value into its two big-endian bytes.
pub fn u16_to_be(u: u16) -> (r: [u8; 2])
    ensures
        r@ == spec_be2(u as int),
        spec_u16_be(r[0], r[1]) == u as int,
{
    let b1: u8 = (u % 0x100) as u8;
    let b0: u8 = ((u / 0x100) % 0x100) as u8;
    proof {
        lemma_be2_value(u as int);
        assert([b0, b1]@ =~= spec_be2(u as int));
    }
    [b0, b1]
}

/// Splits a signed 32-bit value into the four big-endian bytes of its
/// two's-complement representation.
pub fn i32_to_be(v: i32) -> (r: [u8; 4])
    ensures
        r@ == spec_be4(spec_u32_of_i32(v as int)),
        spec_u32_be(r[0], r[1], r[2], r[3]) == spec_u32_of_i32(v as int),
        spec_i32_be(r[0], r[1], r[2], r[3]) == v as int,
{
    let u: u32 = if v >= 0 {
        v as u32
    } else {
        ((v as i64) + 0x1_0000_0000i64) as u32
    };
    u32_to_be(u)
}

/// Splits a signed 16-bit value into the two big-endian bytes of its
/// two's-complement representation.
pub fn i16_to_be(v: i16) -> (r: [u8; 2])
    ensures
        r@ == spec_be2(spec_u16_of_i16(v as int)),
        spec_u16_be(r[0], r[1]) == spec_u16_of_i16(v as int),
        spec_i16_be(r[0], r[1]) == v as int,
{
    let u: u16 = if v >= 0 {
        v as u16
    } else {
        ((v as i32) + 0x1_0000i32) as u16
    };
    u16_to_be(u)
}

} // verus!
