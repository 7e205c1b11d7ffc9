//! The byte substitution of the cipher and its inverse: what they are in
//! the field, the two tables that hold them, and the proof that the tables
//! hold nothing else.

use crate::gf256::{ginv, gmul};
use vstd::prelude::*;

verus! {

/// The affine map over GF(2) that ends the substitution: each bit added to
/// the four bits that follow it cyclically, and to the bits of `63`.
pub open spec fn affine(b: u8) -> u8 {
    b ^ ((b << 1) | (b >> 7)) ^ ((b << 2) | (b >> 6)) ^ ((b << 3) | (b >> 5)) ^ ((b << 4) | (b
        >> 4)) ^ 0x63
}

/// The inverse of `affine`.
pub open spec fn inv_affine(b: u8) -> u8 {
    ((b << 1) | (b >> 7)) ^ ((b << 3) | (b >> 5)) ^ ((b << 6) | (b >> 2)) ^ 0x05
}

/// The substitution of one byte: its inverse in the field, then the affine
/// map.
pub open spec fn sub_byte(x: u8) -> u8 {
    affine(ginv(x))
}

/// The inverse substitution of one byte: the affine map undone, then the
/// inverse in the field.
pub open spec fn inv_sub_byte(x: u8) -> u8 {
    ginv(inv_affine(x))
}

// The substitution table, one constant for each of its sixteen rows. A row
// holds the images of sixteen consecutive bytes, the first in the top byte.
pub const SBOX_ROW_0: u128 = 0x637c777b_f26b6fc5_3001672b_fed7ab76;

pub const SBOX_ROW_1: u128 = 0xca82c97d_fa5947f0_add4a2af_9ca472c0;

pub const SBOX_ROW_2: u128 = 0xb7fd9326_363ff7cc_34a5e5f1_71d83115;

pub const SBOX_ROW_3: u128 = 0x04c723c3_1896059a_071280e2_eb27b275;

pub const SBOX_ROW_4: u128 = 0x09832c1a_1b6e5aa0_523bd6b3_29e32f84;

pub const SBOX_ROW_5: u128 = 0x53d100ed_20fcb15b_6acbbe39_4a4c58cf;

pub const SBOX_ROW_6: u128 = 0xd0efaafb_434d3385_45f9027f_503c9fa8;

pub const SBOX_ROW_7: u128 = 0x51a3408f_929d38f5_bcb6da21_10fff3d2;

pub const SBOX_ROW_8: u128 = 0xcd0c13ec_5f974417_c4a77e3d_645d1973;

pub const SBOX_ROW_9: u128 = 0x60814fdc_222a9088_46eeb814_de5e0bdb;

pub const SBOX_ROW_A: u128 = 0xe0323a0a_4906245c_c2d3ac62_9195e479;

pub const SBOX_ROW_B: u128 = 0xe7c8376d_8dd54ea9_6c56f4ea_657aae08;

pub const SBOX_ROW_C: u128 = 0xba78252e_1ca6b4c6_e8dd741f_4bbd8b8a;

pub const SBOX_ROW_D: u128 = 0x703eb566_4803f60e_613557b9_86c11d9e;

pub const SBOX_ROW_E: u128 = 0xe1f89811_69d98e94_9b1e87e9_ce5528df;

pub const SBOX_ROW_F: u128 = 0x8ca1890d_bfe64268_41992d0f_b054bb16;

// The inverse substitution table, laid out in the same way.
pub const INV_SBOX_ROW_0: u128 = 0x52096ad5_3036a538_bf40a39e_81f3d7fb;

pub const INV_SBOX_ROW_1: u128 = 0x7ce33982_9b2fff87_348e4344_c4dee9cb;

pub const INV_SBOX_ROW_2: u128 = 0x547b9432_a6c2233d_ee4c950b_42fac34e;

pub const INV_SBOX_ROW_3: u128 = 0x082ea166_28d924b2_765ba249_6d8bd125;

pub const INV_SBOX_ROW_4: u128 = 0x72f8f664_86689816_d4a45ccc_5d65b692;

pub const INV_SBOX_ROW_5: u128 = 0x6c704850_fdedb9da_5e154657_a78d9d84;

pub const INV_SBOX_ROW_6: u128 = 0x90d8ab00_8cbcd30a_f7e45805_b8b34506;

pub const INV_SBOX_ROW_7: u128 = 0xd02c1e8f_ca3f0f02_c1afbd03_01138a6b;

pub const INV_SBOX_ROW_8: u128 = 0x3a911141_4f67dcea_97f2cfce_f0b4e673;

pub const INV_SBOX_ROW_9: u128 = 0x96ac7422_e7ad3585_e2f937e8_1c75df6e;

pub const INV_SBOX_ROW_A: u128 = 0x47f11a71_1d29c589_6fb7620e_aa18be1b;

pub const INV_SBOX_ROW_B: u128 = 0xfc563e4b_c6d27920_9adbc0fe_78cd5af4;

pub const INV_SBOX_ROW_C: u128 = 0x1fdda833_8807c731_b1121059_2780ec5f;

pub const INV_SBOX_ROW_D: u128 = 0x60517fa9_19b54a0d_2de57a9f_93c99cef;

pub const INV_SBOX_ROW_E: u128 = 0xa0e03b4d_ae2af5b0_c8ebbb3c_83539961;

pub const INV_SBOX_ROW_F: u128 = 0x172b047e_ba77d626_e1691463_55210c7d;

/// The rows of the substitution table.
pub const SBOX: [u128; 16] = [
    SBOX_ROW_0,
    SBOX_ROW_1,
    SBOX_ROW_2,
    SBOX_ROW_3,
    SBOX_ROW_4,
    SBOX_ROW_5,
    SBOX_ROW_6,
    SBOX_ROW_7,
    SBOX_ROW_8,
    SBOX_ROW_9,
    SBOX_ROW_A,
    SBOX_ROW_B,
    SBOX_ROW_C,
    SBOX_ROW_D,
    SBOX_ROW_E,
    SBOX_ROW_F,
];

/// The rows of the inverse substitution table.
pub const INV_SBOX: [u128; 16] = [
    INV_SBOX_ROW_0,
    INV_SBOX_ROW_1,
    INV_SBOX_ROW_2,
    INV_SBOX_ROW_3,
    INV_SBOX_ROW_4,
    INV_SBOX_ROW_5,
    INV_SBOX_ROW_6,
    INV_SBOX_ROW_7,
    INV_SBOX_ROW_8,
    INV_SBOX_ROW_9,
    INV_SBOX_ROW_A,
    INV_SBOX_ROW_B,
    INV_SBOX_ROW_C,
    INV_SBOX_ROW_D,
    INV_SBOX_ROW_E,
    INV_SBOX_ROW_F,
];

/// The row of the substitution table for the high nibble `hi`.
pub open spec fn sbox_row(hi: u8) -> u128 {
    if hi == 0 {
        SBOX_ROW_0
    } else if hi == 1 {
        SBOX_ROW_1
    } else if hi == 2 {
        SBOX_ROW_2
    } else if hi == 3 {
        SBOX_ROW_3
    } else if hi == 4 {
        SBOX_ROW_4
    } else if hi == 5 {
        SBOX_ROW_5
    } else if hi == 6 {
        SBOX_ROW_6
    } else if hi == 7 {
        SBOX_ROW_7
    } else if hi == 8 {
        SBOX_ROW_8
    } else if hi == 9 {
        SBOX_ROW_9
    } else if hi == 10 {
        SBOX_ROW_A
    } else if hi == 11 {
        SBOX_ROW_B
    } else if hi == 12 {
        SBOX_ROW_C
    } else if hi == 13 {
        SBOX_ROW_D
    } else if hi == 14 {
        SBOX_ROW_E
    } else {
        SBOX_ROW_F
    }
}

/// The row of the inverse substitution table for the high nibble `hi`.
pub open spec fn inv_sbox_row(hi: u8) -> u128 {
    if hi == 0 {
        INV_SBOX_ROW_0
    } else if hi == 1 {
        INV_SBOX_ROW_1
    } else if hi == 2 {
        INV_SBOX_ROW_2
    } else if hi == 3 {
        INV_SBOX_ROW_3
    } else if hi == 4 {
        INV_SBOX_ROW_4
    } else if hi == 5 {
        INV_SBOX_ROW_5
    } else if hi == 6 {
        INV_SBOX_ROW_6
    } else if hi == 7 {
        INV_SBOX_ROW_7
    } else if hi == 8 {
        INV_SBOX_ROW_8
    } else if hi == 9 {
        INV_SBOX_ROW_9
    } else if hi == 10 {
        INV_SBOX_ROW_A
    } else if hi == 11 {
        INV_SBOX_ROW_B
    } else if hi == 12 {
        INV_SBOX_ROW_C
    } else if hi == 13 {
        INV_SBOX_ROW_D
    } else if hi == 14 {
        INV_SBOX_ROW_E
    } else {
        INV_SBOX_ROW_F
    }
}

/// The byte in column `col` of a packed row.
pub open spec fn row_byte(row: u128, col: u8) -> u8 {
    ((row >> ((8 * (15 - col)) as u32)) & 0xff) as u8
}

/// What the substitution table holds for `x`.
pub open spec fn sbox_entry(x: u8) -> u8 {
    row_byte(sbox_row(x >> 4), x & 0x0f)
}

/// What the inverse substitution table holds for `x`.
pub open spec fn inv_sbox_entry(x: u8) -> u8 {
    row_byte(inv_sbox_row(x >> 4), x & 0x0f)
}

/// What the substitution table holds for `x`, sent back through the affine
/// map, is the inverse of `x`, and no other byte is.
proof fn lemma_sbox_entry(x: u8, b: u8)
    by (bit_vector)
    ensures
        sbox_entry(0) == affine(0),
        x != 0 ==> gmul(x, inv_affine(sbox_entry(x))) == 1,
        gmul(x, b) == 1 ==> sbox_entry(x) == affine(b),
{
}

/// What the inverse substitution table holds for `x` is the inverse of `x`
/// sent back through the affine map, and no other byte is.
proof fn lemma_inv_sbox_entry(x: u8, b: u8)
    by (bit_vector)
    ensures
        inv_affine(x) == 0 ==> inv_sbox_entry(x) == 0,
        inv_affine(x) != 0 ==> gmul(inv_affine(x), inv_sbox_entry(x)) == 1,
        gmul(inv_affine(x), b) == 1 ==> inv_sbox_entry(x) == b,
{
}

/// Each table undoes the other.
proof fn lemma_entries_inverse(x: u8)
    by (bit_vector)
    ensures
        inv_sbox_entry(sbox_entry(x)) == x,
        sbox_entry(inv_sbox_entry(x)) == x,
{
}

/// Both halves of a byte are below sixteen.
proof fn lemma_nibbles(x: u8)
    by (bit_vector)
    ensures
        x >> 4 < 16,
        x & 0x0f < 16,
{
}

/// The tables hold the substitution and its inverse.
pub proof fn lemma_tables(x: u8)
    ensures
        sbox_entry(x) == sub_byte(x),
        inv_sbox_entry(x) == inv_sub_byte(x),
{
    if x != 0 {
        lemma_sbox_entry(x, 0);
        let b = choose|b: u8| gmul(x, b) == 1;
        lemma_sbox_entry(x, b);
    } else {
        lemma_sbox_entry(0, 0);
    }
    let y = inv_affine(x);
    lemma_inv_sbox_entry(x, 0);
    if y != 0 {
        let b = choose|b: u8| gmul(y, b) == 1;
        lemma_inv_sbox_entry(x, b);
    }
}

/// The inverse substitution undoes the substitution, and the other way
/// round.
pub proof fn lemma_inv_sub_byte(x: u8)
    ensures
        inv_sub_byte(sub_byte(x)) == x,
        sub_byte(inv_sub_byte(x)) == x,
{
    lemma_tables(x);
    lemma_tables(sub_byte(x));
    lemma_tables(inv_sub_byte(x));
    lemma_entries_inverse(x);
}

/// The byte in column `col` of a packed row.
fn byte_of_row(row: u128, col: u8) -> (b: u8)
    requires
        col < 16,
    ensures
        b == row_byte(row, col),
{
    let shift: u32 = 8 * (15 - col as u32);
    let wide: u128 = (row >> shift) & 0xff;
    assert(wide <= 0xff) by (bit_vector)
        requires
            wide == (row >> shift) & 0xff,
    ;
    wide as u8
}

/// The substitution of `x`, read from the table.
pub fn substitute(x: u8) -> (y: u8)
    ensures
        y == sub_byte(x),
{
    proof {
        lemma_nibbles(x);
        lemma_tables(x);
    }
    byte_of_row(SBOX[(x >> 4) as usize], x & 0x0f)
}

/// The inverse substitution of `x`, read from the table.
pub fn inv_substitute(x: u8) -> (y: u8)
    ensures
        y == inv_sub_byte(x),
{
    proof {
        lemma_nibbles(x);
        lemma_tables(x);
    }
    byte_of_row(INV_SBOX[(x >> 4) as usize], x & 0x0f)
}

} // verus!
