//! Arithmetic in GF(2^8), the field of bytes taken as polynomials over GF(2)
//! modulo `x^8 + x^4 + x^3 + x + 1`. Addition in the field is `^`.

use vstd::prelude::*;

verus! {

/// Multiplication by the polynomial `x`: a shift to the left, reduced by the
/// field polynomial when the top bit falls out.
pub open spec fn xtime(a: u8) -> u8 {
    if a & 0x80 == 0x80 {
        (a << 1) ^ 0x1b
    } else {
        a << 1
    }
}

/// `v` where the bit `mask` of `b` is set, zero elsewhere.
pub open spec fn term(b: u8, mask: u8, v: u8) -> u8 {
    if b & mask == mask {
        v
    } else {
        0
    }
}

/// The product of `a` and `b` in the field: the sum of `a * x^i` over the
/// bits `i` that are set in `b`.
pub open spec fn gmul(a: u8, b: u8) -> u8 {
    let a1 = xtime(a);
    let a2 = xtime(a1);
    let a3 = xtime(a2);
    let a4 = xtime(a3);
    let a5 = xtime(a4);
    let a6 = xtime(a5);
    let a7 = xtime(a6);
    term(b, 0x01, a) ^ term(b, 0x02, a1) ^ term(b, 0x04, a2) ^ term(b, 0x08, a3) ^ term(
        b,
        0x10,
        a4,
    ) ^ term(b, 0x20, a5) ^ term(b, 0x40, a6) ^ term(b, 0x80, a7)
}

/// The multiplicative inverse of `a` in the field, with zero mapped to zero.
pub open spec fn ginv(a: u8) -> u8 {
    if a == 0 {
        0
    } else {
        choose|b: u8| gmul(a, b) == 1
    }
}

/// One byte of a column multiplied by the matrix of rows `02 03 01 01`,
/// each row the one above it turned by one place.
pub open spec fn mix_byte(a0: u8, a1: u8, a2: u8, a3: u8) -> u8 {
    gmul(0x02, a0) ^ gmul(0x03, a1) ^ a2 ^ a3
}

/// One byte of a column multiplied by the inverse matrix, of rows
/// `0e 0b 0d 09`.
pub open spec fn inv_mix_byte(b0: u8, b1: u8, b2: u8, b3: u8) -> u8 {
    gmul(0x0e, b0) ^ gmul(0x0b, b1) ^ gmul(0x0d, b2) ^ gmul(0x09, b3)
}

/// Products with the constants of the two matrices, written with `xtime`.
pub proof fn lemma_gmul_by_constant(a: u8)
    by (bit_vector)
    ensures
        gmul(0x02, a) == xtime(a),
        gmul(0x03, a) == xtime(a) ^ a,
        gmul(0x09, a) == xtime(xtime(xtime(a))) ^ a,
        gmul(0x0b, a) == xtime(xtime(xtime(a))) ^ xtime(a) ^ a,
        gmul(0x0d, a) == xtime(xtime(xtime(a))) ^ xtime(xtime(a)) ^ a,
        gmul(0x0e, a) == xtime(xtime(xtime(a))) ^ xtime(xtime(a)) ^ xtime(a),
{
}

/// Multiplication by a constant of the inverse matrix distributes over a
/// sum of four.
proof fn lemma_gmul_distributes(p: u8, q: u8, r: u8, s: u8)
    by (bit_vector)
    ensures
        gmul(0x0e, p ^ q ^ r ^ s) == gmul(0x0e, p) ^ gmul(0x0e, q) ^ gmul(0x0e, r) ^ gmul(0x0e, s),
        gmul(0x0b, p ^ q ^ r ^ s) == gmul(0x0b, p) ^ gmul(0x0b, q) ^ gmul(0x0b, r) ^ gmul(0x0b, s),
        gmul(0x0d, p ^ q ^ r ^ s) == gmul(0x0d, p) ^ gmul(0x0d, q) ^ gmul(0x0d, r) ^ gmul(0x0d, s),
        gmul(0x09, p ^ q ^ r ^ s) == gmul(0x09, p) ^ gmul(0x09, q) ^ gmul(0x09, r) ^ gmul(0x09, s),
{
}

/// The product of the inverse matrix with the forward matrix is the
/// identity: its first row, entry by entry.
proof fn lemma_matrix_product(a: u8)
    by (bit_vector)
    ensures
        gmul(0x0e, gmul(0x02, a)) ^ gmul(0x0b, a) ^ gmul(0x0d, a) ^ gmul(0x09, gmul(0x03, a)) == a,
        gmul(0x0e, gmul(0x03, a)) ^ gmul(0x0b, gmul(0x02, a)) ^ gmul(0x0d, a) ^ gmul(0x09, a) == 0,
        gmul(0x0e, a) ^ gmul(0x0b, gmul(0x03, a)) ^ gmul(0x0d, gmul(0x02, a)) ^ gmul(0x09, a) == 0,
        gmul(0x0e, a) ^ gmul(0x0b, a) ^ gmul(0x0d, gmul(0x03, a)) ^ gmul(0x09, gmul(0x02, a)) == 0,
{
}

/// Sixteen terms in four sums of four, brought together variable by
/// variable.
proof fn lemma_regroup(
    e0: u8,
    e1: u8,
    e2: u8,
    e3: u8,
    b0: u8,
    b1: u8,
    b2: u8,
    b3: u8,
    d0: u8,
    d1: u8,
    d2: u8,
    d3: u8,
    n0: u8,
    n1: u8,
    n2: u8,
    n3: u8,
)
    by (bit_vector)
    ensures
        (e0 ^ e1 ^ e2 ^ e3) ^ (b1 ^ b2 ^ b3 ^ b0) ^ (d2 ^ d3 ^ d0 ^ d1) ^ (n3 ^ n0 ^ n1 ^ n2) == (e0
            ^ b0 ^ d0 ^ n0) ^ (e1 ^ b1 ^ d1 ^ n1) ^ (e2 ^ b2 ^ d2 ^ n2) ^ (e3 ^ b3 ^ d3 ^ n3),
{
}

/// What `^` is as the addition of the field: zero is neutral, and every
/// byte is its own opposite.
pub proof fn lemma_xor(a: u8, b: u8)
    by (bit_vector)
    ensures
        a ^ 0 == a,
        (a ^ b) ^ b == a,
{
}

/// The inverse matrix undoes the forward matrix: from the four bytes of a
/// mixed column, taken in turn from any row on, the byte of that row comes
/// back.
pub proof fn lemma_inv_mix_byte(x0: u8, x1: u8, x2: u8, x3: u8)
    ensures
        inv_mix_byte(
            mix_byte(x0, x1, x2, x3),
            mix_byte(x1, x2, x3, x0),
            mix_byte(x2, x3, x0, x1),
            mix_byte(x3, x0, x1, x2),
        ) == x0,
{
    lemma_gmul_distributes(gmul(0x02, x0), gmul(0x03, x1), x2, x3);
    lemma_gmul_distributes(gmul(0x02, x1), gmul(0x03, x2), x3, x0);
    lemma_gmul_distributes(gmul(0x02, x2), gmul(0x03, x3), x0, x1);
    lemma_gmul_distributes(gmul(0x02, x3), gmul(0x03, x0), x1, x2);
    lemma_regroup(
        gmul(0x0e, gmul(0x02, x0)),
        gmul(0x0e, gmul(0x03, x1)),
        gmul(0x0e, x2),
        gmul(0x0e, x3),
        gmul(0x0b, x0),
        gmul(0x0b, gmul(0x02, x1)),
        gmul(0x0b, gmul(0x03, x2)),
        gmul(0x0b, x3),
        gmul(0x0d, x0),
        gmul(0x0d, x1),
        gmul(0x0d, gmul(0x02, x2)),
        gmul(0x0d, gmul(0x03, x3)),
        gmul(0x09, gmul(0x03, x0)),
        gmul(0x09, x1),
        gmul(0x09, x2),
        gmul(0x09, gmul(0x02, x3)),
    );
    lemma_matrix_product(x0);
    lemma_matrix_product(x1);
    lemma_matrix_product(x2);
    lemma_matrix_product(x3);
    lemma_xor(x0, 0);
}

/// The product of `a` with `x` in the field.
pub fn times_x(a: u8) -> (r: u8)
    ensures
        r == xtime(a),
{
    if a & 0x80 == 0x80 {
        (a << 1) ^ 0x1b
    } else {
        a << 1
    }
}

/// One byte of a mixed column, from the four bytes of the column taken in
/// turn from the row of that byte on.
pub fn mix(a0: u8, a1: u8, a2: u8, a3: u8) -> (r: u8)
    ensures
        r == mix_byte(a0, a1, a2, a3),
{
    proof {
        lemma_gmul_by_constant(a0);
        lemma_gmul_by_constant(a1);
    }
    times_x(a0) ^ (times_x(a1) ^ a1) ^ a2 ^ a3
}

/// The products of `b` with `0e`, `0b`, `0d` and `09`.
fn inverse_products(b: u8) -> (r: (u8, u8, u8, u8))
    ensures
        r.0 == gmul(0x0e, b),
        r.1 == gmul(0x0b, b),
        r.2 == gmul(0x0d, b),
        r.3 == gmul(0x09, b),
{
    proof {
        lemma_gmul_by_constant(b);
    }
    let b2 = times_x(b);
    let b4 = times_x(b2);
    let b8 = times_x(b4);
    (b8 ^ b4 ^ b2, b8 ^ b2 ^ b, b8 ^ b4 ^ b, b8 ^ b)
}

/// One byte of a column with the mixing undone, from the four bytes of the
/// mixed column taken in turn from the row of that byte on.
pub fn inv_mix(b0: u8, b1: u8, b2: u8, b3: u8) -> (r: u8)
    ensures
        r == inv_mix_byte(b0, b1, b2, b3),
{
    let p0 = inverse_products(b0);
    let p1 = inverse_products(b1);
    let p2 = inverse_products(b2);
    let p3 = inverse_products(b3);
    p0.0 ^ p1.1 ^ p2.2 ^ p3.3
}

} // verus!
