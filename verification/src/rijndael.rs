//! The block cipher as mathematics: the state as sixteen bytes, column after
//! column, the four transformations of a round, the expansion of the key,
//! the cipher and the inverse cipher.

use crate::gf256::{inv_mix_byte, lemma_inv_mix_byte, lemma_xor, mix_byte, xtime};
use crate::sbox::{inv_sub_byte, lemma_inv_sub_byte, sub_byte};
use vstd::prelude::*;

verus! {

/// The sum of two blocks, byte by byte.
pub open spec fn xor_block(a: Seq<u8>, b: Seq<u8>) -> Seq<u8> {
    Seq::new(16, |i: int| a[i] ^ b[i])
}

/// The block of sixteen zero bytes.
pub open spec fn zero_block() -> Seq<u8> {
    Seq::new(16, |i: int| 0u8)
}

/// The round key added to the state.
pub open spec fn add_round_key(s: Seq<u8>, k: Seq<u8>) -> Seq<u8> {
    xor_block(s, k)
}

/// Every byte of the state substituted.
pub open spec fn sub_bytes(s: Seq<u8>) -> Seq<u8> {
    Seq::new(16, |i: int| sub_byte(s[i]))
}

/// Every byte of the state substituted back.
pub open spec fn inv_sub_bytes(s: Seq<u8>) -> Seq<u8> {
    Seq::new(16, |i: int| inv_sub_byte(s[i]))
}

/// Row `r` of the state turned to the left by `r` places. Byte `i` lies in
/// row `i % 4`, and the byte `4` further on lies one column to the right.
pub open spec fn shift_rows(s: Seq<u8>) -> Seq<u8> {
    Seq::new(16, |i: int| s[(i + 4 * (i % 4)) % 16])
}

/// Row `r` of the state turned to the right by `r` places.
pub open spec fn inv_shift_rows(s: Seq<u8>) -> Seq<u8> {
    Seq::new(16, |i: int| s[(i + 12 * (i % 4)) % 16])
}

/// Byte `r + k`, rows counted cyclically, of the column that holds byte `i`.
pub open spec fn column_byte(s: Seq<u8>, i: int, k: int) -> u8 {
    s[4 * (i / 4) + (i % 4 + k) % 4]
}

/// Every column of the state multiplied by the matrix of the cipher.
pub open spec fn mix_columns(s: Seq<u8>) -> Seq<u8> {
    Seq::new(
        16,
        |i: int|
            mix_byte(
                column_byte(s, i, 0),
                column_byte(s, i, 1),
                column_byte(s, i, 2),
                column_byte(s, i, 3),
            ),
    )
}

/// Every column of the state multiplied by the inverse matrix.
pub open spec fn inv_mix_columns(s: Seq<u8>) -> Seq<u8> {
    Seq::new(
        16,
        |i: int|
            inv_mix_byte(
                column_byte(s, i, 0),
                column_byte(s, i, 1),
                column_byte(s, i, 2),
                column_byte(s, i, 3),
            ),
    )
}

/// The round constant of round `j`, from 1 on: `x^(j-1)` in the field.
pub open spec fn rcon(j: nat) -> u8
    decreases j,
{
    if j <= 1 {
        0x01
    } else {
        xtime(rcon((j - 1) as nat))
    }
}

/// A word turned to the left by one byte.
pub open spec fn rot_word(w: Seq<u8>) -> Seq<u8> {
    seq![w[1], w[2], w[3], w[0]]
}

/// Every byte of a word substituted.
pub open spec fn sub_word(w: Seq<u8>) -> Seq<u8> {
    seq![sub_byte(w[0]), sub_byte(w[1]), sub_byte(w[2]), sub_byte(w[3])]
}

/// The sum of two words.
pub open spec fn xor_word(a: Seq<u8>, b: Seq<u8>) -> Seq<u8> {
    seq![a[0] ^ b[0], a[1] ^ b[1], a[2] ^ b[2], a[3] ^ b[3]]
}

/// Word `i` of the expanded key, a word being four bytes. The first four
/// words are the key. Each later word is the sum of the word four places
/// back and the word before it, which for the first word of a round key is
/// first turned, substituted and added to the round constant.
pub open spec fn key_word(key: Seq<u8>, i: nat) -> Seq<u8>
    decreases i,
{
    if i < 4 {
        key.subrange(4 * i as int, 4 * i as int + 4)
    } else if i % 4 == 0 {
        xor_word(
            key_word(key, (i - 4) as nat),
            xor_word(sub_word(rot_word(key_word(key, (i - 1) as nat))), seq![rcon(i / 4), 0, 0, 0]),
        )
    } else {
        xor_word(key_word(key, (i - 4) as nat), key_word(key, (i - 1) as nat))
    }
}

/// The expanded key: forty-four words, byte after byte.
#[verifier::opaque]
pub open spec fn expanded_key(key: Seq<u8>) -> Seq<u8> {
    Seq::new(176, |i: int| key_word(key, (i / 4) as nat)[i % 4])
}

/// The key of round `r`, from 0 to 10: four words of the expanded key.
pub open spec fn round_key(key: Seq<u8>, r: nat) -> Seq<u8> {
    expanded_key(key).subrange(16 * r as int, 16 * r as int + 16)
}

/// One full round on the state.
pub open spec fn round(s: Seq<u8>, k: Seq<u8>) -> Seq<u8> {
    add_round_key(mix_columns(shift_rows(sub_bytes(s))), k)
}

/// The last round, which mixes no columns.
pub open spec fn final_round(s: Seq<u8>, k: Seq<u8>) -> Seq<u8> {
    add_round_key(shift_rows(sub_bytes(s)), k)
}

/// The state after the first key addition and `n` full rounds.
pub open spec fn cipher_rounds(key: Seq<u8>, input: Seq<u8>, n: nat) -> Seq<u8>
    decreases n,
{
    if n == 0 {
        add_round_key(input, round_key(key, 0))
    } else {
        round(cipher_rounds(key, input, (n - 1) as nat), round_key(key, n))
    }
}

/// The encryption of one block under a key of sixteen bytes.
pub open spec fn cipher(key: Seq<u8>, input: Seq<u8>) -> Seq<u8> {
    final_round(cipher_rounds(key, input, 9), round_key(key, 10))
}

/// One full round of the inverse cipher on the state.
pub open spec fn inv_round(s: Seq<u8>, k: Seq<u8>) -> Seq<u8> {
    inv_mix_columns(add_round_key(inv_sub_bytes(inv_shift_rows(s)), k))
}

/// The last round of the inverse cipher.
pub open spec fn inv_final_round(s: Seq<u8>, k: Seq<u8>) -> Seq<u8> {
    add_round_key(inv_sub_bytes(inv_shift_rows(s)), k)
}

/// The state after the first key addition of the inverse cipher and `n` of
/// its full rounds, which take the round keys from the last one down.
pub open spec fn inv_cipher_rounds(key: Seq<u8>, input: Seq<u8>, n: nat) -> Seq<u8>
    decreases n,
{
    if n == 0 {
        add_round_key(input, round_key(key, 10))
    } else {
        inv_round(inv_cipher_rounds(key, input, (n - 1) as nat), round_key(key, (10 - n) as nat))
    }
}

/// The decryption of one block under a key of sixteen bytes.
pub open spec fn inv_cipher(key: Seq<u8>, input: Seq<u8>) -> Seq<u8> {
    inv_final_round(inv_cipher_rounds(key, input, 9), round_key(key, 0))
}

/// The expanded key has 176 bytes, and the first sixteen are the key.
pub proof fn lemma_expanded_key_start(key: Seq<u8>)
    requires
        key.len() == 16,
    ensures
        expanded_key(key).len() == 176,
        expanded_key(key).subrange(0, 16) == key,
{
    reveal(expanded_key);
    assert(expanded_key(key).subrange(0, 16) =~= key);
}

/// The first word of round key `r`, from 1 on: the first word of the round
/// key before, added to the last word of that round key turned, substituted
/// and added to the round constant.
pub proof fn lemma_round_key_first_word(key: Seq<u8>, r: int)
    requires
        1 <= r <= 10,
    ensures
        ({
            let e = expanded_key(key);
            &&& e[16 * r] == e[16 * r - 16] ^ (sub_byte(e[16 * r - 3]) ^ rcon(r as nat))
            &&& e[16 * r + 1] == e[16 * r - 15] ^ (sub_byte(e[16 * r - 2]) ^ 0)
            &&& e[16 * r + 2] == e[16 * r - 14] ^ (sub_byte(e[16 * r - 1]) ^ 0)
            &&& e[16 * r + 3] == e[16 * r - 13] ^ (sub_byte(e[16 * r - 4]) ^ 0)
        }),
{
    reveal(expanded_key);
    let w = (4 * r) as nat;
    assert(w % 4 == 0 && w / 4 == r);
    let back = key_word(key, (w - 4) as nat);
    let before = key_word(key, (w - 1) as nat);
    let e = expanded_key(key);
    assert((16 * r) / 4 == w && (16 * r + 1) / 4 == w && (16 * r + 2) / 4 == w && (16 * r + 3) / 4
        == w);
    assert((16 * r - 16) / 4 == w - 4 && (16 * r - 15) / 4 == w - 4 && (16 * r - 14) / 4 == w - 4
        && (16 * r - 13) / 4 == w - 4);
    assert((16 * r - 4) / 4 == w - 1 && (16 * r - 3) / 4 == w - 1 && (16 * r - 2) / 4 == w - 1 && (
    16 * r - 1) / 4 == w - 1);
    assert(e[16 * r - 4] == before[0] && e[16 * r - 3] == before[1] && e[16 * r - 2] == before[2]
        && e[16 * r - 1] == before[3]);
    assert(e[16 * r - 16] == back[0] && e[16 * r - 15] == back[1] && e[16 * r - 14] == back[2]
        && e[16 * r - 13] == back[3]);
}

/// Byte `b`, from 4 on, of round key `r`, from 1 on: the sum of the byte
/// sixteen places back and the byte four places back.
pub proof fn lemma_round_key_later_words(key: Seq<u8>, r: int, b: int)
    requires
        1 <= r <= 10,
        4 <= b < 16,
    ensures
        expanded_key(key)[16 * r + b] == expanded_key(key)[16 * r + b - 16] ^ expanded_key(
            key,
        )[16 * r + b - 4],
{
    reveal(expanded_key);
    let i = 16 * r + b;
    let w = (i / 4) as nat;
    assert(w == 4 * r + b / 4);
    assert(w % 4 == b / 4);
    assert((i - 16) / 4 == w - 4 && (i - 16) % 4 == i % 4);
    assert((i - 4) / 4 == w - 1 && (i - 4) % 4 == i % 4);
}

/// Adding the same block twice changes nothing.
pub proof fn lemma_xor_block_twice(s: Seq<u8>, k: Seq<u8>)
    requires
        s.len() == 16,
    ensures
        xor_block(xor_block(s, k), k) == s,
{
    assert forall|i: int| 0 <= i < 16 implies #[trigger] xor_block(xor_block(s, k), k)[i]
        == s[i] by {
        lemma_xor(s[i], k[i]);
    }
}

/// The inverse substitution undoes the substitution of a state.
pub proof fn lemma_inv_sub_bytes(s: Seq<u8>)
    requires
        s.len() == 16,
    ensures
        inv_sub_bytes(sub_bytes(s)) == s,
{
    assert forall|i: int| 0 <= i < 16 implies #[trigger] inv_sub_bytes(sub_bytes(s))[i]
        == s[i] by {
        lemma_inv_sub_byte(s[i]);
    }
}

/// Turning the rows back undoes turning them.
pub proof fn lemma_inv_shift_rows(s: Seq<u8>)
    requires
        s.len() == 16,
    ensures
        inv_shift_rows(shift_rows(s)) == s,
{
    assert forall|i: int| 0 <= i < 16 implies #[trigger] inv_shift_rows(shift_rows(s))[i]
        == s[i] by {
        let j = (i + 12 * (i % 4)) % 16;
        assert(j % 4 == i % 4);
        assert((j + 4 * (j % 4)) % 16 == i);
    }
}

/// Byte `k` of a mixed column, counted from the row of byte `i`, is made of
/// the four bytes of the column from that place on.
proof fn lemma_mixed_column_byte(s: Seq<u8>, i: int, k: int)
    requires
        0 <= i < 16,
        0 <= k < 4,
    ensures
        column_byte(mix_columns(s), i, k) == mix_byte(
            column_byte(s, i, k),
            column_byte(s, i, k + 1),
            column_byte(s, i, k + 2),
            column_byte(s, i, k + 3),
        ),
{
    let c = i / 4;
    let r = (i % 4 + k) % 4;
    let j = 4 * c + r;
    assert(j / 4 == c && j % 4 == r);
    assert((r + 0) % 4 == (i % 4 + k) % 4);
    assert((r + 1) % 4 == (i % 4 + (k + 1)) % 4);
    assert((r + 2) % 4 == (i % 4 + (k + 2)) % 4);
    assert((r + 3) % 4 == (i % 4 + (k + 3)) % 4);
    assert(mix_columns(s)[j] == mix_byte(
        column_byte(s, j, 0),
        column_byte(s, j, 1),
        column_byte(s, j, 2),
        column_byte(s, j, 3),
    ));
}

/// The inverse matrix undoes the mixing of the columns.
pub proof fn lemma_inv_mix_columns(s: Seq<u8>)
    requires
        s.len() == 16,
    ensures
        inv_mix_columns(mix_columns(s)) == s,
{
    let m = mix_columns(s);
    assert forall|i: int| 0 <= i < 16 implies #[trigger] inv_mix_columns(m)[i] == s[i] by {
        lemma_mixed_column_byte(s, i, 0);
        lemma_mixed_column_byte(s, i, 1);
        lemma_mixed_column_byte(s, i, 2);
        lemma_mixed_column_byte(s, i, 3);
        let x0 = column_byte(s, i, 0);
        let x1 = column_byte(s, i, 1);
        let x2 = column_byte(s, i, 2);
        let x3 = column_byte(s, i, 3);
        assert(column_byte(s, i, 4) == x0);
        assert(column_byte(s, i, 5) == x1);
        assert(column_byte(s, i, 6) == x2);
        assert(x0 == s[i]);
        lemma_inv_mix_byte(x0, x1, x2, x3);
    }
}

/// After `n` full rounds, the inverse cipher on a ciphertext has come back
/// to the state that the cipher held before the key addition of its round
/// `10 - n`.
proof fn lemma_inv_rounds(key: Seq<u8>, input: Seq<u8>, n: nat)
    requires
        n <= 9,
    ensures
        inv_cipher_rounds(key, cipher(key, input), n) == shift_rows(
            sub_bytes(cipher_rounds(key, input, (9 - n) as nat)),
        ),
    decreases n,
{
    if n == 0 {
        lemma_xor_block_twice(shift_rows(sub_bytes(cipher_rounds(key, input, 9))), round_key(key, 10));
    } else {
        lemma_inv_rounds(key, input, (n - 1) as nat);
        let k = round_key(key, (10 - n) as nat);
        let before = cipher_rounds(key, input, (9 - n) as nat);
        let after = cipher_rounds(key, input, (10 - n) as nat);
        let mixed = mix_columns(shift_rows(sub_bytes(before)));
        assert(after == add_round_key(mixed, k));
        lemma_inv_shift_rows(sub_bytes(after));
        lemma_inv_sub_bytes(after);
        lemma_xor_block_twice(mixed, k);
        lemma_inv_mix_columns(shift_rows(sub_bytes(before)));
    }
}

/// Decryption undoes encryption: under any key, the inverse cipher gives
/// back the block that the cipher was given.
pub proof fn lemma_inv_cipher_of_cipher(key: Seq<u8>, input: Seq<u8>)
    requires
        input.len() == 16,
    ensures
        inv_cipher(key, cipher(key, input)) == input,
{
    lemma_inv_rounds(key, input, 9);
    let first = cipher_rounds(key, input, 0);
    lemma_inv_shift_rows(sub_bytes(first));
    lemma_inv_sub_bytes(first);
    lemma_xor_block_twice(input, round_key(key, 0));
}

} // verus!
