//! The message authentication code as mathematics: the cipher chained over
//! the blocks of a message, with the last block set apart by one of two
//! subkeys.

use crate::rijndael::{cipher, xor_block, zero_block};
use vstd::prelude::*;

verus! {

/// A block doubled in GF(2^128): shifted to the left by one bit, and reduced
/// by `87` in the last byte when the top bit falls out.
pub open spec fn double(b: Seq<u8>) -> Seq<u8> {
    Seq::new(
        16,
        |i: int|
            if i < 15 {
                (b[i] << 1) | (b[i + 1] >> 7)
            } else if b[0] & 0x80 == 0x80 {
                (b[15] << 1) ^ 0x87
            } else {
                b[15] << 1
            },
    )
}

/// The subkey for a last block that is complete.
pub open spec fn subkey1(key: Seq<u8>) -> Seq<u8> {
    double(cipher(key, zero_block()))
}

/// The subkey for a last block that had to be padded.
pub open spec fn subkey2(key: Seq<u8>) -> Seq<u8> {
    double(subkey1(key))
}

/// Fewer than sixteen bytes made into a block: the bytes, one byte `80`,
/// then zeros.
pub open spec fn pad(tail: Seq<u8>) -> Seq<u8> {
    Seq::new(
        16,
        |i: int|
            if i < tail.len() {
                tail[i]
            } else if i == tail.len() {
                0x80u8
            } else {
                0u8
            },
    )
}

/// Of a message of `len` bytes, the bytes that lie before its last block.
/// The last block of a message that is not empty has from one to sixteen
/// bytes.
pub open spec fn head_len(len: nat) -> nat {
    if len == 0 {
        0
    } else {
        ((len - 1) / 16 * 16) as nat
    }
}

/// The chain value after the complete blocks `blocks`: zero before the first
/// block, and after each block the encryption of the sum of the block and
/// the value before it.
pub open spec fn chain(key: Seq<u8>, blocks: Seq<u8>) -> Seq<u8>
    decreases blocks.len(),
{
    if blocks.len() < 16 {
        zero_block()
    } else {
        let before = blocks.subrange(0, blocks.len() - 16);
        let block = blocks.subrange(blocks.len() - 16, blocks.len() as int);
        cipher(key, xor_block(chain(key, before), block))
    }
}

/// The last block of a message, ready for the chain: a complete block added
/// to the first subkey, any other padded and added to the second.
pub open spec fn last_block(key: Seq<u8>, tail: Seq<u8>) -> Seq<u8> {
    if tail.len() == 16 {
        xor_block(tail, subkey1(key))
    } else {
        xor_block(pad(tail), subkey2(key))
    }
}

/// The tag of `message` under `key`.
pub open spec fn aes_cmac(key: Seq<u8>, message: Seq<u8>) -> Seq<u8> {
    let head = head_len(message.len()) as int;
    cipher(
        key,
        xor_block(
            last_block(key, message.subrange(head, message.len() as int)),
            chain(key, message.subrange(0, head)),
        ),
    )
}

/// The tag of the empty message: the encryption of the padding block added
/// to the second subkey.
pub proof fn lemma_tag_of_nothing(key: Seq<u8>)
    ensures
        aes_cmac(key, Seq::empty()) == cipher(
            key,
            xor_block(xor_block(pad(Seq::empty()), subkey2(key)), zero_block()),
        ),
        pad(Seq::empty())[0] == 0x80,
        forall|i: int| 1 <= i < 16 ==> pad(Seq::<u8>::empty())[i] == 0,
{
    let m = Seq::<u8>::empty();
    assert(m.subrange(0, 0) =~= m);
}

/// The tag of a message of one complete block: the block is added to the
/// first subkey, and nothing is padded.
pub proof fn lemma_tag_of_one_block(key: Seq<u8>, message: Seq<u8>)
    requires
        message.len() == 16,
    ensures
        aes_cmac(key, message) == cipher(
            key,
            xor_block(xor_block(message, subkey1(key)), zero_block()),
        ),
{
    assert(message.subrange(0, 16) =~= message);
}

/// The tag of a message of seventeen bytes: the first sixteen go through the
/// chain, and the last one is padded and added to the second subkey.
pub proof fn lemma_tag_of_block_and_byte(key: Seq<u8>, message: Seq<u8>)
    requires
        message.len() == 17,
    ensures
        aes_cmac(key, message) == cipher(
            key,
            xor_block(
                xor_block(pad(seq![message[16]]), subkey2(key)),
                cipher(key, xor_block(zero_block(), message.subrange(0, 16))),
            ),
        ),
{
    let first = message.subrange(0, 16);
    assert(message.subrange(16, 17) =~= seq![message[16]]);
    assert(first.subrange(0, 0).len() == 0);
    assert(first.subrange(0, 16) =~= first);
    assert(chain(key, first) == cipher(key, xor_block(chain(key, first.subrange(0, 0)), first)));
}

} // verus!
