//! The block cipher as code: the key schedule and the encryption and
//! decryption of single blocks.

use crate::gf256::{inv_mix, lemma_xor, mix, times_x};
use crate::rijndael;
use crate::sbox::{inv_sub_byte, inv_substitute, sub_byte, substitute};
use vstd::prelude::*;

verus! {

/// The round keys of the cipher under one key.
#[derive(Clone, Copy)]
pub struct KeySchedule {
    round_keys: [u8; 176],
}

/// The state with round key `round` of the schedule added.
fn add_round_key(state: &mut [u8; 16], schedule: &[u8; 176], round: usize)
    requires
        round <= 10,
    ensures
        final(state)@ == rijndael::add_round_key(
            old(state)@,
            schedule@.subrange(16 * round as int, 16 * round as int + 16),
        ),
{
    let ghost before = state@;
    let ghost k = schedule@.subrange(16 * round as int, 16 * round as int + 16);
    let mut i: usize = 0;
    while i < 16
        invariant
            i <= 16,
            round <= 10,
            k == schedule@.subrange(16 * round as int, 16 * round as int + 16),
            forall|j: int| 0 <= j < i ==> state@[j] == before[j] ^ k[j],
            forall|j: int| i <= j < 16 ==> state@[j] == before[j],
        decreases 16 - i,
    {
        state[i] = state[i] ^ schedule[16 * round + i];
        i += 1;
    }
    assert(state@ =~= rijndael::add_round_key(before, k));
}

/// The state with every byte substituted.
fn sub_bytes(state: &mut [u8; 16])
    ensures
        final(state)@ == rijndael::sub_bytes(old(state)@),
{
    let ghost before = state@;
    let mut i: usize = 0;
    while i < 16
        invariant
            i <= 16,
            forall|j: int| 0 <= j < i ==> state@[j] == sub_byte(before[j]),
            forall|j: int| i <= j < 16 ==> state@[j] == before[j],
        decreases 16 - i,
    {
        state[i] = substitute(state[i]);
        i += 1;
    }
    assert(state@ =~= rijndael::sub_bytes(before));
}

/// The state with every byte substituted back.
fn inv_sub_bytes(state: &mut [u8; 16])
    ensures
        final(state)@ == rijndael::inv_sub_bytes(old(state)@),
{
    let ghost before = state@;
    let mut i: usize = 0;
    while i < 16
        invariant
            i <= 16,
            forall|j: int| 0 <= j < i ==> state@[j] == inv_sub_byte(before[j]),
            forall|j: int| i <= j < 16 ==> state@[j] == before[j],
        decreases 16 - i,
    {
        state[i] = inv_substitute(state[i]);
        i += 1;
    }
    assert(state@ =~= rijndael::inv_sub_bytes(before));
}

/// The state with its rows turned to the left.
fn shift_rows(state: &mut [u8; 16])
    ensures
        final(state)@ == rijndael::shift_rows(old(state)@),
{
    let before = *state;
    let mut i: usize = 0;
    while i < 16
        invariant
            i <= 16,
            forall|j: int| 0 <= j < i ==> state@[j] == before@[(j + 4 * (j % 4)) % 16],
        decreases 16 - i,
    {
        state[i] = before[(i + 4 * (i % 4)) % 16];
        i += 1;
    }
    assert(state@ =~= rijndael::shift_rows(before@));
}

/// The state with its rows turned to the right.
fn inv_shift_rows(state: &mut [u8; 16])
    ensures
        final(state)@ == rijndael::inv_shift_rows(old(state)@),
{
    let before = *state;
    let mut i: usize = 0;
    while i < 16
        invariant
            i <= 16,
            forall|j: int| 0 <= j < i ==> state@[j] == before@[(j + 12 * (j % 4)) % 16],
        decreases 16 - i,
    {
        state[i] = before[(i + 12 * (i % 4)) % 16];
        i += 1;
    }
    assert(state@ =~= rijndael::inv_shift_rows(before@));
}

/// The state with its columns mixed.
fn mix_columns(state: &mut [u8; 16])
    ensures
        final(state)@ == rijndael::mix_columns(old(state)@),
{
    let before = *state;
    let mut i: usize = 0;
    while i < 16
        invariant
            i <= 16,
            forall|j: int| 0 <= j < i ==> state@[j] == rijndael::mix_columns(before@)[j],
        decreases 16 - i,
    {
        let c = 4 * (i / 4);
        let r = i % 4;
        state[i] = mix(
            before[c + r],
            before[c + (r + 1) % 4],
            before[c + (r + 2) % 4],
            before[c + (r + 3) % 4],
        );
        i += 1;
    }
    assert(state@ =~= rijndael::mix_columns(before@));
}

/// The state with the mixing of its columns undone.
fn inv_mix_columns(state: &mut [u8; 16])
    ensures
        final(state)@ == rijndael::inv_mix_columns(old(state)@),
{
    let before = *state;
    let mut i: usize = 0;
    while i < 16
        invariant
            i <= 16,
            forall|j: int| 0 <= j < i ==> state@[j] == rijndael::inv_mix_columns(before@)[j],
        decreases 16 - i,
    {
        let c = 4 * (i / 4);
        let r = i % 4;
        state[i] = inv_mix(
            before[c + r],
            before[c + (r + 1) % 4],
            before[c + (r + 2) % 4],
            before[c + (r + 3) % 4],
        );
        i += 1;
    }
    assert(state@ =~= rijndael::inv_mix_columns(before@));
}

impl KeySchedule {
    /// The key that the schedule was derived from.
    pub closed spec fn key(&self) -> Seq<u8> {
        self.round_keys@.subrange(0, 16)
    }

    /// The eleven round keys, byte after byte.
    pub closed spec fn round_keys(&self) -> Seq<u8> {
        self.round_keys@
    }

    #[verifier::type_invariant]
    spec fn well_formed(&self) -> bool {
        self.round_keys@ == rijndael::expanded_key(self.key())
    }

    /// Expands `key` into the eleven round keys of the cipher.
    pub fn set_key(key: &[u8; 16]) -> (schedule: KeySchedule)
        ensures
            schedule.key() == key@,
            schedule.round_keys() == rijndael::expanded_key(key@),
    {
        let ghost expanded = rijndael::expanded_key(key@);
        proof {
            rijndael::lemma_expanded_key_start(key@);
        }
        let mut w = [0u8; 176];
        let mut i: usize = 0;
        while i < 16
            invariant
                i <= 16,
                expanded.len() == 176,
                expanded.subrange(0, 16) == key@,
                forall|j: int| 0 <= j < i ==> w@[j] == expanded[j],
            decreases 16 - i,
        {
            assert(expanded.subrange(0, 16)[i as int] == expanded[i as int]);
            w[i] = key[i];
            i += 1;
        }
        let mut constant: u8 = 0x01;
        let mut round: usize = 1;
        while round <= 10
            invariant
                1 <= round <= 11,
                constant == rijndael::rcon(round as nat),
                expanded == rijndael::expanded_key(key@),
                expanded.len() == 176,
                forall|j: int| 0 <= j < 16 * round ==> w@[j] == expanded[j],
            decreases 11 - round,
        {
            let base = 16 * round;
            proof {
                rijndael::lemma_round_key_first_word(key@, round as int);
                lemma_xor(sub_byte(w@[base - 2]), 0);
                lemma_xor(sub_byte(w@[base - 1]), 0);
                lemma_xor(sub_byte(w@[base - 4]), 0);
            }
            w[base] = w[base - 16] ^ (substitute(w[base - 3]) ^ constant);
            w[base + 1] = w[base - 15] ^ substitute(w[base - 2]);
            w[base + 2] = w[base - 14] ^ substitute(w[base - 1]);
            w[base + 3] = w[base - 13] ^ substitute(w[base - 4]);
            let mut b: usize = 4;
            while b < 16
                invariant
                    4 <= b <= 16,
                    base == 16 * round,
                    1 <= round <= 10,
                    expanded == rijndael::expanded_key(key@),
                    expanded.len() == 176,
                    forall|k: int| 0 <= k < base + b ==> w@[k] == expanded[k],
                decreases 16 - b,
            {
                proof {
                    rijndael::lemma_round_key_later_words(key@, round as int, b as int);
                }
                w[base + b] = w[base + b - 16] ^ w[base + b - 4];
                b += 1;
            }
            constant = times_x(constant);
            round += 1;
        }
        proof {
            assert(w@ =~= expanded);
        }
        KeySchedule { round_keys: w }
    }

    /// The encryption of one block.
    pub fn encrypt_block(&self, input: &[u8; 16]) -> (output: [u8; 16])
        ensures
            output@ == rijndael::cipher(self.key(), input@),
    {
        proof {
            use_type_invariant(self);
        }
        let ghost key = self.key();
        let mut state = *input;
        add_round_key(&mut state, &self.round_keys, 0);
        let mut round: usize = 1;
        while round < 10
            invariant
                1 <= round <= 10,
                self.round_keys@ == rijndael::expanded_key(key),
                state@ == rijndael::cipher_rounds(key, input@, (round - 1) as nat),
            decreases 10 - round,
        {
            let ghost before = state@;
            sub_bytes(&mut state);
            shift_rows(&mut state);
            mix_columns(&mut state);
            add_round_key(&mut state, &self.round_keys, round);
            assert(state@ == rijndael::round(before, rijndael::round_key(key, round as nat)));
            round += 1;
        }
        sub_bytes(&mut state);
        shift_rows(&mut state);
        add_round_key(&mut state, &self.round_keys, 10);
        state
    }

    /// The decryption of one block.
    pub fn decrypt_block(&self, input: &[u8; 16]) -> (output: [u8; 16])
        ensures
            output@ == rijndael::inv_cipher(self.key(), input@),
    {
        proof {
            use_type_invariant(self);
        }
        let ghost key = self.key();
        let mut state = *input;
        add_round_key(&mut state, &self.round_keys, 10);
        let mut round: usize = 9;
        while round > 0
            invariant
                0 <= round <= 9,
                self.round_keys@ == rijndael::expanded_key(key),
                state@ == rijndael::inv_cipher_rounds(key, input@, (9 - round) as nat),
            decreases round,
        {
            let ghost before = state@;
            inv_shift_rows(&mut state);
            inv_sub_bytes(&mut state);
            add_round_key(&mut state, &self.round_keys, round);
            inv_mix_columns(&mut state);
            assert(state@ == rijndael::inv_round(before, rijndael::round_key(key, round as nat)));
            assert(rijndael::inv_cipher_rounds(key, input@, (10 - round) as nat)
                == rijndael::inv_round(
                rijndael::inv_cipher_rounds(key, input@, (9 - round) as nat),
                rijndael::round_key(key, round as nat),
            ));
            round -= 1;
        }
        inv_shift_rows(&mut state);
        inv_sub_bytes(&mut state);
        add_round_key(&mut state, &self.round_keys, 0);
        state
    }
}

} // verus!
