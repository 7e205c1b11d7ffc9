//! A cipher bound to one key that encrypts and decrypts blocks in place.

use crate::aes::KeySchedule;
use crate::rijndael::{cipher, inv_cipher};
use vstd::prelude::*;

verus! {

/// The block cipher under one key, for both directions.
pub struct EncrypterDecrypter {
    schedule: KeySchedule,
}

impl EncrypterDecrypter {
    /// The key that the cipher is bound to.
    pub closed spec fn key(&self) -> Seq<u8> {
        self.schedule.key()
    }

    /// The cipher under `key`.
    pub fn new(key: [u8; 16]) -> (bound: EncrypterDecrypter)
        ensures
            bound.key() == key@,
    {
        EncrypterDecrypter { schedule: KeySchedule::set_key(&key) }
    }

    /// Puts the encryption of `block` in its place.
    pub fn encrypt_block(&self, block: &mut [u8; 16])
        ensures
            final(block)@ == cipher(self.key(), old(block)@),
    {
        *block = self.schedule.encrypt_block(block);
    }

    /// Puts the decryption of `block` in its place.
    pub fn decrypt_block(&self, block: &mut [u8; 16])
        ensures
            final(block)@ == inv_cipher(self.key(), old(block)@),
    {
        *block = self.schedule.decrypt_block(block);
    }
}

} // verus!
