//! The maker of ciphers and engines, each bound to the key it is made with.

use crate::cmac::{Cmac, MacState};
use crate::encrypter::EncrypterDecrypter;
use vstd::prelude::*;

verus! {

/// Makes encrypters, decrypters and authentication engines.
#[derive(Default)]
pub struct LorawanCrypto;

impl LorawanCrypto {
    /// An encrypter under `key`.
    pub fn new_enc(&self, key: &[u8; 16]) -> (encrypter: EncrypterDecrypter)
        ensures
            encrypter.key() == key@,
    {
        EncrypterDecrypter::new(*key)
    }

    /// A decrypter under `key`.
    pub fn new_dec(&self, key: &[u8; 16]) -> (decrypter: EncrypterDecrypter)
        ensures
            decrypter.key() == key@,
    {
        EncrypterDecrypter::new(*key)
    }

    /// An authentication engine under `key` that has taken nothing yet.
    pub fn new_mac(&self, key: &[u8; 16]) -> (mac: Cmac)
        ensures
            mac@ == MacState::fresh(key@),
    {
        Cmac::new(*key)
    }
}

} // verus!
