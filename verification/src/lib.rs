//! AES-128 on single blocks and the AES-CMAC message authentication code,
//! behind a factory that binds each of them to a key.

pub mod aes;
pub mod cmac;
pub mod encrypter;
pub mod factory;
pub mod gf256;
pub mod omac;
pub mod rijndael;
pub mod sbox;

pub use crate::cmac::{Cmac, MacError, MAX_INPUT_LEN};
pub use crate::encrypter::EncrypterDecrypter;
pub use crate::factory::LorawanCrypto;
