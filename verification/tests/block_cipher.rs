use lorawan_crypto::aes::KeySchedule;
use lorawan_crypto::EncrypterDecrypter;

const KEY_B: [u8; 16] = [
    0x2b, 0x7e, 0x15, 0x16, 0x28, 0xae, 0xd2, 0xa6, 0xab, 0xf7, 0x15, 0x88, 0x09, 0xcf, 0x4f, 0x3c,
];
const PLAIN_B: [u8; 16] = [
    0x32, 0x43, 0xf6, 0xa8, 0x88, 0x5a, 0x30, 0x8d, 0x31, 0x31, 0x98, 0xa2, 0xe0, 0x37, 0x07, 0x34,
];
const CIPHER_B: [u8; 16] = [
    0x39, 0x25, 0x84, 0x1d, 0x02, 0xdc, 0x09, 0xfb, 0xdc, 0x11, 0x85, 0x97, 0x19, 0x6a, 0x0b, 0x32,
];
const KEY_C: [u8; 16] = [
    0x00, 0x01, 0x02, 0x03, 0x04, 0x05, 0x06, 0x07, 0x08, 0x09, 0x0a, 0x0b, 0x0c, 0x0d, 0x0e, 0x0f,
];
const PLAIN_C: [u8; 16] = [
    0x00, 0x11, 0x22, 0x33, 0x44, 0x55, 0x66, 0x77, 0x88, 0x99, 0xaa, 0xbb, 0xcc, 0xdd, 0xee, 0xff,
];
const CIPHER_C: [u8; 16] = [
    0x69, 0xc4, 0xe0, 0xd8, 0x6a, 0x7b, 0x04, 0x30, 0xd8, 0xcd, 0xb7, 0x80, 0x70, 0xb4, 0xc5, 0x5a,
];

#[test]
fn encrypts_the_standard_vectors() {
    assert_eq!(KeySchedule::set_key(&KEY_B).encrypt_block(&PLAIN_B), CIPHER_B);
    assert_eq!(KeySchedule::set_key(&KEY_C).encrypt_block(&PLAIN_C), CIPHER_C);
}

#[test]
fn decrypts_the_standard_vectors() {
    assert_eq!(KeySchedule::set_key(&KEY_B).decrypt_block(&CIPHER_B), PLAIN_B);
    assert_eq!(KeySchedule::set_key(&KEY_C).decrypt_block(&CIPHER_C), PLAIN_C);
}

#[test]
fn encrypts_and_decrypts_in_place() {
    let bound = EncrypterDecrypter::new(KEY_C);
    let mut block = PLAIN_C;
    bound.encrypt_block(&mut block);
    assert_eq!(block, CIPHER_C);
    bound.decrypt_block(&mut block);
    assert_eq!(block, PLAIN_C);
}

#[test]
fn encrypts_the_zero_block_under_the_zero_key() {
    let schedule = KeySchedule::set_key(&[0u8; 16]);
    assert_eq!(
        schedule.encrypt_block(&[0u8; 16]),
        [
            0x66, 0xe9, 0x4b, 0xd4, 0xef, 0x8a, 0x2c, 0x3b, 0x88, 0x4c, 0xfa, 0x59, 0xca, 0x34,
            0x2b, 0x2e
        ]
    );
}

#[test]
fn decryption_undoes_encryption() {
    let mut key = [0u8; 16];
    let mut block = [0u8; 16];
    for round in 0..64u32 {
        for i in 0..16 {
            key[i] = (round as u8).wrapping_mul(31).wrapping_add((i as u8).wrapping_mul(17));
            block[i] = (round as u8).wrapping_mul(13) ^ (i as u8).wrapping_mul(29);
        }
        let schedule = KeySchedule::set_key(&key);
        let encrypted = schedule.encrypt_block(&block);
        assert_ne!(encrypted, block);
        assert_eq!(schedule.decrypt_block(&encrypted), block);
        assert_eq!(schedule.encrypt_block(&schedule.decrypt_block(&block)), block);
    }
}

#[test]
fn a_schedule_can_be_used_again() {
    let schedule = KeySchedule::set_key(&KEY_B);
    assert_eq!(schedule.encrypt_block(&PLAIN_B), CIPHER_B);
    assert_eq!(schedule.encrypt_block(&PLAIN_B), CIPHER_B);
    assert_eq!(schedule.decrypt_block(&CIPHER_B), PLAIN_B);
}

#[test]
fn different_keys_give_different_blocks() {
    let one = KeySchedule::set_key(&KEY_B).encrypt_block(&PLAIN_B);
    let other = KeySchedule::set_key(&KEY_C).encrypt_block(&PLAIN_B);
    assert_ne!(one, other);
}
