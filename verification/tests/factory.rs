use generic_array::typenum::U16;
use generic_array::GenericArray;
use lorawan::default_crypto::DefaultFactory;
use lorawan::keys::{CryptoFactory, Encrypter, Mac, AES128};
use lorawan_crypto::LorawanCrypto;

fn get_key() -> AES128 {
    AES128([
        255, 2, 253, 4, 231, 6, 229, 8, 227, 10, 225, 12, 223, 14, 221, 16,
    ])
}

fn get_block() -> GenericArray<u8, U16> {
    GenericArray::clone_from_slice(&[1, 2, 3, 4, 5, 6, 7, 8, 9, 10, 11, 12, 13, 14, 15, 16])
}

fn get_cmac_step1() -> [u8; 34] {
    let mut ret = [0; 34];
    ret[5] = 5;
    ret
}

fn get_cmac_step2() -> [u8; 14] {
    let mut ret = [0; 14];
    ret[3] = 5;
    ret
}

#[test]
fn test_encrypt() {
    let key = get_key();
    let my_block = {
        let encrypter = LorawanCrypto {}.new_enc(&key.0);
        let mut block: [u8; 16] = get_block().into();
        encrypter.encrypt_block(&mut block);
        GenericArray::<u8, U16>::from(block)
    };
    let control_block = {
        let encrypter = DefaultFactory {}.new_enc(&key);
        let mut block = get_block();
        encrypter.encrypt_block(&mut block);
        block
    };
    assert_eq!(my_block, control_block);
}

#[test]
fn test_decrypt() {
    let key = get_key();
    let my_block = {
        let decrypter = LorawanCrypto {}.new_dec(&key.0);
        let mut block: [u8; 16] = get_block().into();
        decrypter.encrypt_block(&mut block);
        GenericArray::<u8, U16>::from(block)
    };
    let control_block = {
        let decrypter = DefaultFactory {}.new_dec(&key);
        let mut block = get_block();
        decrypter.encrypt_block(&mut block);
        block
    };
    assert_eq!(my_block, control_block);
}

#[test]
fn test_cmac() {
    let key = get_key();
    let my_result = {
        let mut mac = LorawanCrypto {}.new_mac(&key.0);
        let mut step = get_cmac_step1();
        mac.input(&mut step).unwrap();
        let mut step = get_cmac_step2();
        mac.input(&mut step).unwrap();
        GenericArray::<u8, U16>::from(mac.result())
    };
    let control_result = {
        let mut mac = DefaultFactory {}.new_mac(&key);
        let mut step = get_cmac_step1();
        mac.input(&mut step);
        let mut step = get_cmac_step2();
        mac.input(&mut step);
        mac.result()
    };
    assert_eq!(my_result, control_result);
}

#[test]
fn decrypter_of_the_factory_matches_the_control() {
    let key = get_key();
    let decrypter = LorawanCrypto::default().new_dec(&key.0);
    let mut block: [u8; 16] = get_block().into();
    decrypter.decrypt_block(&mut block);
    let control = DefaultFactory {}.new_dec(&key);
    let mut control_block = get_block();
    lorawan::keys::Decrypter::decrypt_block(&control, &mut control_block);
    assert_eq!(GenericArray::<u8, U16>::from(block), control_block);
}

#[test]
fn engines_match_the_control_on_every_length_up_to_the_limit() {
    let key = get_key();
    let mut data = [0u8; 256];
    for (i, byte) in data.iter_mut().enumerate() {
        *byte = (i * 7 + 3) as u8;
    }
    for len in 0..=256 {
        let mut mac = LorawanCrypto {}.new_mac(&key.0);
        mac.input(&data[..len]).unwrap();
        let mut control = DefaultFactory {}.new_mac(&key);
        control.input(&data[..len]);
        assert_eq!(GenericArray::<u8, U16>::from(mac.result()), control.result());
    }
}
