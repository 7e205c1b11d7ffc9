use lorawan_crypto::{Cmac, MacError, MAX_INPUT_LEN};

const KEY: [u8; 16] = [
    0x2b, 0x7e, 0x15, 0x16, 0x28, 0xae, 0xd2, 0xa6, 0xab, 0xf7, 0x15, 0x88, 0x09, 0xcf, 0x4f, 0x3c,
];

const MESSAGE: [u8; 64] = [
    0x6b, 0xc1, 0xbe, 0xe2, 0x2e, 0x40, 0x9f, 0x96, 0xe9, 0x3d, 0x7e, 0x11, 0x73, 0x93, 0x17, 0x2a,
    0xae, 0x2d, 0x8a, 0x57, 0x1e, 0x03, 0xac, 0x9c, 0x9e, 0xb7, 0x6f, 0xac, 0x45, 0xaf, 0x8e, 0x51,
    0x30, 0xc8, 0x1c, 0x46, 0xa3, 0x5c, 0xe4, 0x11, 0xe5, 0xfb, 0xc1, 0x19, 0x1a, 0x0a, 0x52, 0xef,
    0xf6, 0x9f, 0x24, 0x45, 0xdf, 0x4f, 0x9b, 0x17, 0xad, 0x2b, 0x41, 0x7b, 0xe6, 0x6c, 0x37, 0x10,
];

fn tag_of(key: [u8; 16], message: &[u8]) -> [u8; 16] {
    let mut mac = Cmac::new(key);
    mac.input(message).unwrap();
    mac.result()
}

#[test]
fn tag_of_the_empty_message() {
    assert_eq!(
        Cmac::new(KEY).result(),
        [
            0xbb, 0x1d, 0x69, 0x29, 0xe9, 0x59, 0x37, 0x28, 0x7f, 0xa3, 0x7d, 0x12, 0x9b, 0x75,
            0x67, 0x46
        ]
    );
    assert_eq!(tag_of(KEY, &[]), Cmac::new(KEY).result());
}

#[test]
fn tag_of_one_block() {
    assert_eq!(
        tag_of(KEY, &MESSAGE[..16]),
        [
            0x07, 0x0a, 0x16, 0xb4, 0x6b, 0x4d, 0x41, 0x44, 0xf7, 0x9b, 0xdd, 0x9d, 0xd0, 0x4a,
            0x28, 0x7c
        ]
    );
}

#[test]
fn tag_of_twenty_bytes() {
    assert_eq!(
        tag_of(KEY, &MESSAGE[..20]),
        [
            0x7d, 0x85, 0x44, 0x9e, 0xa6, 0xea, 0x19, 0xc8, 0x23, 0xa7, 0xbf, 0x78, 0x83, 0x7d,
            0xfa, 0xde
        ]
    );
}

#[test]
fn tag_of_forty_bytes() {
    assert_eq!(
        tag_of(KEY, &MESSAGE[..40]),
        [
            0xdf, 0xa6, 0x67, 0x47, 0xde, 0x9a, 0xe6, 0x30, 0x30, 0xca, 0x32, 0x61, 0x14, 0x97,
            0xc8, 0x27
        ]
    );
}

#[test]
fn tag_of_four_blocks() {
    assert_eq!(
        tag_of(KEY, &MESSAGE),
        [
            0x51, 0xf0, 0xbe, 0xbf, 0x7e, 0x3b, 0x9d, 0x92, 0xfc, 0x49, 0x74, 0x17, 0x79, 0x36,
            0x3c, 0xfe
        ]
    );
}

#[test]
fn chunks_give_the_tag_of_the_whole() {
    for len in [0usize, 1, 15, 16, 17, 31, 32, 33, 48, 64] {
        let whole = tag_of(KEY, &MESSAGE[..len]);
        for cut in 0..=len {
            let mut mac = Cmac::new(KEY);
            mac.input(&MESSAGE[..cut]).unwrap();
            mac.input(&MESSAGE[cut..len]).unwrap();
            assert_eq!(mac.result(), whole);
        }
        let mut mac = Cmac::new(KEY);
        for byte in &MESSAGE[..len] {
            mac.input(&[*byte]).unwrap();
        }
        assert_eq!(mac.result(), whole);
    }
}

#[test]
fn three_uneven_chunks_give_the_tag_of_the_whole() {
    let mut mac = Cmac::new(KEY);
    mac.input(&MESSAGE[..5]).unwrap();
    mac.input(&MESSAGE[5..37]).unwrap();
    mac.input(&MESSAGE[37..]).unwrap();
    assert_eq!(mac.result(), tag_of(KEY, &MESSAGE));
}

#[test]
fn reset_gives_a_new_engine() {
    let mut mac = Cmac::new(KEY);
    mac.input(&MESSAGE[..37]).unwrap();
    mac.reset();
    mac.input(&MESSAGE[..20]).unwrap();
    assert_eq!(mac.result(), tag_of(KEY, &MESSAGE[..20]));

    let mut mac = Cmac::new(KEY);
    mac.input(&MESSAGE[..16]).unwrap();
    mac.reset();
    assert_eq!(mac.result(), Cmac::new(KEY).result());

    let mut mac = Cmac::new(KEY);
    mac.reset();
    mac.input(&MESSAGE).unwrap();
    assert_eq!(mac.result(), tag_of(KEY, &MESSAGE));
}

#[test]
fn one_byte_past_a_block_is_padded() {
    assert_eq!(
        tag_of(KEY, &MESSAGE[..17]),
        [
            0xbc, 0x72, 0xcc, 0x16, 0x8e, 0xc5, 0xa1, 0x43, 0x4d, 0xcd, 0xb2, 0x0b, 0xc1, 0xa2,
            0xc2, 0xa4
        ]
    );
    assert_ne!(tag_of(KEY, &MESSAGE[..17]), tag_of(KEY, &MESSAGE[..16]));
}

#[test]
fn padding_is_told_from_data() {
    let mut padded = [0u8; 16];
    padded[0] = 0x80;
    assert_ne!(tag_of(KEY, &padded), tag_of(KEY, &[]));
    let mut padded = [0u8; 16];
    padded[..5].copy_from_slice(&MESSAGE[..5]);
    padded[5] = 0x80;
    assert_ne!(tag_of(KEY, &padded), tag_of(KEY, &MESSAGE[..5]));
}

#[test]
fn different_keys_give_different_tags() {
    let mut other = KEY;
    other[15] ^= 0x01;
    for len in [0usize, 16, 20, 64] {
        assert_ne!(tag_of(KEY, &MESSAGE[..len]), tag_of(other, &MESSAGE[..len]));
    }
}

#[test]
fn takes_as_much_as_the_limit() {
    assert_eq!(MAX_INPUT_LEN, 256);
    let data = [0x5au8; 256];
    let mut mac = Cmac::new(KEY);
    assert_eq!(mac.input(&data), Ok(()));
    let mut pieces = Cmac::new(KEY);
    pieces.input(&data[..100]).unwrap();
    pieces.input(&data[100..]).unwrap();
    assert_eq!(mac.result(), pieces.result());
}

#[test]
fn refuses_more_than_the_limit() {
    let data = [0x5au8; 257];
    let mut mac = Cmac::new(KEY);
    assert_eq!(mac.input(&data), Err(MacError::InputTooLong));
    assert_eq!(mac.result(), Cmac::new(KEY).result());

    let mut mac = Cmac::new(KEY);
    mac.input(&MESSAGE[..20]).unwrap();
    assert_eq!(mac.input(&data), Err(MacError::InputTooLong));
    mac.input(&MESSAGE[20..]).unwrap();
    assert_eq!(mac.result(), tag_of(KEY, &MESSAGE));
}

#[test]
fn a_long_message_goes_in_by_pieces() {
    let data = [0xa5u8; 600];
    let mut mac = Cmac::new(KEY);
    mac.input(&data[..256]).unwrap();
    mac.input(&data[256..512]).unwrap();
    mac.input(&data[512..]).unwrap();
    let tag = mac.result();
    let mut bytes = Cmac::new(KEY);
    for byte in data.iter() {
        bytes.input(&[*byte]).unwrap();
    }
    assert_eq!(bytes.result(), tag);
}
