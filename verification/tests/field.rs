use lorawan_crypto::gf256::{inv_mix, mix, times_x};
use lorawan_crypto::sbox::{inv_substitute, substitute};

fn product(a: u8, b: u8) -> u8 {
    let mut sum = 0u8;
    let mut power = a;
    for bit in 0..8 {
        if b & (1 << bit) != 0 {
            sum ^= power;
        }
        power = times_x(power);
    }
    sum
}

#[test]
fn multiplies_by_x() {
    assert_eq!(times_x(0x57), 0xae);
    assert_eq!(times_x(0xae), 0x47);
    assert_eq!(times_x(0x47), 0x8e);
    assert_eq!(times_x(0x8e), 0x07);
    assert_eq!(times_x(0x80), 0x1b);
    assert_eq!(times_x(0x00), 0x00);
    assert_eq!(times_x(0x01), 0x02);
}

#[test]
fn mixes_a_column() {
    let column = [0xdbu8, 0x13, 0x53, 0x45];
    let mixed = [
        mix(column[0], column[1], column[2], column[3]),
        mix(column[1], column[2], column[3], column[0]),
        mix(column[2], column[3], column[0], column[1]),
        mix(column[3], column[0], column[1], column[2]),
    ];
    assert_eq!(mixed, [0x8e, 0x4d, 0xa1, 0xbc]);
    let back = [
        inv_mix(mixed[0], mixed[1], mixed[2], mixed[3]),
        inv_mix(mixed[1], mixed[2], mixed[3], mixed[0]),
        inv_mix(mixed[2], mixed[3], mixed[0], mixed[1]),
        inv_mix(mixed[3], mixed[0], mixed[1], mixed[2]),
    ];
    assert_eq!(back, column);
}

#[test]
fn mixes_every_byte_as_the_matrix_says() {
    for a in 0..=255u8 {
        assert_eq!(mix(a, 0, 0, 0), product(a, 0x02));
        assert_eq!(mix(0, a, 0, 0), product(a, 0x03));
        assert_eq!(mix(0, 0, a, 0), a);
        assert_eq!(mix(0, 0, 0, a), a);
        assert_eq!(inv_mix(a, 0, 0, 0), product(a, 0x0e));
        assert_eq!(inv_mix(0, a, 0, 0), product(a, 0x0b));
        assert_eq!(inv_mix(0, 0, a, 0), product(a, 0x0d));
        assert_eq!(inv_mix(0, 0, 0, a), product(a, 0x09));
    }
}

#[test]
fn substitutes_known_bytes() {
    assert_eq!(substitute(0x00), 0x63);
    assert_eq!(substitute(0x01), 0x7c);
    assert_eq!(substitute(0x53), 0xed);
    assert_eq!(substitute(0xff), 0x16);
    assert_eq!(inv_substitute(0x00), 0x52);
    assert_eq!(inv_substitute(0x63), 0x00);
    assert_eq!(inv_substitute(0xed), 0x53);
    assert_eq!(inv_substitute(0xff), 0x7d);
}

#[test]
fn substitution_is_the_inverse_then_the_affine_map() {
    for x in 1..=255u8 {
        let y = substitute(x) ^ 0x63;
        let inverse = y.rotate_left(1) ^ y.rotate_left(3) ^ y.rotate_left(6);
        assert_eq!(product(x, inverse), 1);
    }
}

#[test]
fn inverse_substitution_undoes_substitution() {
    for x in 0..=255u8 {
        assert_eq!(inv_substitute(substitute(x)), x);
        assert_eq!(substitute(inv_substitute(x)), x);
    }
}
