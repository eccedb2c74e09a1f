use rc5::{RC5, RC5_32_12_16};

fn check_vector(key: [u8; 16], pt: [u8; 8], ct: [u8; 8]) {
    let cipher = RC5_32_12_16::new(&key);
    assert_eq!(cipher.encrypt_block(&pt), ct);
    assert_eq!(cipher.decrypt_block(&ct), pt);
}

#[test]
fn known_answer_zero_key() {
    check_vector(
        [0u8; 16],
        [0u8; 8],
        [0x21, 0xA5, 0xDB, 0xEE, 0x15, 0x4B, 0x8F, 0x6D],
    );
}

#[test]
fn known_answer_second() {
    check_vector(
        [
            0x91, 0x5F, 0x46, 0x19, 0xBE, 0x41, 0xB2, 0x51, 0x63, 0x55, 0xA5, 0x01, 0x10, 0xA9,
            0xCE, 0x91,
        ],
        [0x21, 0xA5, 0xDB, 0xEE, 0x15, 0x4B, 0x8F, 0x6D],
        [0xF7, 0xC0, 0x13, 0xAC, 0x5B, 0x2B, 0x89, 0x52],
    );
}

#[test]
fn known_answer_third() {
    check_vector(
        [
            0x78, 0x33, 0x48, 0xE7, 0x5A, 0xEB, 0x0F, 0x2F, 0xD7, 0xB1, 0x69, 0xBB, 0x8D, 0xC1,
            0x67, 0x87,
        ],
        [0xF7, 0xC0, 0x13, 0xAC, 0x5B, 0x2B, 0x89, 0x52],
        [0x2F, 0x42, 0xB3, 0xB7, 0x03, 0x69, 0xFC, 0x92],
    );
}

#[test]
fn known_answer_fourth() {
    check_vector(
        [
            0xDC, 0x49, 0xDB, 0x13, 0x75, 0xA5, 0x58, 0x4F, 0x64, 0x85, 0xB4, 0x13, 0xB5, 0xF1,
            0x2B, 0xAF,
        ],
        [0x2F, 0x42, 0xB3, 0xB7, 0x03, 0x69, 0xFC, 0x92],
        [0x65, 0xC1, 0x78, 0xB2, 0x84, 0xD1, 0x97, 0xCC],
    );
}

#[test]
fn known_answer_fifth() {
    check_vector(
        [
            0x52, 0x69, 0xF1, 0x49, 0xD4, 0x1B, 0xA0, 0x15, 0x24, 0x97, 0x57, 0x4D, 0x7F, 0x15,
            0x31, 0x25,
        ],
        [0x65, 0xC1, 0x78, 0xB2, 0x84, 0xD1, 0x97, 0xCC],
        [0xEB, 0x44, 0xE4, 0x15, 0xDA, 0x31, 0x98, 0x24],
    );
}

fn counting(n: usize) -> Vec<u8> {
    (0..n).map(|i| i as u8).collect()
}

#[test]
fn known_answer_rc5_16_16_8() {
    let key = counting(8);
    let cipher = RC5::<u16>::new(&key, 8, 16).unwrap();
    let ct = cipher.encrypt_block(&counting(4)).unwrap();
    assert_eq!(ct, vec![0x23, 0xA8, 0xD7, 0x2E]);
    assert_eq!(cipher.decrypt_block(&ct).unwrap(), counting(4));
}

#[test]
fn known_answer_rc5_32_20_16() {
    let key = counting(16);
    let cipher = RC5::<u32>::new(&key, 16, 20).unwrap();
    let ct = cipher.encrypt_block(&counting(8)).unwrap();
    assert_eq!(ct, vec![0x2A, 0x0E, 0xDC, 0x0E, 0x94, 0x31, 0xFF, 0x73]);
    assert_eq!(cipher.decrypt_block(&ct).unwrap(), counting(8));
}

#[test]
fn known_answer_rc5_64_24_24() {
    let key = counting(24);
    let cipher = RC5::<u64>::new(&key, 24, 24).unwrap();
    let ct = cipher.encrypt_block(&counting(16)).unwrap();
    assert_eq!(
        ct,
        vec![
            0xA4, 0x67, 0x72, 0x82, 0x0E, 0xDB, 0xCE, 0x02, 0x35, 0xAB, 0xEA, 0x32, 0xAE, 0x71,
            0x78, 0xDA
        ]
    );
    assert_eq!(cipher.decrypt_block(&ct).unwrap(), counting(16));
}
