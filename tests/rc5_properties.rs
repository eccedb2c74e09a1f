use rc5::key_schedule::{initialize_expanded_key_table, key_into_words, mix_in, substitute_key};
use rc5::transform::{block_from_words, decrypt, encrypt, words_from_block};
use rc5::{Direction, Rc5Error, Word, RC5, RC5_32_12_16};

fn pattern(n: usize, seed: u8) -> Vec<u8> {
    (0..n).map(|i| (i as u8).wrapping_mul(37).wrapping_add(seed)).collect()
}

fn round_trip_all_lengths<W: Word>(block_len: usize) {
    let block = pattern(block_len, 11);
    for b in [0usize, 1, 2, 3, 7, 8, 15, 16, 17, 31, 64, 100, 128, 200, 254, 255] {
        let key = pattern(b, 5);
        for rounds in [0usize, 1, 12, 255] {
            let cipher = RC5::<W>::new(&key, b, rounds).unwrap();
            assert_eq!(cipher.rounds(), rounds);
            let ct = cipher.encrypt_block(&block).unwrap();
            assert_eq!(ct.len(), block_len);
            assert_eq!(cipher.decrypt_block(&ct).unwrap(), block);
            let pt = cipher.decrypt_block(&block).unwrap();
            assert_eq!(cipher.encrypt_block(&pt).unwrap(), block);
        }
    }
}

#[test]
fn round_trip_over_key_lengths_16() {
    round_trip_all_lengths::<u16>(4);
}

#[test]
fn round_trip_over_key_lengths_32() {
    round_trip_all_lengths::<u32>(8);
}

#[test]
fn round_trip_over_key_lengths_64() {
    round_trip_all_lengths::<u64>(16);
}

#[test]
fn empty_key_is_one_zero_word() {
    let words: Vec<u32> = key_into_words(&[]);
    assert_eq!(words, vec![0u32]);
    let s1: Vec<u32> = substitute_key(&[], 12);
    let s2: Vec<u32> = substitute_key(&[], 12);
    assert_eq!(s1.len(), 26);
    assert_eq!(s1, s2);
    let block = pattern(8, 3);
    let ct = encrypt(&block, &s1);
    assert_ne!(ct, block);
    assert_eq!(decrypt(&ct, &s1), block);
}

#[test]
fn key_packing_is_little_endian_with_zero_padding() {
    let words: Vec<u32> = key_into_words(&[1, 2, 3, 4, 5]);
    assert_eq!(words, vec![0x0403_0201, 0x0000_0005]);
    let words16: Vec<u16> = key_into_words(&[0xAA, 0xBB, 0xCC]);
    assert_eq!(words16, vec![0xBBAA, 0x00CC]);
    let words64: Vec<u64> = key_into_words(&[1, 2, 3, 4, 5, 6, 7, 8, 9]);
    assert_eq!(words64, vec![0x0807_0605_0403_0201, 0x09]);
}

#[test]
fn seeded_table_steps_by_q() {
    let s: Vec<u32> = initialize_expanded_key_table(1);
    assert_eq!(s, vec![0xb7e1_5163, 0x5618_cb1c, 0xf450_44d5, 0x9287_be8e]);
    let s16: Vec<u16> = initialize_expanded_key_table(0);
    assert_eq!(s16, vec![0xb7e1, 0x5618]);
    let s64: Vec<u64> = initialize_expanded_key_table(0);
    assert_eq!(s64, vec![0xb7e1_5162_8aed_2a6b, 0x5618_cb1c_0a37_a680]);
}

#[test]
fn mixing_changes_the_table_and_keeps_its_length() {
    let seeded: Vec<u32> = initialize_expanded_key_table(12);
    let mixed = mix_in(seeded.clone(), vec![0u32; 4]);
    assert_eq!(mixed.len(), 26);
    assert_ne!(mixed, seeded);
    assert_eq!(mixed, substitute_key::<u32>(&[0u8; 16], 12));
}

#[test]
fn zero_rounds_is_whitening_only() {
    let key = pattern(10, 9);
    let s: Vec<u32> = substitute_key(&key, 0);
    assert_eq!(s.len(), 2);
    let block = [0x01, 0x00, 0x00, 0x00, 0xFF, 0xFF, 0xFF, 0xFF];
    let ct = encrypt(&block, &s);
    let expected = block_from_words(1u32.wrapping_add(s[0]), 0xFFFF_FFFFu32.wrapping_add(s[1]));
    assert_eq!(ct, expected);
    assert_eq!(decrypt(&ct, &s), block.to_vec());
    let pt = decrypt(&block, &s);
    let expected_pt = block_from_words(1u32.wrapping_sub(s[0]), 0xFFFF_FFFFu32.wrapping_sub(s[1]));
    assert_eq!(pt, expected_pt);
}

#[test]
fn distinct_keys_give_distinct_tables() {
    let mut key = [0u8; 16];
    let base = RC5_32_12_16::new(&key);
    let block = [0u8; 8];
    let base_ct = base.encrypt_block(&block);
    for i in 0..16 {
        key[i] = 1;
        let other: Vec<u32> = substitute_key(&key, 12);
        assert_ne!(other, substitute_key::<u32>(&[0u8; 16], 12));
        assert_ne!(RC5_32_12_16::new(&key).encrypt_block(&block), base_ct);
        key[i] = 0;
    }
}

#[test]
fn repeated_calls_agree() {
    let key = pattern(16, 77);
    let a: Vec<u64> = substitute_key(&key, 20);
    let b: Vec<u64> = substitute_key(&key, 20);
    assert_eq!(a, b);
    let block = pattern(16, 1);
    assert_eq!(encrypt(&block, &a), encrypt(&block, &b));
    assert_eq!(decrypt(&block, &a), decrypt(&block, &b));
}

#[test]
fn wrong_decryption_key_gives_other_plaintext() {
    let c1 = RC5_32_12_16::new(&[1u8; 16]);
    let c2 = RC5_32_12_16::new(&[2u8; 16]);
    let pt = [9u8; 8];
    let ct = c1.encrypt_block(&pt);
    assert_ne!(c2.decrypt_block(&ct), pt);
}

#[test]
fn key_length_mismatch_is_refused() {
    let r = RC5::<u32>::new(&[0u8; 15], 16, 12);
    assert_eq!(r.err(), Some(Rc5Error::KeyLengthMismatch));
    let r = RC5::<u16>::new(&[], 1, 12);
    assert_eq!(r.err(), Some(Rc5Error::KeyLengthMismatch));
}

#[test]
fn block_length_mismatch_is_refused() {
    let cipher = RC5::<u32>::new(&[0u8; 16], 16, 12).unwrap();
    assert_eq!(cipher.encrypt_block(&[0u8; 7]), Err(Rc5Error::BlockLengthMismatch));
    assert_eq!(cipher.decrypt_block(&[0u8; 16]), Err(Rc5Error::BlockLengthMismatch));
    let c64 = RC5::<u64>::new(&[], 0, 0).unwrap();
    assert_eq!(c64.encrypt_block(&[0u8; 8]), Err(Rc5Error::BlockLengthMismatch));
    assert!(c64.encrypt_block(&[0u8; 16]).is_ok());
}

#[test]
fn erase_zeroes_the_table() {
    let mut cipher = RC5::<u32>::new(&[7u8; 16], 16, 12).unwrap();
    let block = [5u8; 8];
    let before = cipher.encrypt_block(&block).unwrap();
    cipher.erase();
    let after = cipher.encrypt_block(&block).unwrap();
    assert_ne!(before, after);
    let zero_table = vec![0u32; 26];
    assert_eq!(after, encrypt(&block, &zero_table));

    let mut fixed = RC5_32_12_16::new(&[7u8; 16]);
    fixed.erase();
    assert_eq!(fixed.encrypt_block(&block).to_vec(), after);
}

#[test]
fn block_words_are_little_endian() {
    let block = [0x01, 0x02, 0x03, 0x04, 0x05, 0x06, 0x07, 0x08];
    let (a, b): (u32, u32) = words_from_block(&block);
    assert_eq!(a, 0x0403_0201);
    assert_eq!(b, 0x0807_0605);
    assert_eq!(block_from_words(a, b), block.to_vec());
    let (c, d): (u16, u16) = words_from_block(&[0x01, 0x02, 0x03, 0x04]);
    assert_eq!((c, d), (0x0201, 0x0403));
}

#[test]
fn word_operations() {
    assert_eq!(Word::rotate_left(0x8000_0001u32, 1), 0x0000_0003);
    assert_eq!(Word::rotate_left(0x8000_0001u32, 33), 0x0000_0003);
    assert_eq!(Word::rotate_left(0x1234_5678u32, 32), 0x1234_5678);
    assert_eq!(Word::rotate_right(0x0000_0003u32, 1), 0x8000_0001);
    assert_eq!(Word::rotate_right(0x0000_0003u32, 0xFFFF_FFE1), 0x8000_0001);
    assert_eq!(Word::rotate_left(0x8001u16, 17), 0x0003);
    assert_eq!(Word::rotate_left(0x8000_0000_0000_0001u64, 65), 3);
    assert_eq!(Word::rotate_right(1u64, 4), 0x1000_0000_0000_0000);
    assert_eq!(Word::wrapping_add(0xFFFF_FFFFu32, 2), 1);
    assert_eq!(Word::wrapping_sub(1u32, 2), 0xFFFF_FFFF);
    assert_eq!(Word::bitxor(0xF0F0u16, 0xFF00), 0x0FF0);
    assert_eq!(<u32 as Word>::from_le_bytes(&[0x78, 0x56, 0x34, 0x12]), 0x1234_5678);
    assert_eq!(Word::to_le_bytes(0x1234u16), vec![0x34, 0x12]);
    assert_eq!(<u32 as Word>::p(), 0xb7e1_5163);
    assert_eq!(<u32 as Word>::q(), 0x9e37_79b9);
    assert_eq!(<u16 as Word>::bytes(), 2);
    assert_eq!(<u64 as Word>::bytes(), 8);
    assert_eq!(<u64 as Word>::from_byte(0xAB), 0xAB);
}

#[test]
fn transform_block_follows_direction() {
    let cipher = RC5::<u32>::new(&[0u8; 16], 16, 12).unwrap();
    let pt = [0u8; 8];
    let ct = cipher.transform_block(&pt, Direction::Encrypt).unwrap();
    assert_eq!(ct, vec![0x21, 0xA5, 0xDB, 0xEE, 0x15, 0x4B, 0x8F, 0x6D]);
    assert_eq!(cipher.transform_block(&ct, Direction::Decrypt).unwrap(), pt.to_vec());
    assert_eq!(
        cipher.transform_block(&[0u8; 9], Direction::Decrypt),
        Err(Rc5Error::BlockLengthMismatch)
    );
}
