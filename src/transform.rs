//! The RC5 block transform. A block of `2u` bytes is read as two little-endian
//! words `A` (low half) and `B` (high half); encryption whitens them with the
//! first two table words and runs `r` rounds of exclusive or, data-dependent
//! rotation and addition; decryption runs the rounds backwards.

use crate::word::Word;
use vstd::prelude::*;

verus! {

/// A table of `t` words drives `t / 2 - 1` rounds.
pub open spec fn table_rounds(t: nat) -> nat {
    (t / 2 - 1) as nat
}

/// A table that an encryption can run on: an even number of words, at least
/// the two whitening words, and at most the table of 255 rounds.
pub open spec fn valid_table_len(t: nat) -> bool {
    2 <= t <= 512 && t % 2 == 0
}

/// The two words `(A, B)` that a block of `2u` bytes holds.
pub open spec fn block_words<W: Word>(block: Seq<u8>) -> (W, W) {
    let u = W::bytes_spec() as int;
    (W::from_le_spec(block.subrange(0, u)), W::from_le_spec(block.subrange(u, 2 * u)))
}

/// The block of `2u` bytes that holds the words `a` and `b`.
pub open spec fn words_block<W: Word>(a: W, b: W) -> Seq<u8> {
    a.to_le_spec() + b.to_le_spec()
}

/// The words after the whitening and encryption rounds `1..=i`.
pub open spec fn encrypt_rounds<W: Word>(a: W, b: W, s: Seq<W>, i: nat) -> (W, W)
    decreases i,
{
    if i == 0 {
        (a.add_spec(s[0]), b.add_spec(s[1]))
    } else {
        let (x, y) = encrypt_rounds(a, b, s, (i - 1) as nat);
        let x2 = x.xor_spec(y).rotl_spec(y).add_spec(s[2 * i as int]);
        let y2 = y.xor_spec(x2).rotl_spec(x2).add_spec(s[2 * i as int + 1]);
        (x2, y2)
    }
}

/// Decryption round `i`: the inverse of encryption round `i`.
pub open spec fn decrypt_round<W: Word>(a: W, b: W, s: Seq<W>, i: nat) -> (W, W) {
    let b2 = b.sub_spec(s[2 * i as int + 1]).rotr_spec(a).xor_spec(a);
    let a2 = a.sub_spec(s[2 * i as int]).rotr_spec(b2).xor_spec(b2);
    (a2, b2)
}

/// The words after decryption rounds `i` down to `1` and the removal of the
/// whitening.
pub open spec fn decrypt_rounds<W: Word>(a: W, b: W, s: Seq<W>, i: nat) -> (W, W)
    decreases i,
{
    if i == 0 {
        (a.sub_spec(s[0]), b.sub_spec(s[1]))
    } else {
        let (x, y) = decrypt_round(a, b, s, i);
        decrypt_rounds(x, y, s, (i - 1) as nat)
    }
}

/// The encryption of `block` under the expanded key table `s`.
pub open spec fn encrypt_spec<W: Word>(block: Seq<u8>, s: Seq<W>) -> Seq<u8> {
    let (a, b) = block_words::<W>(block);
    let (x, y) = encrypt_rounds(a, b, s, table_rounds(s.len()));
    words_block(x, y)
}

/// The decryption of `block` under the expanded key table `s`.
pub open spec fn decrypt_spec<W: Word>(block: Seq<u8>, s: Seq<W>) -> Seq<u8> {
    let (a, b) = block_words::<W>(block);
    let (x, y) = decrypt_rounds(a, b, s, table_rounds(s.len()));
    words_block(x, y)
}

/// Decryption rounds `i` down to `1` undo encryption rounds `1..=i`, and the
/// removal of the whitening undoes the whitening.
pub proof fn lemma_decrypt_rounds_undo<W: Word>(a: W, b: W, s: Seq<W>, i: nat)
    requires
        2 * i + 2 <= s.len(),
    ensures
        ({
            let (x, y) = encrypt_rounds(a, b, s, i);
            decrypt_rounds(x, y, s, i)
        }) == (a, b),
    decreases i,
{
    if i == 0 {
        W::lemma_sub_undoes_add(a, s[0]);
        W::lemma_sub_undoes_add(b, s[1]);
    } else {
        let (x, y) = encrypt_rounds(a, b, s, (i - 1) as nat);
        let x2 = x.xor_spec(y).rotl_spec(y).add_spec(s[2 * i as int]);
        let y2 = y.xor_spec(x2).rotl_spec(x2).add_spec(s[2 * i as int + 1]);
        W::lemma_sub_undoes_add(y.xor_spec(x2).rotl_spec(x2), s[2 * i as int + 1]);
        W::lemma_rotr_undoes_rotl(y.xor_spec(x2), x2);
        W::lemma_xor_twice(y, x2);
        W::lemma_sub_undoes_add(x.xor_spec(y).rotl_spec(y), s[2 * i as int]);
        W::lemma_rotr_undoes_rotl(x.xor_spec(y), y);
        W::lemma_xor_twice(x, y);
        assert(decrypt_round(x2, y2, s, i) == (x, y));
        lemma_decrypt_rounds_undo(a, b, s, (i - 1) as nat);
    }
}

/// Encryption rounds `1..=i` undo decryption rounds `i` down to `1`, and the
/// whitening undoes its removal.
pub proof fn lemma_encrypt_rounds_undo<W: Word>(a: W, b: W, s: Seq<W>, i: nat)
    requires
        2 * i + 2 <= s.len(),
    ensures
        ({
            let (x, y) = decrypt_rounds(a, b, s, i);
            encrypt_rounds(x, y, s, i)
        }) == (a, b),
    decreases i,
{
    if i == 0 {
        W::lemma_add_undoes_sub(a, s[0]);
        W::lemma_add_undoes_sub(b, s[1]);
    } else {
        let (a2, b2) = decrypt_round(a, b, s, i);
        lemma_encrypt_rounds_undo(a2, b2, s, (i - 1) as nat);
        let (x, y) = decrypt_rounds(a2, b2, s, (i - 1) as nat);
        assert(encrypt_rounds(x, y, s, (i - 1) as nat) == (a2, b2));
        W::lemma_xor_twice(a.sub_spec(s[2 * i as int]).rotr_spec(b2), b2);
        W::lemma_rotl_undoes_rotr(a.sub_spec(s[2 * i as int]), b2);
        W::lemma_add_undoes_sub(a, s[2 * i as int]);
        W::lemma_xor_twice(b.sub_spec(s[2 * i as int + 1]).rotr_spec(a), a);
        W::lemma_rotl_undoes_rotr(b.sub_spec(s[2 * i as int + 1]), a);
        W::lemma_add_undoes_sub(b, s[2 * i as int + 1]);
    }
}

/// Reading a block back from the words it was written from gives them back.
pub proof fn lemma_block_words_of_words_block<W: Word>(a: W, b: W)
    ensures
        block_words::<W>(words_block(a, b)) == (a, b),
        words_block(a, b).len() == 2 * W::bytes_spec(),
{
    W::lemma_decode_encode(a);
    W::lemma_decode_encode(b);
    let u = W::bytes_spec() as int;
    let blk = words_block(a, b);
    assert(blk.subrange(0, u) == a.to_le_spec());
    assert(blk.subrange(u, 2 * u) == b.to_le_spec());
}

/// Writing the words of a block of `2u` bytes gives the block back.
pub proof fn lemma_words_block_of_block_words<W: Word>(block: Seq<u8>)
    requires
        block.len() == 2 * W::bytes_spec(),
    ensures
        ({
            let (a, b) = block_words::<W>(block);
            words_block(a, b)
        }) == block,
{
    let u = W::bytes_spec() as int;
    W::lemma_encode_decode(block.subrange(0, u));
    W::lemma_encode_decode(block.subrange(u, 2 * u));
    assert(block.subrange(0, u) + block.subrange(u, 2 * u) == block);
}

/// Splits a block of `2u` bytes into its two little-endian words.
pub fn words_from_block<W: Word>(block: &[u8]) -> (r: (W, W))
    requires
        block@.len() == 2 * W::bytes_spec(),
    ensures
        r == block_words::<W>(block@),
{
    let u = W::bytes();
    let (low, high) = block.split_at(u);
    (W::from_le_bytes(low), W::from_le_bytes(high))
}

/// Writes two words as a block of `2u` bytes, `a` in the low half.
pub fn block_from_words<W: Word>(a: W, b: W) -> (r: Vec<u8>)
    ensures
        r@ == words_block(a, b),
{
    let mut out = a.to_le_bytes();
    let mut high = b.to_le_bytes();
    out.append(&mut high);
    out
}

/// Encrypts one block of `2u` bytes under the expanded key table `key`.
pub fn encrypt<W: Word>(block: &[u8], key: &[W]) -> (r: Vec<u8>)
    requires
        block@.len() == 2 * W::bytes_spec(),
        valid_table_len(key@.len()),
    ensures
        r@ == encrypt_spec::<W>(block@, key@),
        r@.len() == 2 * W::bytes_spec(),
{
    let ghost s = key@;
    let ghost (a0, b0) = block_words::<W>(block@);
    let rounds = key.len() / 2 - 1;
    let (a_in, b_in) = words_from_block::<W>(block);
    let mut a = a_in.wrapping_add(key[0]);
    let mut b = b_in.wrapping_add(key[1]);
    let mut i: usize = 1;
    while i <= rounds
        invariant
            1 <= i <= rounds + 1,
            rounds == table_rounds(s.len()),
            key@ == s,
            2 * rounds + 2 == s.len(),
            valid_table_len(s.len()),
            (a, b) == encrypt_rounds(a0, b0, s, (i - 1) as nat),
        decreases rounds + 1 - i,
    {
        a = a.bitxor(b).rotate_left(b).wrapping_add(key[2 * i]);
        b = b.bitxor(a).rotate_left(a).wrapping_add(key[2 * i + 1]);
        i = i + 1;
    }
    proof {
        lemma_block_words_of_words_block(a, b);
    }
    block_from_words(a, b)
}

/// Decrypts one block of `2u` bytes under the expanded key table `key`.
pub fn decrypt<W: Word>(block: &[u8], key: &[W]) -> (r: Vec<u8>)
    requires
        block@.len() == 2 * W::bytes_spec(),
        valid_table_len(key@.len()),
    ensures
        r@ == decrypt_spec::<W>(block@, key@),
        r@.len() == 2 * W::bytes_spec(),
{
    let ghost s = key@;
    let ghost (a0, b0) = block_words::<W>(block@);
    let rounds = key.len() / 2 - 1;
    let (a_in, b_in) = words_from_block::<W>(block);
    let mut a = a_in;
    let mut b = b_in;
    let mut i: usize = rounds;
    while i >= 1
        invariant
            i <= rounds,
            rounds == table_rounds(s.len()),
            key@ == s,
            2 * rounds + 2 == s.len(),
            valid_table_len(s.len()),
            decrypt_rounds(a, b, s, i as nat) == decrypt_rounds(a0, b0, s, rounds as nat),
        decreases i,
    {
        b = b.wrapping_sub(key[2 * i + 1]).rotate_right(a).bitxor(a);
        a = a.wrapping_sub(key[2 * i]).rotate_right(b).bitxor(b);
        i = i - 1;
    }
    b = b.wrapping_sub(key[1]);
    a = a.wrapping_sub(key[0]);
    proof {
        lemma_block_words_of_words_block(a, b);
    }
    block_from_words(a, b)
}

} // verus!
