//! The algebraic laws of RC5, stated over the spec functions that the
//! executable key schedule and block transform are proved to compute.

use crate::key_schedule::{
    expanded_key_table, key_as_words, lemma_expanded_key_table_len, packed_words,
};
use crate::transform::{
    block_words, decrypt_rounds, decrypt_spec, encrypt_rounds, encrypt_spec,
    lemma_block_words_of_words_block, lemma_decrypt_rounds_undo, lemma_encrypt_rounds_undo,
    lemma_words_block_of_block_words, table_rounds, valid_table_len, words_block,
};
use crate::word::Word;
use vstd::prelude::*;

verus! {

/// Decryption undoes encryption under any table of the right shape.
pub proof fn lemma_decrypt_encrypt<W: Word>(block: Seq<u8>, s: Seq<W>)
    requires
        block.len() == 2 * W::bytes_spec(),
        valid_table_len(s.len()),
    ensures
        decrypt_spec::<W>(encrypt_spec::<W>(block, s), s) == block,
{
    let r = table_rounds(s.len());
    let (a, b) = block_words::<W>(block);
    let (x, y) = encrypt_rounds(a, b, s, r);
    lemma_block_words_of_words_block(x, y);
    lemma_decrypt_rounds_undo(a, b, s, r);
    lemma_words_block_of_block_words::<W>(block);
}

/// Encryption undoes decryption under any table of the right shape: the two
/// are inverse to each other on both sides.
pub proof fn lemma_encrypt_decrypt<W: Word>(block: Seq<u8>, s: Seq<W>)
    requires
        block.len() == 2 * W::bytes_spec(),
        valid_table_len(s.len()),
    ensures
        encrypt_spec::<W>(decrypt_spec::<W>(block, s), s) == block,
{
    let r = table_rounds(s.len());
    let (a, b) = block_words::<W>(block);
    let (x, y) = decrypt_rounds(a, b, s, r);
    lemma_block_words_of_words_block(x, y);
    lemma_encrypt_rounds_undo(a, b, s, r);
    lemma_words_block_of_block_words::<W>(block);
}

/// For every key of 0 to 255 bytes, every round count up to 255 and every
/// block, decrypting the encryption of the block under the key's expanded
/// table gives the block back.
pub proof fn lemma_inverse_law<W: Word>(key: Seq<u8>, rounds: nat, block: Seq<u8>)
    requires
        key.len() <= 255,
        rounds <= 255,
        block.len() == 2 * W::bytes_spec(),
    ensures
        decrypt_spec::<W>(
            encrypt_spec::<W>(block, expanded_key_table::<W>(key, rounds)),
            expanded_key_table::<W>(key, rounds),
        ) == block,
{
    lemma_expanded_key_table_len::<W>(key, rounds);
    lemma_decrypt_encrypt::<W>(block, expanded_key_table::<W>(key, rounds));
}

/// The key schedule and the block transform are functions of their inputs:
/// equal inputs give equal tables and equal blocks.
pub proof fn lemma_deterministic<W: Word>(
    key1: Seq<u8>,
    key2: Seq<u8>,
    rounds: nat,
    block1: Seq<u8>,
    block2: Seq<u8>,
    s: Seq<W>,
)
    requires
        key1 == key2,
        block1 == block2,
    ensures
        expanded_key_table::<W>(key1, rounds) == expanded_key_table::<W>(key2, rounds),
        encrypt_spec::<W>(block1, s) == encrypt_spec::<W>(block2, s),
        decrypt_spec::<W>(block1, s) == decrypt_spec::<W>(block2, s),
{
}

/// With no rounds (a table of two words) encryption is the whitening alone,
/// `A + S[0]` and `B + S[1]`, and decryption subtracts exactly those words.
pub proof fn lemma_zero_rounds<W: Word>(block: Seq<u8>, s: Seq<W>)
    requires
        block.len() == 2 * W::bytes_spec(),
        s.len() == 2,
    ensures
        ({
            let (a, b) = block_words::<W>(block);
            encrypt_spec::<W>(block, s) == words_block(a.add_spec(s[0]), b.add_spec(s[1]))
        }),
        ({
            let (a, b) = block_words::<W>(block);
            decrypt_spec::<W>(block, s) == words_block(a.sub_spec(s[0]), b.sub_spec(s[1]))
        }),
        decrypt_spec::<W>(encrypt_spec::<W>(block, s), s) == block,
{
    lemma_decrypt_encrypt::<W>(block, s);
}

/// An empty key is packed into a single zero word; its expanded table has
/// `2 * (rounds + 1)` words, and decryption under it undoes encryption.
pub proof fn lemma_empty_key<W: Word>(rounds: nat, block: Seq<u8>)
    requires
        rounds <= 255,
        block.len() == 2 * W::bytes_spec(),
    ensures
        key_as_words::<W>(Seq::<u8>::empty()) == seq![W::from_byte_spec(0)],
        expanded_key_table::<W>(Seq::<u8>::empty(), rounds).len() == 2 * (rounds + 1),
        decrypt_spec::<W>(
            encrypt_spec::<W>(block, expanded_key_table::<W>(Seq::<u8>::empty(), rounds)),
            expanded_key_table::<W>(Seq::<u8>::empty(), rounds),
        ) == block,
{
    assert(packed_words::<W>(Seq::<u8>::empty(), 0) =~= seq![W::from_byte_spec(0)]);
    lemma_expanded_key_table_len::<W>(Seq::<u8>::empty(), rounds);
    lemma_inverse_law::<W>(Seq::<u8>::empty(), rounds, block);
}

} // verus!
