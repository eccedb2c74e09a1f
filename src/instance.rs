//! An RC5 cipher instance for a chosen word width: the expanded key table of
//! one key, built once and then used to encrypt and decrypt blocks. Buffers of
//! the wrong length are refused before any cipher arithmetic runs.

use crate::key_schedule::{expanded_key_table, lemma_expanded_key_table_len, substitute_key};
use crate::transform::{decrypt, decrypt_spec, encrypt, encrypt_spec, table_rounds, valid_table_len};
use crate::word::Word;
use vstd::prelude::*;

verus! {

/// Why a buffer was refused.
#[derive(Debug, Clone, Copy, PartialEq, Eq, Structural)]
pub enum Rc5Error {
    /// The key does not have the configured number of bytes.
    KeyLengthMismatch,
    /// The block does not have two words' worth of bytes.
    BlockLengthMismatch,
}

/// Which way a block goes through the cipher.
#[derive(Debug, Clone, Copy, PartialEq, Eq, Structural)]
pub enum Direction {
    Encrypt,
    Decrypt,
}

/// An RC5 cipher keyed with one key: it owns the expanded key table.
pub struct RC5<W> {
    key_table: Vec<W>,
}

impl<W: Word> View for RC5<W> {
    type V = Seq<W>;

    /// The expanded key table.
    closed spec fn view(&self) -> Seq<W> {
        self.key_table@
    }
}

impl<W: Word> RC5<W> {
    /// The table has an even number of words, from 2 to 512.
    pub closed spec fn wf(&self) -> bool {
        valid_table_len(self.key_table@.len())
    }

    /// Expands `key` for `rounds` rounds, refusing a key that does not have
    /// `key_len` bytes.
    pub fn new(key: &[u8], key_len: usize, rounds: usize) -> (r: Result<Self, Rc5Error>)
        requires
            key_len <= 255,
            rounds <= 255,
        ensures
            match r {
                Ok(c) => {
                    &&& key@.len() == key_len
                    &&& c.wf()
                    &&& c@ == expanded_key_table::<W>(key@, rounds as nat)
                    &&& c@.len() == 2 * (rounds + 1)
                },
                Err(e) => key@.len() != key_len && e == Rc5Error::KeyLengthMismatch,
            },
    {
        if key.len() != key_len {
            return Err(Rc5Error::KeyLengthMismatch);
        }
        Ok(RC5 { key_table: substitute_key::<W>(key, rounds) })
    }

    /// The number of rounds (`r`).
    pub fn rounds(&self) -> (r: usize)
        requires
            self.wf(),
        ensures
            r == table_rounds(self@.len()),
    {
        self.key_table.len() / 2 - 1
    }

    /// Encrypts one block of `2u` bytes.
    pub fn encrypt_block(&self, block: &[u8]) -> (r: Result<Vec<u8>, Rc5Error>)
        requires
            self.wf(),
        ensures
            match r {
                Ok(out) => block@.len() == 2 * W::bytes_spec() && out@ == encrypt_spec::<W>(
                    block@,
                    self@,
                ),
                Err(e) => block@.len() != 2 * W::bytes_spec() && e == Rc5Error::BlockLengthMismatch,
            },
    {
        proof {
            W::lemma_bytes_range();
        }
        if block.len() != 2 * W::bytes() {
            return Err(Rc5Error::BlockLengthMismatch);
        }
        Ok(encrypt::<W>(block, self.key_table.as_slice()))
    }

    /// Decrypts one block of `2u` bytes.
    pub fn decrypt_block(&self, block: &[u8]) -> (r: Result<Vec<u8>, Rc5Error>)
        requires
            self.wf(),
        ensures
            match r {
                Ok(out) => block@.len() == 2 * W::bytes_spec() && out@ == decrypt_spec::<W>(
                    block@,
                    self@,
                ),
                Err(e) => block@.len() != 2 * W::bytes_spec() && e == Rc5Error::BlockLengthMismatch,
            },
    {
        proof {
            W::lemma_bytes_range();
        }
        if block.len() != 2 * W::bytes() {
            return Err(Rc5Error::BlockLengthMismatch);
        }
        Ok(decrypt::<W>(block, self.key_table.as_slice()))
    }

    /// Encrypts or decrypts one block of `2u` bytes, as `direction` says.
    pub fn transform_block(&self, block: &[u8], direction: Direction) -> (r: Result<
        Vec<u8>,
        Rc5Error,
    >)
        requires
            self.wf(),
        ensures
            match r {
                Ok(out) => block@.len() == 2 * W::bytes_spec() && out@ == match direction {
                    Direction::Encrypt => encrypt_spec::<W>(block@, self@),
                    Direction::Decrypt => decrypt_spec::<W>(block@, self@),
                },
                Err(e) => block@.len() != 2 * W::bytes_spec() && e == Rc5Error::BlockLengthMismatch,
            },
    {
        match direction {
            Direction::Encrypt => self.encrypt_block(block),
            Direction::Decrypt => self.decrypt_block(block),
        }
    }

    /// Overwrites every word of the table with zero, so that no key material
    /// is left once the cipher is no longer needed.
    pub fn erase(&mut self)
        ensures
            final(self)@.len() == old(self)@.len(),
            final(self).wf() == old(self).wf(),
            forall|i: int| 0 <= i < final(self)@.len() ==> final(self)@[i] == W::from_byte_spec(0),
    {
        let zero = W::from_byte(0);
        let n = self.key_table.len();
        let mut i: usize = 0;
        while i < n
            invariant
                i <= n,
                n == self.key_table@.len(),
                n == old(self)@.len(),
                zero == W::from_byte_spec(0),
                forall|j: int| 0 <= j < i ==> self.key_table@[j] == W::from_byte_spec(0),
            decreases n - i,
        {
            self.key_table.set(i, zero);
            i = i + 1;
        }
    }
}

} // verus!
