//! RC5-32/12/16: 32-bit words, 12 rounds and 16-byte keys, with the key and
//! block sizes fixed by the buffer types.

use crate::key_schedule::{expanded_key_table, substitute_key};
use crate::transform::{decrypt, decrypt_spec, encrypt, encrypt_spec};
use vstd::prelude::*;

verus! {

/// Bytes in a key.
pub const KEY_SIZE: usize = 16;

/// Rounds of the block transform.
pub const ROUNDS: usize = 12;

/// Bytes in a block: two 32-bit words.
pub const BLOCK_SIZE: usize = 8;

/// RC5 with 32-bit words, 12 rounds and 16-byte keys.
#[allow(non_camel_case_types)]
pub struct RC5_32_12_16 {
    key_table: Vec<u32>,
}

impl View for RC5_32_12_16 {
    type V = Seq<u32>;

    /// The expanded key table.
    closed spec fn view(&self) -> Seq<u32> {
        self.key_table@
    }
}

/// Copies a block of eight bytes into an array.
fn to_block(bytes: &Vec<u8>) -> (r: [u8; 8])
    requires
        bytes@.len() == 8,
    ensures
        r@ == bytes@,
{
    let mut out = [0u8; 8];
    let mut i: usize = 0;
    while i < 8
        invariant
            i <= 8,
            bytes@.len() == 8,
            out@.len() == 8,
            forall|j: int| 0 <= j < i ==> out@[j] == bytes@[j],
        decreases 8 - i,
    {
        out[i] = bytes[i];
        i = i + 1;
    }
    assert(out@ == bytes@);
    out
}

impl RC5_32_12_16 {
    /// The table holds `2 * (12 + 1)` words.
    pub closed spec fn wf(&self) -> bool {
        self.key_table@.len() == 26
    }

    /// Expands a 16-byte key.
    pub fn new(key: &[u8; 16]) -> (r: Self)
        ensures
            r.wf(),
            r@ == expanded_key_table::<u32>(key@, 12),
    {
        RC5_32_12_16 { key_table: substitute_key::<u32>(key.as_slice(), ROUNDS) }
    }

    /// Encrypts one 8-byte block.
    pub fn encrypt_block(&self, block: &[u8; 8]) -> (r: [u8; 8])
        requires
            self.wf(),
        ensures
            r@ == encrypt_spec::<u32>(block@, self@),
    {
        let out = encrypt::<u32>(block.as_slice(), self.key_table.as_slice());
        to_block(&out)
    }

    /// Decrypts one 8-byte block.
    pub fn decrypt_block(&self, block: &[u8; 8]) -> (r: [u8; 8])
        requires
            self.wf(),
        ensures
            r@ == decrypt_spec::<u32>(block@, self@),
    {
        let out = decrypt::<u32>(block.as_slice(), self.key_table.as_slice());
        to_block(&out)
    }

    /// Overwrites every word of the table with zero.
    pub fn erase(&mut self)
        ensures
            final(self)@.len() == old(self)@.len(),
            final(self).wf() == old(self).wf(),
            forall|i: int| 0 <= i < final(self)@.len() ==> final(self)@[i] == 0,
    {
        let n = self.key_table.len();
        let mut i: usize = 0;
        while i < n
            invariant
                i <= n,
                n == self.key_table@.len(),
                n == old(self)@.len(),
                forall|j: int| 0 <= j < i ==> self.key_table@[j] == 0,
            decreases n - i,
        {
            self.key_table.set(i, 0);
            i = i + 1;
        }
    }
}

} // verus!
