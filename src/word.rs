//! The word arithmetic of RC5: a fixed-width unsigned word with wrapping
//! addition and subtraction, exclusive or, rotations whose amount is taken
//! modulo the width, little-endian byte encoding and the magic constants
//! `P` and `Q`.

use vstd::bytes::{
    lemma_auto_spec_u16_to_from_le_bytes, lemma_auto_spec_u32_to_from_le_bytes,
    lemma_auto_spec_u64_to_from_le_bytes, spec_u16_from_le_bytes, spec_u16_to_le_bytes,
    spec_u32_from_le_bytes, spec_u32_to_le_bytes, spec_u64_from_le_bytes, spec_u64_to_le_bytes,
    u16_from_le_bytes, u16_to_le_bytes, u32_from_le_bytes, u32_to_le_bytes, u64_from_le_bytes,
    u64_to_le_bytes,
};
use vstd::arithmetic::power2::lemma2_to64;
use vstd::bits::{lemma_u16_shl_is_mul, lemma_u32_shl_is_mul, lemma_u64_shl_is_mul};
use vstd::prelude::*;

verus! {

/// `256^n`.
pub open spec fn pow256(n: nat) -> nat
    decreases n,
{
    if n == 0 {
        1
    } else {
        256 * pow256((n - 1) as nat)
    }
}

/// A word of `w` bits (`u = w / 8` bytes), the unit that RC5 computes on.
///
/// The spec functions give the mathematical meaning of each operation; the
/// proof functions are the algebraic facts that make decryption the inverse
/// of encryption.
pub trait Word: Sized + Copy {
    /// Number of bytes in a word (`u`).
    spec fn bytes_spec() -> nat;

    /// The word whose value is the byte `b`.
    spec fn from_byte_spec(b: u8) -> Self;

    /// The value of the word as a natural number.
    spec fn value_spec(self) -> nat;

    /// The constant `P`, from the binary expansion of `e`.
    spec fn p_spec() -> Self;

    /// The constant `Q`, from the binary expansion of the golden ratio.
    spec fn q_spec() -> Self;

    /// Addition modulo `2^w`.
    spec fn add_spec(self, rhs: Self) -> Self;

    /// Subtraction modulo `2^w`.
    spec fn sub_spec(self, rhs: Self) -> Self;

    /// Bitwise exclusive or.
    spec fn xor_spec(self, rhs: Self) -> Self;

    /// Rotation to the left by `n mod w` bits.
    spec fn rotl_spec(self, n: Self) -> Self;

    /// Rotation to the right by `n mod w` bits.
    spec fn rotr_spec(self, n: Self) -> Self;

    /// The word whose little-endian encoding is `bytes`.
    spec fn from_le_spec(bytes: Seq<u8>) -> Self;

    /// The little-endian encoding of the word.
    spec fn to_le_spec(self) -> Seq<u8>;

    /// A word has between two and eight bytes.
    proof fn lemma_bytes_range()
        ensures
            2 <= Self::bytes_spec() <= 8,
    ;

    /// The zero byte gives the zero word.
    proof fn lemma_zero_value()
        ensures
            Self::from_byte_spec(0).value_spec() == 0,
    ;

    /// Rotating a word whose top byte is zero left by eight bits and adding
    /// a byte shifts the byte in at the bottom.
    proof fn lemma_shift_in_byte(x: Self, b: u8)
        requires
            x.value_spec() < pow256((Self::bytes_spec() - 1) as nat),
        ensures
            x.rotl_spec(Self::from_byte_spec(8)).add_spec(Self::from_byte_spec(b)).value_spec()
                == x.value_spec() * 256 + b,
    ;

    /// Subtracting `b` undoes adding it.
    proof fn lemma_sub_undoes_add(a: Self, b: Self)
        ensures
            a.add_spec(b).sub_spec(b) == a,
    ;

    /// Adding `b` undoes subtracting it.
    proof fn lemma_add_undoes_sub(a: Self, b: Self)
        ensures
            a.sub_spec(b).add_spec(b) == a,
    ;

    /// Rotating left undoes rotating right by the same amount.
    proof fn lemma_rotl_undoes_rotr(a: Self, n: Self)
        ensures
            a.rotr_spec(n).rotl_spec(n) == a,
    ;

    /// Exclusive or with `b` is its own inverse.
    proof fn lemma_xor_twice(a: Self, b: Self)
        ensures
            a.xor_spec(b).xor_spec(b) == a,
    ;

    /// Rotating right undoes rotating left by the same amount.
    proof fn lemma_rotr_undoes_rotl(a: Self, n: Self)
        ensures
            a.rotl_spec(n).rotr_spec(n) == a,
    ;

    /// Decoding the encoding of a word gives the word back.
    proof fn lemma_decode_encode(a: Self)
        ensures
            a.to_le_spec().len() == Self::bytes_spec(),
            Self::from_le_spec(a.to_le_spec()) == a,
    ;

    /// Encoding the word that `u` bytes decode to gives the bytes back.
    proof fn lemma_encode_decode(bytes: Seq<u8>)
        requires
            bytes.len() == Self::bytes_spec(),
        ensures
            Self::from_le_spec(bytes).to_le_spec() == bytes,
    ;

    /// Number of bytes in a word (`u`).
    fn bytes() -> (r: usize)
        ensures
            r == Self::bytes_spec(),
    ;

    /// The word whose value is the byte `b`.
    fn from_byte(b: u8) -> (r: Self)
        ensures
            r == Self::from_byte_spec(b),
    ;

    /// The constant `P`.
    fn p() -> (r: Self)
        ensures
            r == Self::p_spec(),
    ;

    /// The constant `Q`.
    fn q() -> (r: Self)
        ensures
            r == Self::q_spec(),
    ;

    /// Addition modulo `2^w`.
    fn wrapping_add(self, rhs: Self) -> (r: Self)
        ensures
            r == self.add_spec(rhs),
    ;

    /// Subtraction modulo `2^w`.
    fn wrapping_sub(self, rhs: Self) -> (r: Self)
        ensures
            r == self.sub_spec(rhs),
    ;

    /// Bitwise exclusive or.
    fn bitxor(self, rhs: Self) -> (r: Self)
        ensures
            r == self.xor_spec(rhs),
    ;

    /// Rotation to the left by `n mod w` bits.
    fn rotate_left(self, n: Self) -> (r: Self)
        ensures
            r == self.rotl_spec(n),
    ;

    /// Rotation to the right by `n mod w` bits.
    fn rotate_right(self, n: Self) -> (r: Self)
        ensures
            r == self.rotr_spec(n),
    ;

    /// Decodes `u` little-endian bytes.
    fn from_le_bytes(bytes: &[u8]) -> (r: Self)
        requires
            bytes@.len() == Self::bytes_spec(),
        ensures
            r == Self::from_le_spec(bytes@),
    ;

    /// Encodes the word as `u` little-endian bytes.
    fn to_le_bytes(self) -> (r: Vec<u8>)
        ensures
            r@ == self.to_le_spec(),
    ;
}

/// Rotation of a `u16` to the left by `n mod 16` bits.
pub open spec fn rotl_u16(x: u16, n: u16) -> u16 {
    let s = n & 15u16;
    let t = (((16 - s) as u16) & 15u16);
    (x << s) | (x >> t)
}

/// Rotation of a `u16` to the right by `n mod 16` bits.
pub open spec fn rotr_u16(x: u16, n: u16) -> u16 {
    let s = n & 15u16;
    let t = (((16 - s) as u16) & 15u16);
    (x >> s) | (x << t)
}

impl Word for u16 {
    open spec fn bytes_spec() -> nat {
        2
    }

    open spec fn from_byte_spec(b: u8) -> u16 {
        b as u16
    }

    open spec fn value_spec(self) -> nat {
        self as nat
    }

    open spec fn p_spec() -> u16 {
        0xb7e1
    }

    open spec fn q_spec() -> u16 {
        0x9e37
    }

    open spec fn add_spec(self, rhs: u16) -> u16 {
        ((self as int + rhs as int) % 0x1_0000) as u16
    }

    open spec fn sub_spec(self, rhs: u16) -> u16 {
        ((self as int - rhs as int) % 0x1_0000) as u16
    }

    open spec fn xor_spec(self, rhs: u16) -> u16 {
        self ^ rhs
    }

    open spec fn rotl_spec(self, n: u16) -> u16 {
        rotl_u16(self, n)
    }

    open spec fn rotr_spec(self, n: u16) -> u16 {
        rotr_u16(self, n)
    }

    open spec fn from_le_spec(bytes: Seq<u8>) -> u16 {
        spec_u16_from_le_bytes(bytes)
    }

    open spec fn to_le_spec(self) -> Seq<u8> {
        spec_u16_to_le_bytes(self)
    }

    proof fn lemma_bytes_range() {
    }

    proof fn lemma_zero_value() {
    }

    proof fn lemma_shift_in_byte(x: u16, b: u8) {
        reveal_with_fuel(pow256, 2);
        assert(pow256(1) == 0x100);
        assert(x < 0x100 ==> rotl_u16(x, 8) == x << 8) by (bit_vector);
        lemma2_to64();
        lemma_u16_shl_is_mul(x, 8);
    }

    proof fn lemma_sub_undoes_add(a: u16, b: u16) {
    }

    proof fn lemma_add_undoes_sub(a: u16, b: u16) {
    }

    proof fn lemma_rotl_undoes_rotr(a: u16, n: u16) {
        assert(rotl_u16(rotr_u16(a, n), n) == a) by (bit_vector);
    }

    proof fn lemma_xor_twice(a: u16, b: u16) {
        assert((a ^ b) ^ b == a) by (bit_vector);
    }

    proof fn lemma_rotr_undoes_rotl(a: u16, n: u16) {
        assert(rotr_u16(rotl_u16(a, n), n) == a) by (bit_vector);
    }

    proof fn lemma_decode_encode(a: u16) {
        lemma_auto_spec_u16_to_from_le_bytes();
        assert(spec_u16_to_le_bytes(a).len() == 2);
    }

    proof fn lemma_encode_decode(bytes: Seq<u8>) {
        lemma_auto_spec_u16_to_from_le_bytes();
    }

    fn bytes() -> (r: usize) {
        2
    }

    fn from_byte(b: u8) -> (r: u16) {
        b as u16
    }

    fn p() -> (r: u16) {
        0xb7e1
    }

    fn q() -> (r: u16) {
        0x9e37
    }

    fn wrapping_add(self, rhs: u16) -> (r: u16) {
        u16::wrapping_add(self, rhs)
    }

    fn wrapping_sub(self, rhs: u16) -> (r: u16) {
        u16::wrapping_sub(self, rhs)
    }

    fn bitxor(self, rhs: u16) -> (r: u16) {
        self ^ rhs
    }

    fn rotate_left(self, n: u16) -> (r: u16) {
        assert(n & 15u16 <= 15 && (((16 - (n & 15u16)) as u16) & 15u16) <= 15) by (bit_vector);
        let s = n & 15;
        let t = (16 - s) & 15;
        (self << s) | (self >> t)
    }

    fn rotate_right(self, n: u16) -> (r: u16) {
        assert(n & 15u16 <= 15 && (((16 - (n & 15u16)) as u16) & 15u16) <= 15) by (bit_vector);
        let s = n & 15;
        let t = (16 - s) & 15;
        (self >> s) | (self << t)
    }

    fn from_le_bytes(bytes: &[u8]) -> (r: u16) {
        u16_from_le_bytes(bytes)
    }

    fn to_le_bytes(self) -> (r: Vec<u8>) {
        u16_to_le_bytes(self)
    }
}

/// Rotation of a `u32` to the left by `n mod 32` bits.
pub open spec fn rotl_u32(x: u32, n: u32) -> u32 {
    let s = n & 31u32;
    let t = (((32 - s) as u32) & 31u32);
    (x << s) | (x >> t)
}

/// Rotation of a `u32` to the right by `n mod 32` bits.
pub open spec fn rotr_u32(x: u32, n: u32) -> u32 {
    let s = n & 31u32;
    let t = (((32 - s) as u32) & 31u32);
    (x >> s) | (x << t)
}

impl Word for u32 {
    open spec fn bytes_spec() -> nat {
        4
    }

    open spec fn from_byte_spec(b: u8) -> u32 {
        b as u32
    }

    open spec fn value_spec(self) -> nat {
        self as nat
    }

    open spec fn p_spec() -> u32 {
        0xb7e1_5163
    }

    open spec fn q_spec() -> u32 {
        0x9e37_79b9
    }

    open spec fn add_spec(self, rhs: u32) -> u32 {
        ((self as int + rhs as int) % 0x1_0000_0000) as u32
    }

    open spec fn sub_spec(self, rhs: u32) -> u32 {
        ((self as int - rhs as int) % 0x1_0000_0000) as u32
    }

    open spec fn xor_spec(self, rhs: u32) -> u32 {
        self ^ rhs
    }

    open spec fn rotl_spec(self, n: u32) -> u32 {
        rotl_u32(self, n)
    }

    open spec fn rotr_spec(self, n: u32) -> u32 {
        rotr_u32(self, n)
    }

    open spec fn from_le_spec(bytes: Seq<u8>) -> u32 {
        spec_u32_from_le_bytes(bytes)
    }

    open spec fn to_le_spec(self) -> Seq<u8> {
        spec_u32_to_le_bytes(self)
    }

    proof fn lemma_bytes_range() {
    }

    proof fn lemma_zero_value() {
    }

    proof fn lemma_shift_in_byte(x: u32, b: u8) {
        reveal_with_fuel(pow256, 4);
        assert(pow256(3) == 0x100_0000);
        assert(x < 0x100_0000 ==> rotl_u32(x, 8) == x << 8) by (bit_vector);
        lemma2_to64();
        lemma_u32_shl_is_mul(x, 8);
    }

    proof fn lemma_sub_undoes_add(a: u32, b: u32) {
    }

    proof fn lemma_add_undoes_sub(a: u32, b: u32) {
    }

    proof fn lemma_rotl_undoes_rotr(a: u32, n: u32) {
        assert(rotl_u32(rotr_u32(a, n), n) == a) by (bit_vector);
    }

    proof fn lemma_xor_twice(a: u32, b: u32) {
        assert((a ^ b) ^ b == a) by (bit_vector);
    }

    proof fn lemma_rotr_undoes_rotl(a: u32, n: u32) {
        assert(rotr_u32(rotl_u32(a, n), n) == a) by (bit_vector);
    }

    proof fn lemma_decode_encode(a: u32) {
        lemma_auto_spec_u32_to_from_le_bytes();
        assert(spec_u32_to_le_bytes(a).len() == 4);
    }

    proof fn lemma_encode_decode(bytes: Seq<u8>) {
        lemma_auto_spec_u32_to_from_le_bytes();
    }

    fn bytes() -> (r: usize) {
        4
    }

    fn from_byte(b: u8) -> (r: u32) {
        b as u32
    }

    fn p() -> (r: u32) {
        0xb7e1_5163
    }

    fn q() -> (r: u32) {
        0x9e37_79b9
    }

    fn wrapping_add(self, rhs: u32) -> (r: u32) {
        u32::wrapping_add(self, rhs)
    }

    fn wrapping_sub(self, rhs: u32) -> (r: u32) {
        u32::wrapping_sub(self, rhs)
    }

    fn bitxor(self, rhs: u32) -> (r: u32) {
        self ^ rhs
    }

    fn rotate_left(self, n: u32) -> (r: u32) {
        assert(n & 31u32 <= 31 && (((32 - (n & 31u32)) as u32) & 31u32) <= 31) by (bit_vector);
        let s = n & 31;
        let t = (32 - s) & 31;
        (self << s) | (self >> t)
    }

    fn rotate_right(self, n: u32) -> (r: u32) {
        assert(n & 31u32 <= 31 && (((32 - (n & 31u32)) as u32) & 31u32) <= 31) by (bit_vector);
        let s = n & 31;
        let t = (32 - s) & 31;
        (self >> s) | (self << t)
    }

    fn from_le_bytes(bytes: &[u8]) -> (r: u32) {
        u32_from_le_bytes(bytes)
    }

    fn to_le_bytes(self) -> (r: Vec<u8>) {
        u32_to_le_bytes(self)
    }
}

/// Rotation of a `u64` to the left by `n mod 64` bits.
pub open spec fn rotl_u64(x: u64, n: u64) -> u64 {
    let s = n & 63u64;
    let t = (((64 - s) as u64) & 63u64);
    (x << s) | (x >> t)
}

/// Rotation of a `u64` to the right by `n mod 64` bits.
pub open spec fn rotr_u64(x: u64, n: u64) -> u64 {
    let s = n & 63u64;
    let t = (((64 - s) as u64) & 63u64);
    (x >> s) | (x << t)
}

impl Word for u64 {
    open spec fn bytes_spec() -> nat {
        8
    }

    open spec fn from_byte_spec(b: u8) -> u64 {
        b as u64
    }

    open spec fn value_spec(self) -> nat {
        self as nat
    }

    open spec fn p_spec() -> u64 {
        0xb7e1_5162_8aed_2a6b
    }

    open spec fn q_spec() -> u64 {
        0x9e37_79b9_7f4a_7c15
    }

    open spec fn add_spec(self, rhs: u64) -> u64 {
        ((self as int + rhs as int) % 0x1_0000_0000_0000_0000) as u64
    }

    open spec fn sub_spec(self, rhs: u64) -> u64 {
        ((self as int - rhs as int) % 0x1_0000_0000_0000_0000) as u64
    }

    open spec fn xor_spec(self, rhs: u64) -> u64 {
        self ^ rhs
    }

    open spec fn rotl_spec(self, n: u64) -> u64 {
        rotl_u64(self, n)
    }

    open spec fn rotr_spec(self, n: u64) -> u64 {
        rotr_u64(self, n)
    }

    open spec fn from_le_spec(bytes: Seq<u8>) -> u64 {
        spec_u64_from_le_bytes(bytes)
    }

    open spec fn to_le_spec(self) -> Seq<u8> {
        spec_u64_to_le_bytes(self)
    }

    proof fn lemma_bytes_range() {
    }

    proof fn lemma_zero_value() {
    }

    proof fn lemma_shift_in_byte(x: u64, b: u8) {
        reveal_with_fuel(pow256, 8);
        assert(pow256(7) == 0x100_0000_0000_0000);
        assert(x < 0x100_0000_0000_0000 ==> rotl_u64(x, 8) == x << 8) by (bit_vector);
        lemma2_to64();
        lemma_u64_shl_is_mul(x, 8);
    }

    proof fn lemma_sub_undoes_add(a: u64, b: u64) {
    }

    proof fn lemma_add_undoes_sub(a: u64, b: u64) {
    }

    proof fn lemma_rotl_undoes_rotr(a: u64, n: u64) {
        assert(rotl_u64(rotr_u64(a, n), n) == a) by (bit_vector);
    }

    proof fn lemma_xor_twice(a: u64, b: u64) {
        assert((a ^ b) ^ b == a) by (bit_vector);
    }

    proof fn lemma_rotr_undoes_rotl(a: u64, n: u64) {
        assert(rotr_u64(rotl_u64(a, n), n) == a) by (bit_vector);
    }

    proof fn lemma_decode_encode(a: u64) {
        lemma_auto_spec_u64_to_from_le_bytes();
        assert(spec_u64_to_le_bytes(a).len() == 8);
    }

    proof fn lemma_encode_decode(bytes: Seq<u8>) {
        lemma_auto_spec_u64_to_from_le_bytes();
    }

    fn bytes() -> (r: usize) {
        8
    }

    fn from_byte(b: u8) -> (r: u64) {
        b as u64
    }

    fn p() -> (r: u64) {
        0xb7e1_5162_8aed_2a6b
    }

    fn q() -> (r: u64) {
        0x9e37_79b9_7f4a_7c15
    }

    fn wrapping_add(self, rhs: u64) -> (r: u64) {
        u64::wrapping_add(self, rhs)
    }

    fn wrapping_sub(self, rhs: u64) -> (r: u64) {
        u64::wrapping_sub(self, rhs)
    }

    fn bitxor(self, rhs: u64) -> (r: u64) {
        self ^ rhs
    }

    fn rotate_left(self, n: u64) -> (r: u64) {
        assert(n & 63u64 <= 63 && (((64 - (n & 63u64)) as u64) & 63u64) <= 63) by (bit_vector);
        let s = n & 63;
        let t = (64 - s) & 63;
        (self << s) | (self >> t)
    }

    fn rotate_right(self, n: u64) -> (r: u64) {
        assert(n & 63u64 <= 63 && (((64 - (n & 63u64)) as u64) & 63u64) <= 63) by (bit_vector);
        let s = n & 63;
        let t = (64 - s) & 63;
        (self >> s) | (self << t)
    }

    fn from_le_bytes(bytes: &[u8]) -> (r: u64) {
        u64_from_le_bytes(bytes)
    }

    fn to_le_bytes(self) -> (r: Vec<u8>) {
        u64_to_le_bytes(self)
    }
}

} // verus!
