//! RC5, the parameterised block cipher: a key schedule that expands key bytes
//! into a table of round words, and a block transform (encryption and its
//! inverse) built from modular addition, exclusive or and data-dependent
//! rotation. Words of 16, 32 and 64 bits are supported.

pub mod block_cipher;
pub mod instance;
pub mod key_schedule;
pub mod laws;
pub mod transform;
pub mod word;

pub use block_cipher::RC5_32_12_16;
pub use instance::{Direction, Rc5Error, RC5};
pub use word::Word;
