//! Unified Address receivers, their raw encoding and the F4Jumble permutation,
//! and the decoding, planning and assembly of a transparent spend.

pub mod typecode;
pub mod order;
pub mod blake2b;
pub mod f4jumble;
pub mod error;
pub mod receiver;
pub mod address;
pub mod transaction;
pub mod hexadecimal;
pub mod keys;
pub mod builder;
pub mod spend;

pub use address::{Address, MAINNET, REGTEST, TESTNET};
pub use error::ParseError;
pub use receiver::Receiver;
pub use typecode::Typecode;
