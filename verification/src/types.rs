//! The concrete value types a call is built from.
//!
//! The library resolves a target runtime's type parameterization once, at
//! setup, to these fixed shapes: gas as `u64`, balances as `u128`, account
//! identifiers and hashes as 32-byte strings. A runtime description whose
//! shapes match these qualifies structurally, whatever its name.

use vstd::prelude::*;

verus! {

/// Gas units are represented by `u64` so that gas metering instructions can
/// operate on them efficiently.
pub type Gas = u64;

/// The balance numeric type a declared `Balances` capability stands for.
pub type Balance = u128;

/// The number of bytes in an account identifier and in a hash.
pub const ID_WIDTH: usize = 32;

/// An account identifier: a 32-byte string, encoded on the wire as its raw
/// bytes with no length prefix.
#[derive(Debug)]
pub struct AccountId {
    pub bytes: Vec<u8>,
}

impl AccountId {
    /// Validity: exactly 32 bytes.
    pub open spec fn wf(self) -> bool {
        self.bytes@.len() == ID_WIDTH
    }
}

/// A content hash: a 32-byte string, encoded on the wire as its raw bytes
/// with no length prefix.
#[derive(Debug)]
pub struct Hash32 {
    pub bytes: Vec<u8>,
}

impl Hash32 {
    /// Validity: exactly 32 bytes.
    pub open spec fn wf(self) -> bool {
        self.bytes@.len() == ID_WIDTH
    }
}

/// An opaque encoded call payload. It carries no semantic information beyond
/// its bytes; equality is byte equality. It is inert data until handed to a
/// transport collaborator.
#[derive(Debug)]
pub struct Encoded {
    pub bytes: Vec<u8>,
}

} // verus!
