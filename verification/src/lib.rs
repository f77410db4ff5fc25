//! Conversion and canonical-encoding layer for BLS12-381 field elements and
//! curve points, together with the zkLogin address/nonce derivation helpers
//! built on top of them.
//!
//! Two independent in-memory representations of the same algebraic objects
//! exist in the surrounding ecosystem: a general-purpose algebra library
//! ("library A", arkworks) and a performance-optimized pairing library
//! ("library B", blst).  This crate holds the verified bridge between the two
//! boundary forms, and the compressed (Zcash-convention) point codec.

use vstd::prelude::*;

pub mod codec;
pub mod extensions;
pub mod points;
pub mod fields;
pub mod words;
pub mod zklogin;

verus! {

/// Errors surfaced by the fallible operations of this crate.
#[derive(Clone, Copy, Debug, PartialEq, Eq, Structural)]
pub enum CryptoError {
    /// An input string or buffer was rejected.
    InvalidInput,
    /// An input exceeded the stated length bound; carries the bound.
    InputTooLong(usize),
}

} // verus!
