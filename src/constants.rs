//! Sizes fixed by the Noise specification.
use vstd::prelude::*;

verus! {

/// Length of a pre-shared key.
pub const PSKLEN: usize = 32;

/// Length of an AEAD authentication tag.
pub const TAGLEN: usize = 16;

/// Largest handshake or transport message.
pub const MAXMSGLEN: usize = 65535;

/// Largest DH public key the handshake state can hold.
pub const MAXDHLEN: usize = 56;

/// Largest hash output.
pub const MAXHASHLEN: usize = 64;

/// Length of a cipher key.
pub const CIPHERKEYLEN: usize = 32;

/// Number of pre-shared key slots.
pub const PSK_SLOTS: usize = 10;

} // verus!
