//! The handshake phase of the Noise Protocol Framework: protocol-name parsing,
//! pattern expansion, the symmetric state and the handshake state machine.
//! Cryptographic primitives are supplied by the caller through the traits in
//! `types`.
pub mod constants;
pub mod text;
pub mod error;
pub mod utils;
pub mod patterns;
pub mod params;
pub mod types;
pub mod symmetricstate;
pub mod handshakestate;
