//! The cryptographic primitives a handshake is built from. The caller
//! supplies them; each trait states what a handshake relies on. The spec
//! functions of each trait describe an implementation's values; their default
//! bodies leave them unspecified, for implementations written outside
//! verified code, and code generic over a trait never sees those bodies.
use vstd::prelude::*;
use crate::constants::{CIPHERKEYLEN, MAXDHLEN, MAXHASHLEN, TAGLEN};

verus! {


/// A source of random bytes.
pub trait Random {
    /// Overwrites every byte of `out`.
    fn fill_bytes(&mut self, out: &mut [u8])
        ensures
            final(out)@.len() == old(out)@.len(),
    ;
}

/// A Diffie-Hellman key pair and the operation on it.
pub trait Dh {
    /// Length of a public key.
    closed spec fn spec_pub_len(&self) -> nat {
        arbitrary()
    }

    /// Length of a private key.
    closed spec fn spec_priv_len(&self) -> nat {
        arbitrary()
    }

    /// The public key of the pair held.
    closed spec fn spec_pubkey(&self) -> Seq<u8> {
        arbitrary()
    }

    /// The shared secret with a remote public key, where there is one.
    closed spec fn shared(&self, remote: Seq<u8>) -> Option<Seq<u8>> {
        arbitrary()
    }

    fn name(&self) -> &'static str;

    fn pub_len(&self) -> (r: usize)
        ensures
            r == self.spec_pub_len(),
            0 < r <= MAXDHLEN,
    ;

    fn priv_len(&self) -> (r: usize)
        ensures
            r == self.spec_priv_len(),
    ;

    /// Takes the private key `privkey` and the public key that belongs to it.
    fn set(&mut self, privkey: &[u8])
        requires
            privkey@.len() == old(self).spec_priv_len(),
        ensures
            final(self).spec_pub_len() == old(self).spec_pub_len(),
            final(self).spec_priv_len() == old(self).spec_priv_len(),
    ;

    fn pubkey(&self) -> (r: &[u8])
        ensures
            r@ == self.spec_pubkey(),
            r@.len() == self.spec_pub_len(),
    ;

    /// The shared secret with `pubkey`, or an error where the operation fails.
    fn dh(&self, pubkey: &[u8]) -> (r: Result<Vec<u8>, ()>)
        requires
            pubkey@.len() == self.spec_pub_len(),
        ensures
            match r {
                Ok(out) => self.shared(pubkey@) == Some(out@) && out@.len() == self.spec_pub_len(),
                Err(_) => self.shared(pubkey@) is None,
            },
    ;
}

/// A hash function with its HASHLEN and block length.
pub trait Hash {
    closed spec fn spec_hash_len(&self) -> nat {
        arbitrary()
    }

    closed spec fn spec_block_len(&self) -> nat {
        arbitrary()
    }

    /// The digest of `data`.
    closed spec fn digest(&self, data: Seq<u8>) -> Seq<u8> {
        arbitrary()
    }

    fn name(&self) -> &'static str;

    fn hash_len(&self) -> (r: usize)
        ensures
            r == self.spec_hash_len(),
            CIPHERKEYLEN <= r <= MAXHASHLEN,
    ;

    fn block_len(&self) -> (r: usize)
        ensures
            r == self.spec_block_len(),
            self.spec_hash_len() <= r <= 256,
    ;

    fn hash(&self, data: &[u8]) -> (r: Vec<u8>)
        ensures
            r@ == self.digest(data@),
            r@.len() == self.spec_hash_len(),
    ;
}

/// An AEAD cipher with 32-byte keys, 64-bit nonces and 16-byte tags.
pub trait Cipher {
    /// The ciphertext and tag of `pt`.
    closed spec fn seal(&self, key: Seq<u8>, nonce: u64, ad: Seq<u8>, pt: Seq<u8>) -> Seq<u8> {
        arbitrary()
    }

    /// The plaintext of `ct`, where its tag checks.
    closed spec fn open(&self, key: Seq<u8>, nonce: u64, ad: Seq<u8>, ct: Seq<u8>) -> Option<Seq<u8>> {
        arbitrary()
    }

    fn name(&self) -> &'static str;

    fn encrypt(&self, key: &[u8], nonce: u64, ad: &[u8], plaintext: &[u8]) -> (r: Vec<u8>)
        requires
            key@.len() == CIPHERKEYLEN,
        ensures
            r@ == self.seal(key@, nonce, ad@, plaintext@),
            r@.len() == plaintext@.len() + TAGLEN,
    ;

    fn decrypt(&self, key: &[u8], nonce: u64, ad: &[u8], ciphertext: &[u8]) -> (r: Option<Vec<u8>>)
        requires
            key@.len() == CIPHERKEYLEN,
        ensures
            match r {
                Some(pt) => self.open(key@, nonce, ad@, ciphertext@) == Some(pt@)
                    && pt@.len() + TAGLEN == ciphertext@.len(),
                None => self.open(key@, nonce, ad@, ciphertext@) is None,
            },
    ;
}

} // verus!
