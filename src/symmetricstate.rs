//! The running transcript hash, chaining key and handshake cipher key.
use vstd::prelude::*;
use crate::constants::{CIPHERKEYLEN, MAXHASHLEN, TAGLEN};
use crate::error::Error;
use crate::types::Cipher;

verus! {

/// `data` with each of its bytes appended to `dst`.
pub fn append_bytes(dst: &mut Vec<u8>, data: &[u8])
    ensures
        final(dst)@ == old(dst)@ + data@,
{
    let mut i: usize = 0;
    while i < data.len()
        invariant
            i <= data@.len(),
            dst@ == old(dst)@ + data@.subrange(0, i as int),
        decreases data@.len() - i,
    {
        dst.push(data[i]);
        i = i + 1;
        assert(dst@ =~= old(dst)@ + data@.subrange(0, i as int));
    }
    assert(data@.subrange(0, data@.len() as int) =~= data@);
}

/// The first `n` bytes of `data`.
pub fn prefix_bytes(data: &[u8], n: usize) -> (r: Vec<u8>)
    requires
        n <= data@.len(),
    ensures
        r@ == data@.subrange(0, n as int),
{
    let mut r: Vec<u8> = Vec::new();
    let mut i: usize = 0;
    while i < n
        invariant
            n <= data@.len(),
            i <= n,
            r@ == data@.subrange(0, i as int),
        decreases n - i,
    {
        r.push(data[i]);
        i = i + 1;
        assert(r@ =~= data@.subrange(0, i as int));
    }
    r
}

/// The key padded to the block length, each byte XORed with `pad`.
pub open spec fn padded_key(key: Seq<u8>, pad: u8, block_len: nat) -> Seq<u8> {
    Seq::new(block_len, |i: int| if i < key.len() { key[i] ^ pad } else { pad })
}

/// HMAC of `data` under `key`, for a key no longer than a block.
pub open spec fn hmac<H: crate::types::Hash>(hasher: H, key: Seq<u8>, data: Seq<u8>) -> Seq<u8> {
    let bl = hasher.spec_block_len();
    hasher.digest(padded_key(key, 0x5cu8, bl) + hasher.digest(padded_key(key, 0x36u8, bl) + data))
}

/// The three outputs of HKDF with chaining key `ck` and input key material `ikm`.
pub open spec fn hkdf<H: crate::types::Hash>(hasher: H, ck: Seq<u8>, ikm: Seq<u8>) -> (Seq<u8>, Seq<u8>, Seq<u8>) {
    let prk = hmac(hasher, ck, ikm);
    let o1 = hmac(hasher, prk, seq![1u8]);
    let o2 = hmac(hasher, prk, o1 + seq![2u8]);
    let o3 = hmac(hasher, prk, o2 + seq![3u8]);
    (o1, o2, o3)
}

/// The hash a protocol name starts the transcript with: the name padded with
/// zeros where it fits in HASHLEN bytes, its digest otherwise.
pub open spec fn initial_hash<H: crate::types::Hash>(hasher: H, name: Seq<u8>) -> Seq<u8> {
    if name.len() <= hasher.spec_hash_len() {
        name + Seq::new((hasher.spec_hash_len() - name.len()) as nat, |i: int| 0u8)
    } else {
        hasher.digest(name)
    }
}

/// `mix_hash` on the model `(h, ck, k, has_key, n)` of a symmetric state.
pub open spec fn m_mix_hash<H: crate::types::Hash>(hasher: H, st: (Seq<u8>, Seq<u8>, Seq<u8>, bool, u64), data: Seq<u8>)
    -> (Seq<u8>, Seq<u8>, Seq<u8>, bool, u64) {
    (hasher.digest(st.0 + data), st.1, st.2, st.3, st.4)
}

/// `mix_key` on the model of a symmetric state.
pub open spec fn m_mix_key<H: crate::types::Hash>(hasher: H, st: (Seq<u8>, Seq<u8>, Seq<u8>, bool, u64), ikm: Seq<u8>)
    -> (Seq<u8>, Seq<u8>, Seq<u8>, bool, u64) {
    let o = hkdf(hasher, st.1, ikm);
    (st.0, o.0, o.1.subrange(0, CIPHERKEYLEN as int), true, 0)
}

/// `mix_key_and_hash` on the model of a symmetric state.
pub open spec fn m_mix_key_and_hash<H: crate::types::Hash>(hasher: H, st: (Seq<u8>, Seq<u8>, Seq<u8>, bool, u64), ikm: Seq<u8>)
    -> (Seq<u8>, Seq<u8>, Seq<u8>, bool, u64) {
    let o = hkdf(hasher, st.1, ikm);
    (hasher.digest(st.0 + o.1), o.0, o.2.subrange(0, CIPHERKEYLEN as int), true, 0)
}

/// What `encrypt_and_mix_hash` puts out for `pt` from the model of a state.
pub open spec fn m_ct<C: Cipher>(cipher: C, st: (Seq<u8>, Seq<u8>, Seq<u8>, bool, u64), pt: Seq<u8>) -> Seq<u8> {
    if st.3 { cipher.seal(st.2, st.4, st.0, pt) } else { pt }
}

/// The model after `encrypt_and_mix_hash` of `pt`.
pub open spec fn m_encrypt<H: crate::types::Hash, C: Cipher>(hasher: H, cipher: C, st: (Seq<u8>, Seq<u8>, Seq<u8>, bool, u64), pt: Seq<u8>)
    -> (Seq<u8>, Seq<u8>, Seq<u8>, bool, u64) {
    (hasher.digest(st.0 + m_ct(cipher, st, pt)), st.1, st.2, st.3, if st.3 { (st.4 + 1) as u64 } else { st.4 })
}

/// What `decrypt_and_mix_hash` gives back for `ct` from the model of a state:
/// its decryption once a key is set, `ct` itself before.
pub open spec fn m_pt<C: Cipher>(cipher: C, st: (Seq<u8>, Seq<u8>, Seq<u8>, bool, u64), ct: Seq<u8>) -> Option<Seq<u8>> {
    if st.3 { cipher.open(st.2, st.4, st.0, ct) } else { Some(ct) }
}

/// The model after `decrypt_and_mix_hash` of `ct`.
pub open spec fn m_decrypt<H: crate::types::Hash>(hasher: H, st: (Seq<u8>, Seq<u8>, Seq<u8>, bool, u64), ct: Seq<u8>)
    -> (Seq<u8>, Seq<u8>, Seq<u8>, bool, u64) {
    (hasher.digest(st.0 + ct), st.1, st.2, st.3, if st.3 { (st.4 + 1) as u64 } else { st.4 })
}

/// Whether a cipher opens what it seals.
pub open spec fn opens_what_it_seals<C: Cipher>(cipher: C) -> bool {
    forall|k: Seq<u8>, n: u64, ad: Seq<u8>, pt: Seq<u8>| #[trigger] cipher.open(k, n, ad, cipher.seal(k, n, ad, pt)) == Some(pt)
}

/// For a cipher that opens what it seals, decrypting what
/// `encrypt_and_mix_hash` put out from the same state gives back the
/// plaintext and leaves the reader in the writer's new state.
pub proof fn lemma_encrypt_then_decrypt<H: crate::types::Hash, C: Cipher>(
    hasher: H,
    cipher: C,
    st: (Seq<u8>, Seq<u8>, Seq<u8>, bool, u64),
    pt: Seq<u8>,
)
    requires
        opens_what_it_seals(cipher),
    ensures
        m_pt(cipher, st, m_ct(cipher, st, pt)) == Some(pt),
        m_decrypt(hasher, st, m_ct(cipher, st, pt)) == m_encrypt(hasher, cipher, st, pt),
{
    if st.3 {
        assert(cipher.open(st.2, st.4, st.0, cipher.seal(st.2, st.4, st.0, pt)) == Some(pt));
    }
}

/// The part of a symmetric state that a failed message rolls back.
#[derive(Debug)]
pub struct SymmetricStateData {
    /// The transcript hash.
    pub h: Vec<u8>,
    /// The chaining key.
    pub ck: Vec<u8>,
    /// The cipher key, meaningful once `has_key`.
    pub k: Vec<u8>,
    pub has_key: bool,
    /// The nonce of the next encryption or decryption.
    pub n: u64,
}

/// A transport cipher state: a key and the nonce of its next message.
#[derive(Debug)]
pub struct CipherState {
    pub k: Vec<u8>,
    pub n: u64,
    pub has_key: bool,
}

/// The hash, chaining key and cipher key of a handshake.
pub struct SymmetricState<H: crate::types::Hash, C: Cipher> {
    pub hasher: H,
    pub cipher: C,
    pub inner: SymmetricStateData,
}

impl SymmetricStateData {
    /// The fields as values.
    pub open spec fn model(&self) -> (Seq<u8>, Seq<u8>, Seq<u8>, bool, u64) {
        (self.h@, self.ck@, self.k@, self.has_key, self.n)
    }

    /// A copy of every field.
    pub fn copy(&self) -> (r: SymmetricStateData)
        ensures
            r.model() == self.model(),
    {
        let h = vstd::slice::slice_to_vec(self.h.as_slice());
        let ck = vstd::slice::slice_to_vec(self.ck.as_slice());
        let k = vstd::slice::slice_to_vec(self.k.as_slice());
        SymmetricStateData { h, ck, k, has_key: self.has_key, n: self.n }
    }
}

impl<H: crate::types::Hash, C: Cipher> SymmetricState<H, C> {
    /// The lengths the fields keep.
    pub open spec fn wf(&self) -> bool {
        &&& CIPHERKEYLEN <= self.hasher.spec_hash_len() <= self.hasher.spec_block_len()
        &&& self.hasher.spec_hash_len() <= MAXHASHLEN
        &&& self.inner.h@.len() == self.hasher.spec_hash_len()
        &&& self.inner.ck@.len() == self.hasher.spec_hash_len()
        &&& self.inner.k@.len() == CIPHERKEYLEN
    }

    pub open spec fn spec_mix_hash(&self, data: Seq<u8>) -> Seq<u8> {
        self.hasher.digest(self.inner.h@ + data)
    }

    /// A state that starts the transcript with a protocol name.
    pub fn new(cipher: C, hasher: H, name: &[u8]) -> (r: Self)
        ensures
            r.wf(),
            r.hasher == hasher,
            r.cipher == cipher,
            r.inner.h@ == initial_hash(hasher, name@),
            r.inner.ck@ == initial_hash(hasher, name@),
            !r.inner.has_key,
            r.inner.n == 0,
    {
        let hash_len = hasher.hash_len();
        // called for its contract: the block length is at least the hash length
        let _block_len = hasher.block_len();
        let h = if name.len() <= hash_len {
            let mut h: Vec<u8> = Vec::new();
            append_bytes(&mut h, name);
            let mut i: usize = name.len();
            while i < hash_len
                invariant
                    name@.len() <= i <= hash_len,
                    h@ == name@ + Seq::new((i - name@.len()) as nat, |j: int| 0u8),
                decreases hash_len - i,
            {
                h.push(0u8);
                i = i + 1;
                assert(h@ =~= name@ + Seq::new((i - name@.len()) as nat, |j: int| 0u8));
            }
            h
        } else {
            hasher.hash(name)
        };
        let ck = vstd::slice::slice_to_vec(h.as_slice());
        let mut k: Vec<u8> = Vec::new();
        let mut i: usize = 0;
        while i < CIPHERKEYLEN
            invariant
                i <= CIPHERKEYLEN,
                k@.len() == i,
            decreases CIPHERKEYLEN - i,
        {
            k.push(0u8);
            i = i + 1;
        }
        SymmetricState { hasher, cipher, inner: SymmetricStateData { h, ck, k, has_key: false, n: 0 } }
    }

    /// HMAC over this state's hash.
    fn hmac(&self, key: &[u8], data: &[u8]) -> (r: Vec<u8>)
        requires
            key@.len() <= self.hasher.spec_block_len(),
        ensures
            r@ == hmac(self.hasher, key@, data@),
            r@.len() == self.hasher.spec_hash_len(),
    {
        let bl = self.hasher.block_len();
        let mut ipad: Vec<u8> = Vec::new();
        let mut opad: Vec<u8> = Vec::new();
        let mut i: usize = 0;
        while i < bl
            invariant
                key@.len() <= bl,
                i <= bl,
                ipad@ == padded_key(key@, 0x36u8, bl as nat).subrange(0, i as int),
                opad@ == padded_key(key@, 0x5cu8, bl as nat).subrange(0, i as int),
            decreases bl - i,
        {
            if i < key.len() {
                ipad.push(key[i] ^ 0x36u8);
                opad.push(key[i] ^ 0x5cu8);
            } else {
                ipad.push(0x36u8);
                opad.push(0x5cu8);
            }
            i = i + 1;
            assert(ipad@ =~= padded_key(key@, 0x36u8, bl as nat).subrange(0, i as int));
            assert(opad@ =~= padded_key(key@, 0x5cu8, bl as nat).subrange(0, i as int));
        }
        assert(ipad@ =~= padded_key(key@, 0x36u8, bl as nat));
        assert(opad@ =~= padded_key(key@, 0x5cu8, bl as nat));
        append_bytes(&mut ipad, data);
        let inner = self.hasher.hash(ipad.as_slice());
        append_bytes(&mut opad, inner.as_slice());
        self.hasher.hash(opad.as_slice())
    }

    /// The three HKDF outputs from the chaining key and `ikm`.
    fn hkdf(&self, ikm: &[u8]) -> (r: (Vec<u8>, Vec<u8>, Vec<u8>))
        requires
            self.wf(),
        ensures
            (r.0@, r.1@, r.2@) == hkdf(self.hasher, self.inner.ck@, ikm@),
            r.0@.len() == self.hasher.spec_hash_len(),
            r.1@.len() == self.hasher.spec_hash_len(),
            r.2@.len() == self.hasher.spec_hash_len(),
    {
        let prk = self.hmac(self.inner.ck.as_slice(), ikm);
        let mut in1: Vec<u8> = Vec::new();
        in1.push(1u8);
        let o1 = self.hmac(prk.as_slice(), in1.as_slice());
        let mut in2 = vstd::slice::slice_to_vec(o1.as_slice());
        in2.push(2u8);
        let o2 = self.hmac(prk.as_slice(), in2.as_slice());
        let mut in3 = vstd::slice::slice_to_vec(o2.as_slice());
        in3.push(3u8);
        let o3 = self.hmac(prk.as_slice(), in3.as_slice());
        assert(in1@ =~= seq![1u8]);
        assert(in2@ =~= o1@ + seq![2u8]);
        assert(in3@ =~= o2@ + seq![3u8]);
        (o1, o2, o3)
    }

    /// `h = HASH(h || data)`.
    pub fn mix_hash(&mut self, data: &[u8])
        requires
            old(self).wf(),
        ensures
            final(self).wf(),
            final(self).inner.h@ == old(self).spec_mix_hash(data@),
            final(self).inner.ck == old(self).inner.ck,
            final(self).inner.k == old(self).inner.k,
            final(self).inner.has_key == old(self).inner.has_key,
            final(self).inner.n == old(self).inner.n,
            final(self).hasher == old(self).hasher,
            final(self).cipher == old(self).cipher,
    {
        let mut buf = vstd::slice::slice_to_vec(self.inner.h.as_slice());
        append_bytes(&mut buf, data);
        self.inner.h = self.hasher.hash(buf.as_slice());
    }

    /// `(ck, k) = HKDF(ck, ikm)`, with the nonce back at zero.
    pub fn mix_key(&mut self, ikm: &[u8])
        requires
            old(self).wf(),
        ensures
            final(self).wf(),
            final(self).inner.ck@ == hkdf(old(self).hasher, old(self).inner.ck@, ikm@).0,
            final(self).inner.k@ == hkdf(old(self).hasher, old(self).inner.ck@, ikm@).1.subrange(0, CIPHERKEYLEN as int),
            final(self).inner.h == old(self).inner.h,
            final(self).inner.has_key,
            final(self).inner.n == 0,
            final(self).hasher == old(self).hasher,
            final(self).cipher == old(self).cipher,
    {
        let (o1, o2, _o3) = self.hkdf(ikm);
        self.inner.ck = o1;
        self.inner.k = prefix_bytes(o2.as_slice(), CIPHERKEYLEN);
        self.inner.has_key = true;
        self.inner.n = 0;
    }

    /// `(ck, temp_h, k) = HKDF(ck, ikm)`, then `temp_h` is mixed into the
    /// hash, with the nonce back at zero.
    pub fn mix_key_and_hash(&mut self, ikm: &[u8])
        requires
            old(self).wf(),
        ensures
            final(self).wf(),
            final(self).inner.ck@ == hkdf(old(self).hasher, old(self).inner.ck@, ikm@).0,
            final(self).inner.h@ == old(self).spec_mix_hash(hkdf(old(self).hasher, old(self).inner.ck@, ikm@).1),
            final(self).inner.k@ == hkdf(old(self).hasher, old(self).inner.ck@, ikm@).2.subrange(0, CIPHERKEYLEN as int),
            final(self).inner.has_key,
            final(self).inner.n == 0,
            final(self).hasher == old(self).hasher,
            final(self).cipher == old(self).cipher,
    {
        let (o1, o2, o3) = self.hkdf(ikm);
        self.inner.ck = o1;
        self.mix_hash(o2.as_slice());
        self.inner.k = prefix_bytes(o3.as_slice(), CIPHERKEYLEN);
        self.inner.has_key = true;
        self.inner.n = 0;
    }

    pub fn has_key(&self) -> (r: bool)
        ensures
            r == self.inner.has_key,
    {
        self.inner.has_key
    }

    /// Encrypts `plaintext` into `out` at `at` once a key is set (else
    /// copies it), mixes what was written into the hash, and returns its length.
    pub fn encrypt_and_mix_hash(&mut self, plaintext: &[u8], out: &mut [u8], at: usize) -> (r: Result<usize, Error>)
        requires
            old(self).wf(),
            at + plaintext@.len() + if old(self).inner.has_key { TAGLEN as int } else { 0 } <= old(out)@.len(),
        ensures
            final(self).wf(),
            final(out)@.len() == old(out)@.len(),
            final(self).hasher == old(self).hasher,
            final(self).cipher == old(self).cipher,
            final(self).inner.ck == old(self).inner.ck,
            final(self).inner.k == old(self).inner.k,
            final(self).inner.has_key == old(self).inner.has_key,
            match r {
                Ok(len) => {
                    let ct = if old(self).inner.has_key {
                        old(self).cipher.seal(old(self).inner.k@, old(self).inner.n, old(self).inner.h@, plaintext@)
                    } else {
                        plaintext@
                    };
                    &&& len == ct.len()
                    &&& len == plaintext@.len() + if old(self).inner.has_key { TAGLEN as int } else { 0 }
                    &&& at + len <= old(out)@.len()
                    &&& final(out)@.subrange(at as int, at + len) == ct
                    &&& final(out)@.subrange(0, at as int) == old(out)@.subrange(0, at as int)
                    &&& final(self).inner.h@ == old(self).spec_mix_hash(ct)
                    &&& final(self).inner.n == if old(self).inner.has_key { old(self).inner.n + 1 } else { old(self).inner.n as int }
                },
                Err(e) => e == Error::Input && old(self).inner.has_key && old(self).inner.n == u64::MAX,
            },
    {
        if self.inner.has_key {
            if self.inner.n == u64::MAX {
                return Err(Error::Input);
            }
            let ct = self.cipher.encrypt(self.inner.k.as_slice(), self.inner.n, self.inner.h.as_slice(), plaintext);
            let len = crate::utils::copy_at(ct.as_slice(), out, at);
            self.inner.n = self.inner.n + 1;
            self.mix_hash(ct.as_slice());
            Ok(len)
        } else {
            let len = crate::utils::copy_at(plaintext, out, at);
            self.mix_hash(plaintext);
            Ok(len)
        }
    }

    /// Decrypts `data` into the front of `out` once a key is set (else copies
    /// it), mixes `data` into the hash, and returns the length written.
    pub fn decrypt_and_mix_hash(&mut self, data: &[u8], out: &mut [u8]) -> (r: Result<usize, Error>)
        requires
            old(self).wf(),
            data@.len() <= old(out)@.len() + if old(self).inner.has_key { TAGLEN as int } else { 0 },
        ensures
            final(self).wf(),
            final(out)@.len() == old(out)@.len(),
            final(self).hasher == old(self).hasher,
            final(self).cipher == old(self).cipher,
            final(self).inner.ck == old(self).inner.ck,
            final(self).inner.k == old(self).inner.k,
            final(self).inner.has_key == old(self).inner.has_key,
            r is Err ==> final(out)@ == old(out)@,
            match r {
                Ok(len) => {
                    &&& final(out)@.subrange(len as int, final(out)@.len() as int) == old(out)@.subrange(len as int, old(out)@.len() as int)
                    &&& final(self).inner.h@ == old(self).spec_mix_hash(data@)
                    &&& if old(self).inner.has_key {
                        &&& old(self).cipher.open(old(self).inner.k@, old(self).inner.n, old(self).inner.h@, data@)
                            == Some(final(out)@.subrange(0, len as int))
                        &&& len + TAGLEN == data@.len()
                        &&& final(self).inner.n == old(self).inner.n + 1
                    } else {
                        &&& len == data@.len()
                        &&& final(out)@.subrange(0, len as int) == data@
                        &&& final(self).inner.n == old(self).inner.n
                    }
                },
                Err(e) => {
                    &&& e == Error::Decrypt || e == Error::Input
                    &&& e == Error::Decrypt <==> old(self).inner.has_key && old(self).inner.n < u64::MAX
                        && old(self).cipher.open(old(self).inner.k@, old(self).inner.n, old(self).inner.h@, data@) is None
                    &&& e == Error::Input <==> old(self).inner.has_key && old(self).inner.n == u64::MAX
                    &&& final(self).inner.model() == old(self).inner.model()
                },
            },
    {
        if self.inner.has_key {
            if self.inner.n == u64::MAX {
                return Err(Error::Input);
            }
            let pt = match self.cipher.decrypt(self.inner.k.as_slice(), self.inner.n, self.inner.h.as_slice(), data) {
                Some(pt) => pt,
                None => { return Err(Error::Decrypt); },
            };
            let len = crate::utils::copy_memory(pt.as_slice(), out);
            self.inner.n = self.inner.n + 1;
            self.mix_hash(data);
            Ok(len)
        } else {
            let len = crate::utils::copy_memory(data, out);
            self.mix_hash(data);
            Ok(len)
        }
    }

    /// The keys of the two transport cipher states.
    pub open spec fn spec_split_keys(&self) -> (Seq<u8>, Seq<u8>) {
        let (o1, o2, _o3) = hkdf(self.hasher, self.inner.ck@, Seq::empty());
        (o1.subrange(0, CIPHERKEYLEN as int), o2.subrange(0, CIPHERKEYLEN as int))
    }

    /// The two transport cipher states: keys from `HKDF(ck, empty)`, nonces at zero.
    pub fn split(&self) -> (r: (CipherState, CipherState))
        requires
            self.wf(),
        ensures
            (r.0.k@, r.1.k@) == self.spec_split_keys(),
            r.0.k@.len() == CIPHERKEYLEN && r.1.k@.len() == CIPHERKEYLEN,
            r.0.k@ == hkdf(self.hasher, self.inner.ck@, Seq::empty()).0.subrange(0, CIPHERKEYLEN as int),
            r.1.k@ == hkdf(self.hasher, self.inner.ck@, Seq::empty()).1.subrange(0, CIPHERKEYLEN as int),
            r.0.n == 0 && r.1.n == 0,
            r.0.has_key && r.1.has_key,
    {
        let empty: Vec<u8> = Vec::new();
        let (o1, o2, _o3) = self.hkdf(empty.as_slice());
        assert(empty@ =~= Seq::<u8>::empty());
        let c1 = CipherState { k: prefix_bytes(o1.as_slice(), CIPHERKEYLEN), n: 0, has_key: true };
        let c2 = CipherState { k: prefix_bytes(o2.as_slice(), CIPHERKEYLEN), n: 0, has_key: true };
        (c1, c2)
    }

    pub fn handshake_hash(&self) -> (r: &[u8])
        ensures
            r@ == self.inner.h@,
    {
        self.inner.h.as_slice()
    }

    /// A copy of the hash, chaining key, cipher key and nonce.
    pub fn checkpoint(&self) -> (r: SymmetricStateData)
        ensures
            r.model() == self.inner.model(),
    {
        self.inner.copy()
    }

    /// Puts back a copy taken by `checkpoint`.
    pub fn restore(&mut self, checkpoint: SymmetricStateData)
        ensures
            final(self).inner == checkpoint,
            final(self).inner.model() == checkpoint.model(),
            final(self).hasher == old(self).hasher,
            final(self).cipher == old(self).cipher,
    {
        self.inner = checkpoint;
    }
}


/// Restoring a checkpoint gives back exactly the hash, chaining key, cipher
/// key, key flag and nonce of the moment it was taken, whatever happened in
/// between, and the lengths the state keeps with them.
pub proof fn lemma_checkpoint_restore<H: crate::types::Hash, C: Cipher>(
    before: SymmetricState<H, C>,
    checkpoint: SymmetricStateData,
    between: SymmetricState<H, C>,
    after: SymmetricState<H, C>,
)
    requires
        checkpoint.model() == before.inner.model(),
        between.hasher == before.hasher,
        after.inner == checkpoint,
        after.hasher == between.hasher,
    ensures
        after.inner.model() == before.inner.model(),
        before.wf() ==> after.wf(),
{
}

} // verus!
