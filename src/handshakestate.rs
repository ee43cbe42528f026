//! The handshake state machine.
use vstd::prelude::*;
use crate::constants::{CIPHERKEYLEN, MAXMSGLEN, PSKLEN, PSK_SLOTS, TAGLEN};
use crate::error::{Error, InitStage, PatternProblem, StateProblem};
use crate::params::NoiseParams;
use crate::patterns::{expand, has_psk, HandshakeTokens, Token};
use crate::symmetricstate::{
    opens_what_it_seals, CipherState, SymmetricState, hkdf, initial_hash, m_ct, m_decrypt, m_encrypt, m_mix_hash, m_mix_key,
    m_mix_key_and_hash, m_pt,
};
use vstd::utf8::encode_utf8;
use crate::types::{Cipher, Dh, Random};
use crate::utils::{copy_at, Toggle};
use vstd::slice::slice_subrange;

verus! {

/// Which keys a DH token combines for the side that runs it: whether the
/// local key is the static one, and whether the remote key is.
pub open spec fn dh_roles(tok: Token, initiator: bool) -> (bool, bool) {
    match tok {
        Token::Dhee => (false, false),
        Token::Dhss => (true, true),
        Token::Dhes => if initiator { (false, true) } else { (true, false) },
        _ => if initiator { (true, false) } else { (false, true) },
    }
}

/// The tokens from `i` on: the token at `i`, then those from `i + 1` on.
proof fn lemma_step(toks: Seq<Token>, i: int)
    requires
        0 <= i < toks.len(),
    ensures
        toks.subrange(i, toks.len() as int).len() > 0,
        toks.subrange(i, toks.len() as int)[0] == toks[i],
        toks.subrange(i, toks.len() as int).drop_first() == toks.subrange(i + 1, toks.len() as int),
{
    assert(toks.subrange(i, toks.len() as int).drop_first() =~= toks.subrange(i + 1, toks.len() as int));
}

/// Key material that does not fit this handshake: the ephemeral and the
/// remote key buffers must take public keys as long as the static one's.
/// Every slot is always allocated and filled during the handshake, so the
/// check covers slots that are off too.
pub open spec fn bad_key_lengths<D: Dh>(s: Toggle<D>, e: Toggle<D>, rs: Toggle<Vec<u8>>, re: Toggle<Vec<u8>>) -> bool {
    e.inner.spec_pub_len() != s.inner.spec_pub_len() || rs.inner@.len() < s.inner.spec_pub_len()
        || re.inner@.len() < s.inner.spec_pub_len()
}

/// Pre-shared key slots that are not ten, or a key that is not 32 bytes.
pub open spec fn bad_psk_lengths(psks: Seq<Option<Vec<u8>>>) -> bool {
    psks.len() != PSK_SLOTS || exists|i: int| 0 <= i < psks.len() && #[trigger] psks[i] is Some && psks[i]->Some_0@.len() != PSKLEN
}

/// The model `(h, ck, k, has_key, n)` of a symmetric state.
pub type SymModel = (Seq<u8>, Seq<u8>, Seq<u8>, bool, u64);

/// The shared secret a DH token yields for the side that runs it, from its
/// key slots (`rs` and `re` as on-flag and contents); an error where a key
/// it needs is off or the DH fails.
pub open spec fn dh_of<D: Dh>(
    tok: Token,
    initiator: bool,
    s: Toggle<D>,
    e: Toggle<D>,
    rs: (bool, Seq<u8>),
    re: (bool, Seq<u8>),
) -> Result<Seq<u8>, Error> {
    let (ls, rm) = dh_roles(tok, initiator);
    let local = if ls { s } else { e };
    let remote = if rm { rs } else { re };
    if !local.on || !remote.0 {
        Err(Error::State(StateProblem::MissingKeyMaterial))
    } else {
        match local.inner.shared(remote.1.subrange(0, s.inner.spec_pub_len() as int)) {
            Some(out) => Ok(out),
            None => Err(Error::Dh),
        }
    }
}

/// The effect of a `Psk` or DH token on the symmetric state.
pub open spec fn key_step<D: Dh, H: crate::types::Hash>(
    hasher: H,
    tok: Token,
    st: SymModel,
    s: Toggle<D>,
    e: Toggle<D>,
    rs: (bool, Seq<u8>),
    re: (bool, Seq<u8>),
    initiator: bool,
    psks: Seq<Option<Vec<u8>>>,
) -> Result<SymModel, Error> {
    match tok {
        Token::Psk(n) => if n < psks.len() && psks[n as int] is Some {
            Ok(m_mix_key_and_hash(hasher, st, psks[n as int]->Some_0@))
        } else {
            Err(Error::State(StateProblem::MissingPsk))
        },
        _ => match dh_of(tok, initiator, s, e, rs, re) {
            Ok(out) => Ok(m_mix_key(hasher, st, out)),
            Err(err) => Err(err),
        },
    }
}

/// Writing one token after `out` into a `len`-byte buffer: the new state,
/// ephemeral slot and bytes written so far, or the error. `E` writes the
/// ephemeral public key in clear (the preset one where `fixed`, else
/// `e_new`, the one drawn for this message), mixes it into the hash, and in a
/// psk handshake into the keys, and switches `e` on; `S` writes the static
/// public key through `encrypt_and_mix_hash`.
pub open spec fn write_step<D: Dh, H: crate::types::Hash, C: Cipher>(
    hasher: H,
    cipher: C,
    tok: Token,
    st: SymModel,
    e: Toggle<D>,
    e_new: D,
    fixed: bool,
    s: Toggle<D>,
    rs: (bool, Seq<u8>),
    re: (bool, Seq<u8>),
    initiator: bool,
    psk: bool,
    psks: Seq<Option<Vec<u8>>>,
    len: nat,
    out: Seq<u8>,
) -> Result<(SymModel, Toggle<D>, Seq<u8>), Error> {
    let dh_len = s.inner.spec_pub_len();
    match tok {
        Token::E => if out.len() + dh_len > len {
            Err(Error::Input)
        } else {
            let e2 = Toggle { inner: if fixed { e.inner } else { e_new }, on: true };
            let pk = e2.inner.spec_pubkey();
            let st1 = m_mix_hash(hasher, st, pk);
            Ok((if psk { m_mix_key(hasher, st1, pk) } else { st1 }, e2, out + pk))
        },
        Token::S => if !s.on {
            Err(Error::State(StateProblem::MissingKeyMaterial))
        } else if out.len() + dh_len + (if st.3 { TAGLEN as nat } else { 0 }) > len || (st.3 && st.4 == u64::MAX) {
            Err(Error::Input)
        } else {
            Ok((m_encrypt(hasher, cipher, st, s.inner.spec_pubkey()), e, out + m_ct(cipher, st, s.inner.spec_pubkey())))
        },
        _ => match key_step(hasher, tok, st, s, e, rs, re, initiator, psks) {
            Ok(st2) => Ok((st2, e, out)),
            Err(err) => Err(err),
        },
    }
}

/// Writing the tokens in order, stopping at the first error.
pub open spec fn write_fold<D: Dh, H: crate::types::Hash, C: Cipher>(
    hasher: H,
    cipher: C,
    toks: Seq<Token>,
    st: SymModel,
    e: Toggle<D>,
    e_new: D,
    fixed: bool,
    s: Toggle<D>,
    rs: (bool, Seq<u8>),
    re: (bool, Seq<u8>),
    initiator: bool,
    psk: bool,
    psks: Seq<Option<Vec<u8>>>,
    len: nat,
    out: Seq<u8>,
) -> Result<(SymModel, Toggle<D>, Seq<u8>), Error>
    decreases toks.len(),
{
    if toks.len() == 0 {
        Ok((st, e, out))
    } else {
        match write_step(hasher, cipher, toks[0], st, e, e_new, fixed, s, rs, re, initiator, psk, psks, len, out) {
            Ok((st2, e2, out2)) => write_fold(hasher, cipher, toks.drop_first(), st2, e2, e_new, fixed, s, rs, re,
                initiator, psk, psks, len, out2),
            Err(err) => Err(err),
        }
    }
}

/// Reading one token at `at` of `msg`: the new state, `rs` and `re` (as
/// on-flag and contents), and where the next field starts, or the error.
/// `E` takes DH-length bytes in clear into the front of `re`, mixes them into
/// the hash (and in a psk handshake into the keys) and switches `re` on; `S`
/// takes DH-length bytes, with a tag once a key is set, decrypts them into
/// the front of `rs`, mixes them into the hash and switches `rs` on.
pub open spec fn read_step<D: Dh, H: crate::types::Hash, C: Cipher>(
    hasher: H,
    cipher: C,
    tok: Token,
    st: SymModel,
    s: Toggle<D>,
    e: Toggle<D>,
    rs: (bool, Seq<u8>),
    re: (bool, Seq<u8>),
    initiator: bool,
    psk: bool,
    psks: Seq<Option<Vec<u8>>>,
    msg: Seq<u8>,
    at: nat,
) -> Result<(SymModel, (bool, Seq<u8>), (bool, Seq<u8>), nat), Error> {
    let dh_len = s.inner.spec_pub_len();
    match tok {
        Token::E => if at + dh_len > msg.len() {
            Err(Error::Input)
        } else {
            let data = msg.subrange(at as int, (at + dh_len) as int);
            let st1 = m_mix_hash(hasher, st, data);
            Ok((if psk { m_mix_key(hasher, st1, data) } else { st1 }, rs,
                (true, data + re.1.subrange(dh_len as int, re.1.len() as int)), at + dh_len))
        },
        Token::S => {
            let flen = dh_len + if st.3 { TAGLEN as nat } else { 0 };
            if at + flen > msg.len() || (st.3 && st.4 == u64::MAX) {
                Err(Error::Input)
            } else {
                let data = msg.subrange(at as int, (at + flen) as int);
                match m_pt(cipher, st, data) {
                    None => Err(Error::Decrypt),
                    Some(pt) => Ok((m_decrypt(hasher, st, data), (true, pt + rs.1.subrange(pt.len() as int, rs.1.len() as int)),
                        re, at + flen)),
                }
            }
        },
        _ => match key_step(hasher, tok, st, s, e, rs, re, initiator, psks) {
            Ok(st2) => Ok((st2, rs, re, at)),
            Err(err) => Err(err),
        },
    }
}

/// Reading the tokens in order, stopping at the first error.
pub open spec fn read_fold<D: Dh, H: crate::types::Hash, C: Cipher>(
    hasher: H,
    cipher: C,
    toks: Seq<Token>,
    st: SymModel,
    s: Toggle<D>,
    e: Toggle<D>,
    rs: (bool, Seq<u8>),
    re: (bool, Seq<u8>),
    initiator: bool,
    psk: bool,
    psks: Seq<Option<Vec<u8>>>,
    msg: Seq<u8>,
    at: nat,
) -> Result<(SymModel, (bool, Seq<u8>), (bool, Seq<u8>), nat), Error>
    decreases toks.len(),
{
    if toks.len() == 0 {
        Ok((st, rs, re, at))
    } else {
        match read_step(hasher, cipher, toks[0], st, s, e, rs, re, initiator, psk, psks, msg, at) {
            Ok((st2, rs2, re2, at2)) => read_fold(hasher, cipher, toks.drop_first(), st2, s, e, rs2, re2, initiator, psk,
                psks, msg, at2),
            Err(err) => Err(err),
        }
    }
}

/// A cipher whose ciphertexts are the plaintext and a tag, and which opens
/// what it seals.
pub open spec fn sound_cipher<C: Cipher>(cipher: C) -> bool {
    &&& opens_what_it_seals(cipher)
    &&& forall|k: Seq<u8>, n: u64, ad: Seq<u8>, pt: Seq<u8>| #[trigger] cipher.seal(k, n, ad, pt).len() == pt.len() + TAGLEN
}

/// Reading back one written token: when both sides start from the same
/// symmetric state, the reader's message holds what the writer wrote, the
/// cipher is sound, public keys are DH-length, and a DH token yields the
/// same result for the writer and for the reader in the other role, the
/// reader reaches the writer's new state, takes the writer's ephemeral into
/// `re` for `E` and the writer's static into `rs` for `S`.
pub proof fn lemma_token_round_trip<D: Dh, H: crate::types::Hash, C: Cipher>(
    hasher: H,
    cipher: C,
    tok: Token,
    st: SymModel,
    ew: Toggle<D>,
    e_new: D,
    fixed: bool,
    sw: Toggle<D>,
    rsw: (bool, Seq<u8>),
    rew: (bool, Seq<u8>),
    initiator: bool,
    psk: bool,
    psks: Seq<Option<Vec<u8>>>,
    len: nat,
    out: Seq<u8>,
    sr: Toggle<D>,
    er: Toggle<D>,
    rsr: (bool, Seq<u8>),
    rer: (bool, Seq<u8>),
    msg: Seq<u8>,
)
    requires
        sound_cipher(cipher),
        write_step(hasher, cipher, tok, st, ew, e_new, fixed, sw, rsw, rew, initiator, psk, psks, len, out) is Ok,
        msg.len() >= write_step(hasher, cipher, tok, st, ew, e_new, fixed, sw, rsw, rew, initiator, psk, psks, len, out)->Ok_0.2.len(),
        msg.subrange(0, write_step(hasher, cipher, tok, st, ew, e_new, fixed, sw, rsw, rew, initiator, psk, psks, len, out)->Ok_0.2.len() as int)
            == write_step(hasher, cipher, tok, st, ew, e_new, fixed, sw, rsw, rew, initiator, psk, psks, len, out)->Ok_0.2,
        sr.inner.spec_pub_len() == sw.inner.spec_pub_len(),
        sw.inner.spec_pubkey().len() == sw.inner.spec_pub_len(),
        (if fixed { ew.inner } else { e_new }).spec_pubkey().len() == sw.inner.spec_pub_len(),
        dh_of(tok, initiator, sw, ew, rsw, rew) == dh_of(tok, !initiator, sr, er, rsr, rer),
    ensures
        ({
            let w = write_step(hasher, cipher, tok, st, ew, e_new, fixed, sw, rsw, rew, initiator, psk, psks, len, out)->Ok_0;
            let dh_len = sw.inner.spec_pub_len() as int;
            read_step(hasher, cipher, tok, st, sr, er, rsr, rer, !initiator, psk, psks, msg, out.len()) == Ok::<
                (SymModel, (bool, Seq<u8>), (bool, Seq<u8>), nat),
                Error,
            >((
                w.0,
                if tok is S { (true, sw.inner.spec_pubkey() + rsr.1.subrange(dh_len, rsr.1.len() as int)) } else { rsr },
                if tok is E { (true, w.1.inner.spec_pubkey() + rer.1.subrange(dh_len, rer.1.len() as int)) } else { rer },
                w.2.len(),
            ))
        }),
{
    let w = write_step(hasher, cipher, tok, st, ew, e_new, fixed, sw, rsw, rew, initiator, psk, psks, len, out)->Ok_0;
    let dh_len = sw.inner.spec_pub_len();
    assert(w.2.subrange(0, out.len() as int) =~= out);
    match tok {
        Token::E => {
            let pk = w.1.inner.spec_pubkey();
            assert(msg.subrange(out.len() as int, (out.len() + dh_len) as int) =~= pk) by {
                assert(w.2 == out + pk);
                assert forall|j: int| 0 <= j < dh_len implies msg.subrange(out.len() as int, (out.len() + dh_len) as int)[j] == pk[j] by {
                    assert(msg[out.len() + j] == w.2[out.len() + j]);
                }
            }
        },
        Token::S => {
            let pt = sw.inner.spec_pubkey();
            let ct = m_ct(cipher, st, pt);
            crate::symmetricstate::lemma_encrypt_then_decrypt(hasher, cipher, st, pt);
            if st.3 {
                assert(cipher.seal(st.2, st.4, st.0, pt).len() == pt.len() + TAGLEN);
            }
            assert(w.2 == out + ct);
            assert(msg.subrange(out.len() as int, (out.len() + ct.len()) as int) =~= ct) by {
                assert forall|j: int| 0 <= j < ct.len() implies msg.subrange(out.len() as int, (out.len() + ct.len()) as int)[j] == ct[j] by {
                    assert(msg[out.len() + j] == w.2[out.len() + j]);
                }
            }
        },
        _ => {},
    }
}

/// What the writer's fold puts out extends what was written before it.
proof fn lemma_write_fold_extends<D: Dh, H: crate::types::Hash, C: Cipher>(
    hasher: H,
    cipher: C,
    toks: Seq<Token>,
    st: SymModel,
    e: Toggle<D>,
    e_new: D,
    fixed: bool,
    s: Toggle<D>,
    rs: (bool, Seq<u8>),
    re: (bool, Seq<u8>),
    initiator: bool,
    psk: bool,
    psks: Seq<Option<Vec<u8>>>,
    len: nat,
    out: Seq<u8>,
)
    requires
        write_fold(hasher, cipher, toks, st, e, e_new, fixed, s, rs, re, initiator, psk, psks, len, out) is Ok,
    ensures
        ({
            let r = write_fold(hasher, cipher, toks, st, e, e_new, fixed, s, rs, re, initiator, psk, psks, len, out)->Ok_0.2;
            r.len() >= out.len() && r.subrange(0, out.len() as int) == out
        }),
    decreases toks.len(),
{
    if toks.len() > 0 {
        let w = write_step(hasher, cipher, toks[0], st, e, e_new, fixed, s, rs, re, initiator, psk, psks, len, out)->Ok_0;
        assert(w.2.len() >= out.len() && w.2.subrange(0, out.len() as int) =~= out);
        lemma_write_fold_extends(hasher, cipher, toks.drop_first(), w.0, w.1, e_new, fixed, s, rs, re, initiator, psk, psks,
            len, w.2);
        let r = write_fold(hasher, cipher, toks, st, e, e_new, fixed, s, rs, re, initiator, psk, psks, len, out)->Ok_0.2;
        assert(r.subrange(0, out.len() as int) =~= r.subrange(0, w.2.len() as int).subrange(0, out.len() as int));
    } else {
        assert(out.subrange(0, out.len() as int) =~= out);
    }
}

/// The two sides' DH results agree at each DH token as a message proceeds,
/// and the ephemeral written is DH-length.
pub open spec fn sides_agree<D: Dh, H: crate::types::Hash, C: Cipher>(
    hasher: H,
    cipher: C,
    toks: Seq<Token>,
    st: SymModel,
    ew: Toggle<D>,
    e_new: D,
    fixed: bool,
    sw: Toggle<D>,
    rsw: (bool, Seq<u8>),
    rew: (bool, Seq<u8>),
    initiator: bool,
    psk: bool,
    psks: Seq<Option<Vec<u8>>>,
    len: nat,
    out: Seq<u8>,
    sr: Toggle<D>,
    er: Toggle<D>,
    rsr: (bool, Seq<u8>),
    rer: (bool, Seq<u8>),
) -> bool
    decreases toks.len(),
{
    if toks.len() == 0 {
        true
    } else {
        let tok = toks[0];
        let dh_len = sw.inner.spec_pub_len() as int;
        match write_step(hasher, cipher, tok, st, ew, e_new, fixed, sw, rsw, rew, initiator, psk, psks, len, out) {
            Ok(w) => {
                &&& dh_of(tok, initiator, sw, ew, rsw, rew) == dh_of(tok, !initiator, sr, er, rsr, rer)
                &&& (if fixed { ew.inner } else { e_new }).spec_pubkey().len() == dh_len
                &&& sides_agree(hasher, cipher, toks.drop_first(), w.0, w.1, e_new, fixed, sw, rsw, rew, initiator, psk, psks,
                    len, w.2, sr, er,
                    if tok is S { (true, sw.inner.spec_pubkey() + rsr.1.subrange(dh_len, rsr.1.len() as int)) } else { rsr },
                    if tok is E { (true, w.1.inner.spec_pubkey() + rer.1.subrange(dh_len, rer.1.len() as int)) } else { rer })
            },
            Err(_) => true,
        }
    }
}

/// Reading back a written message's tokens: when both sides start from the
/// same symmetric state, the cipher is sound, static keys are DH-length, and
/// the sides' DH results agree as the message proceeds, the reader's fold
/// over the written bytes reaches the writer's state at the writer's end.
pub proof fn lemma_message_round_trip<D: Dh, H: crate::types::Hash, C: Cipher>(
    hasher: H,
    cipher: C,
    toks: Seq<Token>,
    st: SymModel,
    ew: Toggle<D>,
    e_new: D,
    fixed: bool,
    sw: Toggle<D>,
    rsw: (bool, Seq<u8>),
    rew: (bool, Seq<u8>),
    initiator: bool,
    psk: bool,
    psks: Seq<Option<Vec<u8>>>,
    len: nat,
    out: Seq<u8>,
    sr: Toggle<D>,
    er: Toggle<D>,
    rsr: (bool, Seq<u8>),
    rer: (bool, Seq<u8>),
    msg: Seq<u8>,
)
    requires
        sound_cipher(cipher),
        write_fold(hasher, cipher, toks, st, ew, e_new, fixed, sw, rsw, rew, initiator, psk, psks, len, out) is Ok,
        msg.len() >= write_fold(hasher, cipher, toks, st, ew, e_new, fixed, sw, rsw, rew, initiator, psk, psks, len, out)->Ok_0.2.len(),
        msg.subrange(0, write_fold(hasher, cipher, toks, st, ew, e_new, fixed, sw, rsw, rew, initiator, psk, psks, len, out)->Ok_0.2.len() as int)
            == write_fold(hasher, cipher, toks, st, ew, e_new, fixed, sw, rsw, rew, initiator, psk, psks, len, out)->Ok_0.2,
        sr.inner.spec_pub_len() == sw.inner.spec_pub_len(),
        sw.inner.spec_pubkey().len() == sw.inner.spec_pub_len(),
        sides_agree(hasher, cipher, toks, st, ew, e_new, fixed, sw, rsw, rew, initiator, psk, psks, len, out, sr, er, rsr, rer),
    ensures
        read_fold(hasher, cipher, toks, st, sr, er, rsr, rer, !initiator, psk, psks, msg, out.len()) is Ok,
        read_fold(hasher, cipher, toks, st, sr, er, rsr, rer, !initiator, psk, psks, msg, out.len())->Ok_0.0
            == write_fold(hasher, cipher, toks, st, ew, e_new, fixed, sw, rsw, rew, initiator, psk, psks, len, out)->Ok_0.0,
        read_fold(hasher, cipher, toks, st, sr, er, rsr, rer, !initiator, psk, psks, msg, out.len())->Ok_0.3
            == write_fold(hasher, cipher, toks, st, ew, e_new, fixed, sw, rsw, rew, initiator, psk, psks, len, out)->Ok_0.2.len(),
    decreases toks.len(),
{
    if toks.len() > 0 {
        let tok = toks[0];
        let dh_len = sw.inner.spec_pub_len() as int;
        let w = write_step(hasher, cipher, tok, st, ew, e_new, fixed, sw, rsw, rew, initiator, psk, psks, len, out)->Ok_0;
        lemma_write_fold_extends(hasher, cipher, toks.drop_first(), w.0, w.1, e_new, fixed, sw, rsw, rew, initiator, psk, psks,
            len, w.2);
        let fin = write_fold(hasher, cipher, toks, st, ew, e_new, fixed, sw, rsw, rew, initiator, psk, psks, len, out)->Ok_0.2;
        assert(msg.subrange(0, w.2.len() as int) =~= fin.subrange(0, w.2.len() as int));
        lemma_token_round_trip(hasher, cipher, tok, st, ew, e_new, fixed, sw, rsw, rew, initiator, psk, psks, len, out, sr, er,
            rsr, rer, msg);
        let rsr2 = if tok is S { (true, sw.inner.spec_pubkey() + rsr.1.subrange(dh_len, rsr.1.len() as int)) } else { rsr };
        let rer2 = if tok is E { (true, w.1.inner.spec_pubkey() + rer.1.subrange(dh_len, rer.1.len() as int)) } else { rer };
        lemma_message_round_trip(hasher, cipher, toks.drop_first(), w.0, w.1, e_new, fixed, sw, rsw, rew, initiator, psk,
            psks, len, w.2, sr, er, rsr2, rer2, msg);
    }
}

/// A state machine for the handshake phase of a Noise session.
pub struct HandshakeState<D: Dh, H: crate::types::Hash, C: Cipher, R: Random> {
    pub rng: R,
    pub symmetricstate: SymmetricState<H, C>,
    pub cipherstates: (CipherState, CipherState),
    pub s: Toggle<D>,
    pub e: Toggle<D>,
    pub fixed_ephemeral: bool,
    pub rs: Toggle<Vec<u8>>,
    pub re: Toggle<Vec<u8>>,
    pub initiator: bool,
    pub params: NoiseParams,
    pub psks: Vec<Option<Vec<u8>>>,
    pub my_turn: bool,
    pub message_patterns: Vec<Vec<Token>>,
    pub pattern_position: usize,
}

/// A transport cipher state without a key.
fn empty_cipherstate() -> (r: CipherState)
    ensures
        !r.has_key,
        r.n == 0,
{
    CipherState { k: Vec::new(), n: 0, has_key: false }
}

/// The public key a pre-message token names: this side's own where `local`,
/// the first DH-length bytes of the peer's otherwise; an error where the slot
/// is off or the token is no key.
pub open spec fn premessage_key<D: Dh>(
    tok: Token,
    local: bool,
    s: Toggle<D>,
    e: Toggle<D>,
    rs: Toggle<Vec<u8>>,
    re: Toggle<Vec<u8>>,
) -> Result<Seq<u8>, Error> {
    let dh_len = s.inner.spec_pub_len();
    let missing = Err(Error::State(StateProblem::MissingKeyMaterial));
    match tok {
        Token::S => if local {
            if s.on { Ok(s.inner.spec_pubkey()) } else { missing }
        } else {
            if rs.on { Ok(rs.inner@.subrange(0, dh_len as int)) } else { missing }
        },
        Token::E => if local {
            if e.on { Ok(e.inner.spec_pubkey()) } else { missing }
        } else {
            if re.on { Ok(re.inner@.subrange(0, dh_len as int)) } else { missing }
        },
        _ => Err(Error::Pattern(PatternProblem::UnsupportedHandshakeType)),
    }
}

/// The hash after the keys of a pre-message are mixed into `h` in order.
pub open spec fn premessage_hash<D: Dh, H: crate::types::Hash>(
    hasher: H,
    h: Seq<u8>,
    toks: Seq<Token>,
    local: bool,
    s: Toggle<D>,
    e: Toggle<D>,
    rs: Toggle<Vec<u8>>,
    re: Toggle<Vec<u8>>,
) -> Result<Seq<u8>, Error>
    decreases toks.len(),
{
    if toks.len() == 0 {
        Ok(h)
    } else {
        match premessage_hash(hasher, h, toks.drop_last(), local, s, e, rs, re) {
            Ok(h1) => match premessage_key(toks.last(), local, s, e, rs, re) {
                Ok(k) => Ok(hasher.digest(h1 + k)),
                Err(err) => Err(err),
            },
            Err(err) => Err(err),
        }
    }
}

/// The hash a handshake starts with: the protocol name, the prologue, then
/// the initiator's pre-message keys and the responder's.
pub open spec fn start_hash<D: Dh, H: crate::types::Hash>(
    hasher: H,
    name: Seq<char>,
    prologue: Seq<u8>,
    premsg_i: Seq<Token>,
    premsg_r: Seq<Token>,
    initiator: bool,
    s: Toggle<D>,
    e: Toggle<D>,
    rs: Toggle<Vec<u8>>,
    re: Toggle<Vec<u8>>,
) -> Result<Seq<u8>, Error> {
    let h0 = hasher.digest(initial_hash(hasher, encode_utf8(name)) + prologue);
    match premessage_hash(hasher, h0, premsg_i, initiator, s, e, rs, re) {
        Ok(h1) => premessage_hash(hasher, h1, premsg_r, !initiator, s, e, rs, re),
        Err(err) => Err(err),
    }
}

/// Once mixing a prefix of a pre-message fails, mixing all of it fails the same way.
proof fn lemma_premessage_err_stays<D: Dh, H: crate::types::Hash>(
    hasher: H,
    h: Seq<u8>,
    toks: Seq<Token>,
    k: int,
    local: bool,
    s: Toggle<D>,
    e: Toggle<D>,
    rs: Toggle<Vec<u8>>,
    re: Toggle<Vec<u8>>,
    err: Error,
)
    requires
        0 <= k <= toks.len(),
        premessage_hash(hasher, h, toks.subrange(0, k), local, s, e, rs, re) == Err::<Seq<u8>, Error>(err),
    ensures
        premessage_hash(hasher, h, toks, local, s, e, rs, re) == Err::<Seq<u8>, Error>(err),
    decreases toks.len() - k,
{
    if k < toks.len() {
        assert(toks.subrange(0, k + 1).drop_last() =~= toks.subrange(0, k));
        lemma_premessage_err_stays(hasher, h, toks, k + 1, local, s, e, rs, re, err);
    } else {
        assert(toks.subrange(0, k) =~= toks);
    }
}

/// Whether a remote key slot holds a local key pair's public key, on exactly
/// when the pair is.
pub open spec fn holds_key_of<D: Dh>(remote: Toggle<Vec<u8>>, local: Toggle<D>, dh_len: nat) -> bool {
    &&& remote.on == local.on
    &&& local.on ==> remote.inner@.subrange(0, dh_len as int) == local.inner.spec_pubkey()
}

/// Mixing a pre-message from one side's own slots, and from the peer's
/// remote slots that hold those keys, gives the same hash.
proof fn lemma_premessage_hash_agrees<D: Dh, H: crate::types::Hash>(
    hasher: H,
    h: Seq<u8>,
    toks: Seq<Token>,
    sa: Toggle<D>,
    ea: Toggle<D>,
    rsa: Toggle<Vec<u8>>,
    rea: Toggle<Vec<u8>>,
    sb: Toggle<D>,
    eb: Toggle<D>,
    rsb: Toggle<Vec<u8>>,
    reb: Toggle<Vec<u8>>,
)
    requires
        holds_key_of(rsb, sa, sb.inner.spec_pub_len()),
        holds_key_of(reb, ea, sb.inner.spec_pub_len()),
    ensures
        premessage_hash(hasher, h, toks, true, sa, ea, rsa, rea) == premessage_hash(hasher, h, toks, false, sb, eb, rsb, reb),
    decreases toks.len(),
{
    if toks.len() > 0 {
        lemma_premessage_hash_agrees(hasher, h, toks.drop_last(), sa, ea, rsa, rea, sb, eb, rsb, reb);
    }
}

/// Two sides of a handshake on the same protocol name and prologue, each
/// holding in its remote slots the keys the other has on for the
/// pre-messages, start from the same handshake hash.
pub proof fn lemma_start_hash_agrees<D: Dh, H: crate::types::Hash>(
    hasher: H,
    name: Seq<char>,
    prologue: Seq<u8>,
    premsg_i: Seq<Token>,
    premsg_r: Seq<Token>,
    si: Toggle<D>,
    ei: Toggle<D>,
    rsi: Toggle<Vec<u8>>,
    rei: Toggle<Vec<u8>>,
    sr: Toggle<D>,
    er: Toggle<D>,
    rsr: Toggle<Vec<u8>>,
    rer: Toggle<Vec<u8>>,
)
    requires
        holds_key_of(rsr, si, sr.inner.spec_pub_len()),
        holds_key_of(rer, ei, sr.inner.spec_pub_len()),
        holds_key_of(rsi, sr, si.inner.spec_pub_len()),
        holds_key_of(rei, er, si.inner.spec_pub_len()),
    ensures
        start_hash(hasher, name, prologue, premsg_i, premsg_r, true, si, ei, rsi, rei)
            == start_hash(hasher, name, prologue, premsg_i, premsg_r, false, sr, er, rsr, rer),
{
    let h0 = hasher.digest(initial_hash(hasher, encode_utf8(name)) + prologue);
    lemma_premessage_hash_agrees(hasher, h0, premsg_i, si, ei, rsi, rei, sr, er, rsr, rer);
    match premessage_hash(hasher, h0, premsg_i, true, si, ei, rsi, rei) {
        Ok(h1) => {
            lemma_premessage_hash_agrees(hasher, h1, premsg_r, sr, er, rsr, rer, si, ei, rsi, rei);
        },
        Err(_) => {},
    }
}

/// Mixes the public keys of one side's pre-message into the hash: this
/// side's own keys where `local`, the peer's otherwise.
fn mix_premessage<D: Dh, H: crate::types::Hash, C: Cipher>(
    symmetricstate: &mut SymmetricState<H, C>,
    list: &Vec<Token>,
    local: bool,
    s: &Toggle<D>,
    e: &Toggle<D>,
    rs: &Toggle<Vec<u8>>,
    re: &Toggle<Vec<u8>>,
    dh_len: usize,
) -> (r: Result<(), Error>)
    requires
        old(symmetricstate).wf(),
        dh_len == s.inner.spec_pub_len(),
        rs.inner@.len() >= dh_len,
        re.inner@.len() >= dh_len,
    ensures
        final(symmetricstate).wf(),
        final(symmetricstate).inner.has_key == old(symmetricstate).inner.has_key,
        final(symmetricstate).inner.n == old(symmetricstate).inner.n,
        final(symmetricstate).inner.ck == old(symmetricstate).inner.ck,
        final(symmetricstate).hasher == old(symmetricstate).hasher,
        final(symmetricstate).cipher == old(symmetricstate).cipher,
        r matches Err(err) ==> err is State || err is Pattern,
        match r {
            Ok(_) => premessage_hash(old(symmetricstate).hasher, old(symmetricstate).inner.h@, list@, local, *s, *e, *rs, *re)
                == Ok::<Seq<u8>, Error>(final(symmetricstate).inner.h@),
            Err(err) => premessage_hash(old(symmetricstate).hasher, old(symmetricstate).inner.h@, list@, local, *s, *e, *rs, *re)
                == Err::<Seq<u8>, Error>(err),
        },
{
    let mut k: usize = 0;
    assert(list@.subrange(0, 0) =~= Seq::<Token>::empty());
    while k < list.len()
        invariant
            dh_len == s.inner.spec_pub_len(),
            premessage_hash(old(symmetricstate).hasher, old(symmetricstate).inner.h@, list@.subrange(0, k as int), local, *s, *e, *rs, *re)
                == Ok::<Seq<u8>, Error>(symmetricstate.inner.h@),
            symmetricstate.inner.ck == old(symmetricstate).inner.ck,
            symmetricstate.wf(),
            symmetricstate.inner.has_key == old(symmetricstate).inner.has_key,
            symmetricstate.inner.n == old(symmetricstate).inner.n,
            symmetricstate.hasher == old(symmetricstate).hasher,
            symmetricstate.cipher == old(symmetricstate).cipher,
            rs.inner@.len() >= dh_len,
            re.inner@.len() >= dh_len,
            k <= list@.len(),
        decreases list@.len() - k,
    {
        proof {
            assert(list@.subrange(0, k + 1).drop_last() =~= list@.subrange(0, k as int));
            assert(list@.subrange(0, k + 1).last() == list@[k as int]);
        }
        match (list[k], local) {
            (Token::S, true) => {
                if !s.is_on() {
                    proof {
                    lemma_premessage_err_stays(old(symmetricstate).hasher, old(symmetricstate).inner.h@, list@, k as int + 1, local, *s, *e, *rs, *re, Error::State(StateProblem::MissingKeyMaterial));
                }
                return Err(Error::State(StateProblem::MissingKeyMaterial));
                }
                symmetricstate.mix_hash(s.inner.pubkey());
            },
            (Token::E, true) => {
                if !e.is_on() {
                    proof {
                    lemma_premessage_err_stays(old(symmetricstate).hasher, old(symmetricstate).inner.h@, list@, k as int + 1, local, *s, *e, *rs, *re, Error::State(StateProblem::MissingKeyMaterial));
                }
                return Err(Error::State(StateProblem::MissingKeyMaterial));
                }
                symmetricstate.mix_hash(e.inner.pubkey());
            },
            (Token::S, false) => {
                if !rs.is_on() {
                    proof {
                    lemma_premessage_err_stays(old(symmetricstate).hasher, old(symmetricstate).inner.h@, list@, k as int + 1, local, *s, *e, *rs, *re, Error::State(StateProblem::MissingKeyMaterial));
                }
                return Err(Error::State(StateProblem::MissingKeyMaterial));
                }
                symmetricstate.mix_hash(slice_subrange(rs.inner.as_slice(), 0, dh_len));
            },
            (Token::E, false) => {
                if !re.is_on() {
                    proof {
                    lemma_premessage_err_stays(old(symmetricstate).hasher, old(symmetricstate).inner.h@, list@, k as int + 1, local, *s, *e, *rs, *re, Error::State(StateProblem::MissingKeyMaterial));
                }
                return Err(Error::State(StateProblem::MissingKeyMaterial));
                }
                symmetricstate.mix_hash(slice_subrange(re.inner.as_slice(), 0, dh_len));
            },
            _ => {
                proof {
                    lemma_premessage_err_stays(old(symmetricstate).hasher, old(symmetricstate).inner.h@, list@, k as int + 1, local, *s, *e, *rs, *re, Error::Pattern(PatternProblem::UnsupportedHandshakeType));
                }
                return Err(Error::Pattern(PatternProblem::UnsupportedHandshakeType));
            },
        }
        k = k + 1;
    }
    assert(list@.subrange(0, list@.len() as int) =~= list@);
    Ok(())
}

impl<D: Dh, H: crate::types::Hash, C: Cipher, R: Random> HandshakeState<D, H, C, R> {
    /// Length of a DH public key in this handshake.
    pub open spec fn spec_dh_len(&self) -> nat {
        self.s.inner.spec_pub_len()
    }

    /// The tokens of each message.
    pub open spec fn messages(&self) -> Seq<Seq<Token>> {
        self.message_patterns@.map_values(|m: Vec<Token>| m@)
    }

    pub open spec fn spec_is_finished(&self) -> bool {
        self.pattern_position == self.message_patterns@.len()
    }

    /// The lengths and positions the state keeps.
    pub open spec fn wf(&self) -> bool {
        &&& self.symmetricstate.wf()
        &&& self.pattern_position <= self.message_patterns@.len()
        &&& self.psks@.len() == PSK_SLOTS
        &&& forall|i: int| 0 <= i < self.psks@.len() ==> (#[trigger] self.psks@[i] matches Some(k) ==> k@.len() == PSKLEN)
        &&& self.e.inner.spec_pub_len() == self.s.inner.spec_pub_len()
        &&& self.rs.inner@.len() >= self.spec_dh_len()
        &&& self.re.inner@.len() >= self.spec_dh_len()
    }

    /// What a DH token yields: an error where a key it needs is missing or
    /// the operation fails, the shared secret otherwise.
    pub open spec fn spec_dh(&self, local_s: bool, remote_s: bool) -> Result<Seq<u8>, Error> {
        let local = if local_s { self.s } else { self.e };
        let remote = if remote_s { self.rs } else { self.re };
        if !local.on || !remote.on {
            Err(Error::State(StateProblem::MissingKeyMaterial))
        } else {
            match local.inner.shared(remote.inner@.subrange(0, self.spec_dh_len() as int)) {
                Some(out) => Ok(out),
                None => Err(Error::Dh),
            }
        }
    }

    /// The fields that processing a message leaves alone.
    pub open spec fn same_setup(&self, other: &Self) -> bool {
        &&& self.same_config(other)
        &&& self.pattern_position == other.pattern_position
    }

    /// The fields that only construction and `set_psk` set.
    pub open spec fn same_config(&self, other: &Self) -> bool {
        &&& self.message_patterns == other.message_patterns
        &&& self.psks == other.psks
        &&& self.initiator == other.initiator
        &&& self.params == other.params
        &&& self.fixed_ephemeral == other.fixed_ephemeral
        &&& self.symmetricstate.hasher == other.symmetricstate.hasher
        &&& self.symmetricstate.cipher == other.symmetricstate.cipher
        &&& self.spec_dh_len() == other.spec_dh_len()
    }

    /// A handshake ready to send or receive its first message: the protocol
    /// name, the prologue and the keys known beforehand are in the hash.
    pub fn new(
        rng: R,
        cipher: C,
        hasher: H,
        s: Toggle<D>,
        e: Toggle<D>,
        fixed_ephemeral: bool,
        rs: Toggle<Vec<u8>>,
        re: Toggle<Vec<u8>>,
        initiator: bool,
        params: NoiseParams,
        psks: Vec<Option<Vec<u8>>>,
        prologue: &[u8],
    ) -> (r: Result<Self, Error>)
        ensures
            match r {
                Ok(hs) => {
                    &&& hs.wf()
                    &&& hs.pattern_position == 0
                    &&& hs.my_turn == initiator
                    &&& hs.initiator == initiator
                    &&& !hs.symmetricstate.inner.has_key
                    &&& hs.psks == psks
                    &&& hs.fixed_ephemeral == fixed_ephemeral
                    &&& expand(params.handshake.pattern, params.handshake.modifiers.list@) is Ok
                    &&& hs.messages() == expand(params.handshake.pattern, params.handshake.modifiers.list@)->Ok_0.messages
                    &&& hs.s == s && hs.e == e && hs.rs == rs && hs.re == re && hs.params == params
                    &&& hs.symmetricstate.hasher == hasher && hs.symmetricstate.cipher == cipher
                    &&& hs.symmetricstate.inner.ck@ == initial_hash(hasher, encode_utf8(params.name@))
                    &&& start_hash(hasher, params.name@, prologue@,
                        expand(params.handshake.pattern, params.handshake.modifiers.list@)->Ok_0.premsg_i,
                        expand(params.handshake.pattern, params.handshake.modifiers.list@)->Ok_0.premsg_r,
                        initiator, s, e, rs, re) == Ok::<Seq<u8>, Error>(hs.symmetricstate.inner.h@)
                },
                Err(_) => true,
            },
            bad_key_lengths(s, e, rs, re) ==> r == Err::<Self, Error>(Error::Init(InitStage::ValidateKeyLengths)),
            !bad_key_lengths(s, e, rs, re) && bad_psk_lengths(psks@) ==> r == Err::<Self, Error>(
                Error::Init(InitStage::ValidatePskLengths)),
            !bad_key_lengths(s, e, rs, re) && !bad_psk_lengths(psks@)
                && expand(params.handshake.pattern, params.handshake.modifiers.list@) is Err
                ==> r == Err::<Self, Error>(expand(params.handshake.pattern, params.handshake.modifiers.list@)->Err_0),
            !bad_key_lengths(s, e, rs, re) && !bad_psk_lengths(psks@)
                && expand(params.handshake.pattern, params.handshake.modifiers.list@) is Ok
                ==> match start_hash(hasher, params.name@, prologue@,
                        expand(params.handshake.pattern, params.handshake.modifiers.list@)->Ok_0.premsg_i,
                        expand(params.handshake.pattern, params.handshake.modifiers.list@)->Ok_0.premsg_r,
                        initiator, s, e, rs, re) {
                    Ok(_) => r is Ok,
                    Err(err) => r == Err::<Self, Error>(err),
                },
    {
        let dh_len = s.inner.pub_len();
        if e.inner.pub_len() != dh_len || rs.inner.len() < dh_len || re.inner.len() < dh_len {
            return Err(Error::Init(InitStage::ValidateKeyLengths));
        }
        if psks.len() != PSK_SLOTS {
            return Err(Error::Init(InitStage::ValidatePskLengths));
        }
        let mut i: usize = 0;
        while i < psks.len()
            invariant
                dh_len == s.inner.spec_pub_len(),
                e.inner.spec_pub_len() == dh_len,
                rs.inner@.len() >= dh_len,
                re.inner@.len() >= dh_len,
                i <= psks@.len(),
                forall|j: int| 0 <= j < i ==> (#[trigger] psks@[j] matches Some(k) ==> k@.len() == PSKLEN),
            decreases psks@.len() - i,
        {
            if let Some(k) = &psks[i] {
                if k.len() != PSKLEN {
                    assert(psks@[i as int] is Some && psks@[i as int]->Some_0@.len() != PSKLEN);
                    return Err(Error::Init(InitStage::ValidatePskLengths));
                }
            }
            i = i + 1;
        }
        proof {
            crate::patterns::lemma_expand_err_is_pattern(params.handshake.pattern, params.handshake.modifiers.list@);
        }
        let tokens = HandshakeTokens::try_from(&params.handshake)?;
        let mut symmetricstate = SymmetricState::new(cipher, hasher, params.name.as_str().as_bytes());
        symmetricstate.mix_hash(prologue);
        // the initiator's pre-message keys go in first, whichever side this is
        mix_premessage(&mut symmetricstate, &tokens.premsg_pattern_i, initiator, &s, &e, &rs, &re, dh_len)?;
        mix_premessage(&mut symmetricstate, &tokens.premsg_pattern_r, !initiator, &s, &e, &rs, &re, dh_len)?;
        Ok(HandshakeState {
            rng,
            symmetricstate,
            cipherstates: (empty_cipherstate(), empty_cipherstate()),
            s,
            e,
            fixed_ephemeral,
            rs,
            re,
            initiator,
            params,
            psks,
            my_turn: initiator,
            message_patterns: tokens.msg_patterns,
            pattern_position: 0,
        })
    }

    /// Length of a DH public key in this handshake.
    pub fn dh_len(&self) -> (r: usize)
        ensures
            r == self.spec_dh_len(),
            0 < r <= crate::constants::MAXDHLEN,
    {
        self.s.inner.pub_len()
    }

    /// The DH of a local key with a remote one.
    fn dh(&self, local_s: bool, remote_s: bool) -> (r: Result<Vec<u8>, Error>)
        requires
            self.wf(),
        ensures
            match r {
                Ok(out) => self.spec_dh(local_s, remote_s) == Ok::<Seq<u8>, Error>(out@),
                Err(e) => self.spec_dh(local_s, remote_s) == Err::<Seq<u8>, Error>(e),
            },
    {
        let local = if local_s { &self.s } else { &self.e };
        let remote = if remote_s { &self.rs } else { &self.re };
        if !local.is_on() || !remote.is_on() {
            return Err(Error::State(StateProblem::MissingKeyMaterial));
        }
        let dh_len = self.dh_len();
        match local.inner.dh(slice_subrange(remote.inner.as_slice(), 0, dh_len)) {
            Ok(out) => Ok(out),
            Err(_) => Err(Error::Dh),
        }
    }

    /// Draws a new ephemeral key pair.
    fn generate_ephemeral(&mut self)
        requires
            old(self).wf(),
        ensures
            final(self).wf(),
            final(self).same_setup(old(self)),
            final(self).my_turn == old(self).my_turn,
            final(self).e.on == old(self).e.on,
            final(self).s == old(self).s,
            final(self).rs == old(self).rs,
            final(self).re == old(self).re,
            final(self).symmetricstate.inner == old(self).symmetricstate.inner,
    {
        let len = self.e.inner.priv_len();
        let mut buf: Vec<u8> = Vec::new();
        let mut i: usize = 0;
        while i < len
            invariant
                i <= len,
                buf@.len() == i,
            decreases len - i,
        {
            buf.push(0u8);
            i = i + 1;
        }
        self.rng.fill_bytes(buf.as_mut_slice());
        self.e.inner.set(buf.as_slice());
    }

    /// Whether the payload of the last message written was encrypted.
    pub fn was_write_payload_encrypted(&self) -> (r: bool)
        ensures
            r == self.symmetricstate.inner.has_key,
    {
        self.symmetricstate.has_key()
    }

    /// Mixes one token of a message into the state, reading or writing the
    /// key it carries on the wire is left to the caller.
    fn mix_token_keys(&mut self, tok: Token) -> (r: Result<(), Error>)
        requires
            old(self).wf(),
            !(tok is E) && !(tok is S),
        ensures
            final(self).wf(),
            final(self).same_setup(old(self)),
            final(self).my_turn == old(self).my_turn,
            final(self).e == old(self).e,
            final(self).s == old(self).s,
            final(self).rs == old(self).rs,
            final(self).re == old(self).re,
            match key_step(old(self).symmetricstate.hasher, tok, old(self).symmetricstate.inner.model(), old(self).s, old(self).e,
                (old(self).rs.on, old(self).rs.inner@), (old(self).re.on, old(self).re.inner@), old(self).initiator, old(self).psks@) {
                Ok(st) => r is Ok && final(self).symmetricstate.inner.model() == st,
                Err(err) => r == Err::<(), Error>(err),
            },
    {
        match tok {
            Token::Psk(n) => {
                if n as usize >= self.psks.len() {
                    return Err(Error::State(StateProblem::MissingPsk));
                }
                match &self.psks[n as usize] {
                    Some(psk) => {
                        self.symmetricstate.mix_key_and_hash(psk.as_slice());
                        Ok(())
                    },
                    None => Err(Error::State(StateProblem::MissingPsk)),
                }
            },
            _ => {
                let local_s = match tok {
                    Token::Dhee => false,
                    Token::Dhss => true,
                    Token::Dhes => !self.initiator,
                    _ => self.initiator,
                };
                let remote_s = match tok {
                    Token::Dhee => false,
                    Token::Dhss => true,
                    Token::Dhes => self.initiator,
                    _ => !self.initiator,
                };
                assert((local_s, remote_s) == dh_roles(tok, self.initiator));
                let out = self.dh(local_s, remote_s)?;
                self.symmetricstate.mix_key(out.as_slice());
                Ok(())
            },
        }
    }

    /// The tokens of the current message.
    pub open spec fn current(&self) -> Seq<Token> {
        self.messages()[self.pattern_position as int]
    }

    pub open spec fn spec_is_psk(&self) -> bool {
        has_psk(self.params.handshake.modifiers.list@)
    }

    /// Writes one token of the current message at `at`; returns the bytes
    /// written. A new ephemeral is drawn for `E` unless it is fixed or was
    /// already drawn for this message (`drawn`).
    #[verifier::rlimit(60)]
    #[verifier::spinoff_prover]
    fn write_token(&mut self, tok: Token, message: &mut [u8], at: usize, drawn: bool) -> (r: Result<usize, Error>)
        requires
            old(self).wf(),
            at <= old(message)@.len(),
        ensures
            final(self).wf(),
            final(self).same_setup(old(self)),
            final(self).my_turn == old(self).my_turn,
            final(message)@.len() == old(message)@.len(),
            final(self).s == old(self).s && final(self).rs == old(self).rs && final(self).re == old(self).re,
            old(self).fixed_ephemeral ==> final(self).e.inner == old(self).e.inner,
            drawn ==> final(self).e.inner == old(self).e.inner,
            r is Err ==> final(self).e == old(self).e,
            r matches Ok(n) ==> at + n <= old(message)@.len(),
            write_step(old(self).symmetricstate.hasher, old(self).symmetricstate.cipher, tok, old(self).symmetricstate.inner.model(),
                old(self).e, final(self).e.inner, old(self).fixed_ephemeral, old(self).s, (old(self).rs.on, old(self).rs.inner@),
                (old(self).re.on, old(self).re.inner@), old(self).initiator, old(self).spec_is_psk(), old(self).psks@,
                old(message)@.len(), old(message)@.subrange(0, at as int)) == match r {
                Ok(n) => Ok((final(self).symmetricstate.inner.model(), final(self).e, final(message)@.subrange(0, at + n))),
                Err(err) => Err::<(SymModel, Toggle<D>, Seq<u8>), Error>(err),
            },
    {
        let dh_len = self.dh_len();
        match tok {
            Token::E => {
                if message.len() - at < dh_len {
                    return Err(Error::Input);
                }
                if !self.fixed_ephemeral && !drawn {
                    self.generate_ephemeral();
                }
                let n = copy_at(self.e.inner.pubkey(), message, at);
                assert(message@.subrange(0, at + n) =~= old(message)@.subrange(0, at as int) + self.e.inner.spec_pubkey());
                self.symmetricstate.mix_hash(self.e.inner.pubkey());
                if self.params.handshake.is_psk() {
                    self.symmetricstate.mix_key(self.e.inner.pubkey());
                }
                self.e.enable();
                Ok(n)
            },
            Token::S => {
                if !self.s.is_on() {
                    return Err(Error::State(StateProblem::MissingKeyMaterial));
                }
                let tag: usize = if self.symmetricstate.has_key() { TAGLEN } else { 0 };
                if message.len() - at < dh_len + tag {
                    return Err(Error::Input);
                }
                let r = self.symmetricstate.encrypt_and_mix_hash(self.s.inner.pubkey(), message, at);
                if let Ok(n) = r {
                    assert(message@.subrange(0, at + n) =~= old(message)@.subrange(0, at as int)
                        + message@.subrange(at as int, at + n));
                }
                r
            },
            _ => {
                self.mix_token_keys(tok)?;
                Ok(0)
            },
        }
    }

    /// Writes the tokens of the current message from the start of `message`;
    /// returns the bytes written.
    #[verifier::rlimit(80)]
    #[verifier::spinoff_prover]
    fn write_tokens(&mut self, message: &mut [u8]) -> (r: Result<usize, Error>)
        requires
            old(self).wf(),
            old(self).pattern_position < old(self).message_patterns@.len(),
        ensures
            final(self).wf(),
            final(self).same_setup(old(self)),
            final(self).my_turn == old(self).my_turn,
            final(message)@.len() == old(message)@.len(),
            final(self).s == old(self).s && final(self).rs == old(self).rs && final(self).re == old(self).re,
            old(self).fixed_ephemeral ==> final(self).e.inner == old(self).e.inner,
            r matches Ok(at) ==> at <= old(message)@.len(),
            match write_fold(old(self).symmetricstate.hasher, old(self).symmetricstate.cipher, old(self).current(),
                old(self).symmetricstate.inner.model(), old(self).e, final(self).e.inner, old(self).fixed_ephemeral, old(self).s,
                (old(self).rs.on, old(self).rs.inner@), (old(self).re.on, old(self).re.inner@), old(self).initiator,
                old(self).spec_is_psk(), old(self).psks@, old(message)@.len(), Seq::empty()) {
                Ok((st, e2, out)) => r matches Ok(at) && at == out.len() && final(self).symmetricstate.inner.model() == st
                    && final(self).e == e2 && final(message)@.subrange(0, at as int) == out,
                Err(err) => r == Err::<usize, Error>(err),
            },
    {
        let pos = self.pattern_position;
        let psk = self.params.handshake.is_psk();
        let ghost toks = self.current();
        let ntok = self.message_patterns[pos].len();
        let mlen = message.len();
        let mut byte_index: usize = 0;
        let mut drawn = false;
        let mut i: usize = 0;
        let ghost st0 = self.symmetricstate.inner.model();
        let ghost e0 = self.e;
        assert(message@.subrange(0, 0) =~= Seq::<u8>::empty());
        assert(toks.subrange(0, ntok as int) =~= toks);
        while i < ntok
            invariant
                self.wf(),
                self.same_setup(old(self)),
                self.my_turn == old(self).my_turn,
                pos == self.pattern_position,
                pos < self.message_patterns@.len(),
                toks == self.current(),
                toks == old(self).current(),
                ntok == toks.len(),
                psk == self.spec_is_psk(),
                message@.len() == old(message)@.len(),
                mlen == message@.len(),
                i <= ntok,
                byte_index <= message@.len(),
                self.s == old(self).s && self.rs == old(self).rs && self.re == old(self).re,
                st0 == old(self).symmetricstate.inner.model(),
                e0 == old(self).e,
                self.fixed_ephemeral ==> self.e.inner == old(self).e.inner,
                forall|en: D| (drawn ==> en == self.e.inner) ==> #[trigger] write_fold(self.symmetricstate.hasher,
                    self.symmetricstate.cipher, toks, st0, e0, en, self.fixed_ephemeral, self.s, (self.rs.on, self.rs.inner@),
                    (self.re.on, self.re.inner@), self.initiator, psk, self.psks@, mlen as nat, Seq::empty())
                    == write_fold(self.symmetricstate.hasher, self.symmetricstate.cipher, toks.subrange(i as int, ntok as int),
                    self.symmetricstate.inner.model(), self.e, en, self.fixed_ephemeral, self.s, (self.rs.on, self.rs.inner@),
                    (self.re.on, self.re.inner@), self.initiator, psk, self.psks@, mlen as nat, message@.subrange(0, byte_index as int)),
            decreases ntok - i,
        {
            let tok = self.message_patterns[pos][i];
            proof {
                lemma_step(toks, i as int);
            }
            let ghost pre_model = self.symmetricstate.inner.model();
            let ghost pre_e = self.e;
            let ghost pre_out = message@.subrange(0, byte_index as int);
            let ghost pre_drawn = drawn;
            let n = match self.write_token(tok, message, byte_index, drawn) {
                Ok(n) => n,
                Err(err) => {
                    proof {
                        let en = self.e.inner;
                        assert(pre_drawn ==> en == pre_e.inner);
                        assert(write_fold(self.symmetricstate.hasher, self.symmetricstate.cipher, toks, st0, e0, en,
                            self.fixed_ephemeral, self.s, (self.rs.on, self.rs.inner@), (self.re.on, self.re.inner@),
                            self.initiator, psk, self.psks@, mlen as nat, Seq::empty())
                            == write_fold(self.symmetricstate.hasher, self.symmetricstate.cipher, toks.subrange(i as int, ntok as int),
                            pre_model, pre_e, en, self.fixed_ephemeral, self.s, (self.rs.on, self.rs.inner@),
                            (self.re.on, self.re.inner@), self.initiator, psk, self.psks@, mlen as nat, pre_out));
                    }
                    return Err(err);
                },
            };
            if let Token::E = tok {
                drawn = true;
            }
            proof {
                assert forall|en: D| (drawn ==> en == self.e.inner) implies #[trigger] write_fold(self.symmetricstate.hasher,
                    self.symmetricstate.cipher, toks, st0, e0, en, self.fixed_ephemeral, self.s, (self.rs.on, self.rs.inner@),
                    (self.re.on, self.re.inner@), self.initiator, psk, self.psks@, mlen as nat, Seq::empty())
                    == write_fold(self.symmetricstate.hasher, self.symmetricstate.cipher, toks.subrange(i + 1, ntok as int),
                    self.symmetricstate.inner.model(), self.e, en, self.fixed_ephemeral, self.s, (self.rs.on, self.rs.inner@),
                    (self.re.on, self.re.inner@), self.initiator, psk, self.psks@, mlen as nat, message@.subrange(0, byte_index + n)) by {
                    assert(pre_drawn ==> en == pre_e.inner);
                    assert(write_step(self.symmetricstate.hasher, self.symmetricstate.cipher, tok, pre_model, pre_e, en,
                        self.fixed_ephemeral, self.s, (self.rs.on, self.rs.inner@), (self.re.on, self.re.inner@), self.initiator,
                        psk, self.psks@, mlen as nat, pre_out) == write_step(self.symmetricstate.hasher, self.symmetricstate.cipher,
                        tok, pre_model, pre_e, self.e.inner, self.fixed_ephemeral, self.s, (self.rs.on, self.rs.inner@),
                        (self.re.on, self.re.inner@), self.initiator, psk, self.psks@, mlen as nat, pre_out));
                }
            }
            byte_index = byte_index + n;
            i = i + 1;
        }
        proof {
            let en = self.e.inner;
            assert(toks.subrange(ntok as int, ntok as int) =~= Seq::<Token>::empty());
            assert(drawn ==> en == self.e.inner);
        }
        Ok(byte_index)
    }

    /// What writing the current message with `payload` into a `len`-byte
    /// buffer yields: the new symmetric state, ephemeral slot and the message
    /// bytes (the token fields in order, then the payload through
    /// `encrypt_and_mix_hash`), or the error. `e_new` is the ephemeral drawn
    /// for the message. The tokens, payload and tag must fit the buffer and
    /// 65535 bytes.
    pub open spec fn spec_write(&self, e_new: D, payload: Seq<u8>, len: nat) -> Result<(SymModel, Toggle<D>, Seq<u8>), Error> {
        match write_fold(self.symmetricstate.hasher, self.symmetricstate.cipher, self.current(),
            self.symmetricstate.inner.model(), self.e, e_new, self.fixed_ephemeral, self.s, (self.rs.on, self.rs.inner@),
            (self.re.on, self.re.inner@), self.initiator, self.spec_is_psk(), self.psks@, len, Seq::empty()) {
            Err(err) => Err(err),
            Ok((st, e2, out)) => if out.len() + payload.len() + TAGLEN > len || out.len() + payload.len() + TAGLEN > MAXMSGLEN
                || (st.3 && st.4 == u64::MAX) {
                Err(Error::Input)
            } else {
                Ok((m_encrypt(self.symmetricstate.hasher, self.symmetricstate.cipher, st, payload), e2,
                    out + m_ct(self.symmetricstate.cipher, st, payload)))
            },
        }
    }

    /// Writes the current message, without the turn checks and rollback.
    #[verifier::rlimit(60)]
    fn write_message_steps(&mut self, payload: &[u8], message: &mut [u8]) -> (r: Result<usize, Error>)
        requires
            old(self).wf(),
            old(self).pattern_position < old(self).message_patterns@.len(),
        ensures
            final(self).wf(),
            final(self).same_setup(old(self)),
            final(message)@.len() == old(message)@.len(),
            final(self).s == old(self).s && final(self).rs == old(self).rs && final(self).re == old(self).re,
            old(self).fixed_ephemeral ==> final(self).e.inner == old(self).e.inner,
            r is Err ==> final(self).my_turn == old(self).my_turn,
            match old(self).spec_write(final(self).e.inner, payload@, old(message)@.len()) {
                Ok((st, e2, bytes)) => r matches Ok(len) && len == bytes.len() && final(self).symmetricstate.inner.model() == st
                    && final(self).e == e2 && final(message)@.subrange(0, len as int) == bytes && !final(self).my_turn,
                Err(err) => r == Err::<usize, Error>(err),
            },
            r is Ok && old(self).pattern_position + 1 == old(self).message_patterns@.len() ==> final(self).cipherstates.0.k@
                == final(self).symmetricstate.spec_split_keys().0 && final(self).cipherstates.1.k@
                == final(self).symmetricstate.spec_split_keys().1 && final(self).cipherstates.0.k@.len() == CIPHERKEYLEN
                && final(self).cipherstates.1.k@.len() == CIPHERKEYLEN && final(self).cipherstates.0.n == 0
                && final(self).cipherstates.1.n == 0 && final(self).cipherstates.0.has_key && final(self).cipherstates.1.has_key,
    {
        let byte_index = self.write_tokens(message)?;
        let pos = self.pattern_position;
        if byte_index > MAXMSGLEN || message.len() - byte_index < TAGLEN || payload.len() > message.len() - byte_index - TAGLEN
            || payload.len() + TAGLEN > MAXMSGLEN - byte_index {
            return Err(Error::Input);
        }
        let ghost mid = message@;
        let n = self.symmetricstate.encrypt_and_mix_hash(payload, message, byte_index)?;
        let len = byte_index + n;
        assert(message@.subrange(0, len as int) =~= mid.subrange(0, byte_index as int) + message@.subrange(byte_index as int, len as int));
        if pos == self.message_patterns.len() - 1 {
            self.cipherstates = self.symmetricstate.split();
        }
        self.my_turn = false;
        Ok(len)
    }

    /// A message round trip: when writer `w` and reader `r` are at the same
    /// message with the same symmetric state, primitives, pre-shared keys and
    /// opposite roles, the cipher is sound, static keys are DH-length, and
    /// the sides' DH results agree as the message proceeds, then reading
    /// exactly the bytes that `w` writes (with the ephemeral `e_new`) into a
    /// large enough buffer gives back the payload and leaves `r` in `w`'s new
    /// symmetric state, so both have the same handshake hash and keys.
    pub proof fn lemma_write_read_round_trip(w: Self, r: Self, e_new: D, payload: Seq<u8>, len: nat, payload_len: nat)
        requires
            w.spec_write(e_new, payload, len) is Ok,
            payload_len >= payload.len(),
            w.symmetricstate.inner.model() == r.symmetricstate.inner.model(),
            w.symmetricstate.hasher == r.symmetricstate.hasher,
            w.symmetricstate.cipher == r.symmetricstate.cipher,
            w.current() == r.current(),
            r.initiator == !w.initiator,
            w.spec_is_psk() == r.spec_is_psk(),
            w.psks@ == r.psks@,
            sound_cipher(w.symmetricstate.cipher),
            r.s.inner.spec_pub_len() == w.s.inner.spec_pub_len(),
            w.s.inner.spec_pubkey().len() == w.s.inner.spec_pub_len(),
            sides_agree(w.symmetricstate.hasher, w.symmetricstate.cipher, w.current(), w.symmetricstate.inner.model(), w.e,
                e_new, w.fixed_ephemeral, w.s, (w.rs.on, w.rs.inner@), (w.re.on, w.re.inner@), w.initiator, w.spec_is_psk(),
                w.psks@, len, Seq::empty(), r.s, r.e, (r.rs.on, r.rs.inner@), (r.re.on, r.re.inner@)),
        ensures
            r.spec_read(w.spec_write(e_new, payload, len)->Ok_0.2, payload_len) is Ok,
            r.spec_read(w.spec_write(e_new, payload, len)->Ok_0.2, payload_len)->Ok_0.0 == w.spec_write(e_new, payload, len)->Ok_0.0,
            r.spec_read(w.spec_write(e_new, payload, len)->Ok_0.2, payload_len)->Ok_0.3 == payload,
    {
        let hs = w.symmetricstate.hasher;
        let c = w.symmetricstate.cipher;
        let wf_ = write_fold(hs, c, w.current(), w.symmetricstate.inner.model(), w.e, e_new, w.fixed_ephemeral, w.s,
            (w.rs.on, w.rs.inner@), (w.re.on, w.re.inner@), w.initiator, w.spec_is_psk(), w.psks@, len, Seq::empty())->Ok_0;
        let st = wf_.0;
        let out = wf_.2;
        let ct = m_ct(c, st, payload);
        let msg = out + ct;
        crate::symmetricstate::lemma_encrypt_then_decrypt(hs, c, st, payload);
        if st.3 {
            assert(c.seal(st.2, st.4, st.0, payload).len() == payload.len() + TAGLEN);
        }
        assert(msg.subrange(0, out.len() as int) =~= out);
        lemma_message_round_trip(hs, c, w.current(), w.symmetricstate.inner.model(), w.e, e_new, w.fixed_ephemeral, w.s,
            (w.rs.on, w.rs.inner@), (w.re.on, w.re.inner@), w.initiator, w.spec_is_psk(), w.psks@, len, Seq::empty(), r.s, r.e,
            (r.rs.on, r.rs.inner@), (r.re.on, r.re.inner@), msg);
        assert(!r.initiator == w.initiator);
        assert(msg.subrange(out.len() as int, msg.len() as int) =~= ct);
    }

    /// Reads one token of the current message at `at`; returns the bytes read.
    #[verifier::rlimit(60)]
    #[verifier::spinoff_prover]
    fn read_token(&mut self, tok: Token, message: &[u8], at: usize) -> (r: Result<usize, Error>)
        requires
            old(self).wf(),
            at <= message@.len(),
        ensures
            final(self).wf(),
            final(self).same_setup(old(self)),
            final(self).my_turn == old(self).my_turn,
            final(self).s == old(self).s && final(self).e == old(self).e,
            r matches Ok(n) ==> at + n <= message@.len(),
            read_step(old(self).symmetricstate.hasher, old(self).symmetricstate.cipher, tok, old(self).symmetricstate.inner.model(),
                old(self).s, old(self).e, (old(self).rs.on, old(self).rs.inner@), (old(self).re.on, old(self).re.inner@),
                old(self).initiator, old(self).spec_is_psk(), old(self).psks@, message@, at as nat) == match r {
                Ok(n) => Ok((final(self).symmetricstate.inner.model(), (final(self).rs.on, final(self).rs.inner@),
                    (final(self).re.on, final(self).re.inner@), (at + n) as nat)),
                Err(err) => Err::<(SymModel, (bool, Seq<u8>), (bool, Seq<u8>), nat), Error>(err),
            },
    {
        let dh_len = self.dh_len();
        match tok {
            Token::E => {
                if message.len() - at < dh_len {
                    return Err(Error::Input);
                }
                let ghost old_re = self.re.inner@;
                copy_at(slice_subrange(message, at, at + dh_len), self.re.inner.as_mut_slice(), 0);
                assert(self.re.inner@ =~= message@.subrange(at as int, at + dh_len) + old_re.subrange(dh_len as int, old_re.len() as int));
                self.symmetricstate.mix_hash(slice_subrange(self.re.inner.as_slice(), 0, dh_len));
                if self.params.handshake.is_psk() {
                    self.symmetricstate.mix_key(slice_subrange(self.re.inner.as_slice(), 0, dh_len));
                }
                self.re.enable();
                Ok(dh_len)
            },
            Token::S => {
                let tag: usize = if self.symmetricstate.has_key() { TAGLEN } else { 0 };
                if message.len() - at < dh_len + tag {
                    return Err(Error::Input);
                }
                let data = slice_subrange(message, at, at + dh_len + tag);
                let ghost old_rs = self.rs.inner@;
                let n = self.symmetricstate.decrypt_and_mix_hash(data, self.rs.inner.as_mut_slice())?;
                assert(self.rs.inner@ =~= self.rs.inner@.subrange(0, n as int) + old_rs.subrange(n as int, old_rs.len() as int));
                self.rs.enable();
                Ok(dh_len + tag)
            },
            _ => {
                self.mix_token_keys(tok)?;
                Ok(0)
            },
        }
    }

    /// What reading `msg` as the current message into a `payload_len`-byte
    /// buffer yields: the new symmetric state, `rs`, `re` and the payload,
    /// or the error. The message may not pass 65535 bytes, and the payload,
    /// after its tag once a key is set, must fit the buffer.
    pub open spec fn spec_read(&self, msg: Seq<u8>, payload_len: nat)
        -> Result<(SymModel, (bool, Seq<u8>), (bool, Seq<u8>), Seq<u8>), Error> {
        if msg.len() > MAXMSGLEN {
            Err(Error::Input)
        } else {
            match read_fold(self.symmetricstate.hasher, self.symmetricstate.cipher, self.current(),
                self.symmetricstate.inner.model(), self.s, self.e, (self.rs.on, self.rs.inner@), (self.re.on, self.re.inner@),
                self.initiator, self.spec_is_psk(), self.psks@, msg, 0) {
                Err(err) => Err(err),
                Ok((st, rs2, re2, at)) => {
                    let rest = msg.subrange(at as int, msg.len() as int);
                    if rest.len() > payload_len + if st.3 { TAGLEN as nat } else { 0 } || (st.3 && st.4 == u64::MAX) {
                        Err(Error::Input)
                    } else {
                        match m_pt(self.symmetricstate.cipher, st, rest) {
                            None => Err(Error::Decrypt),
                            Some(pt) => Ok((m_decrypt(self.symmetricstate.hasher, st, rest), rs2, re2, pt)),
                        }
                    }
                },
            }
        }
    }

    /// Reads the current message, without the turn checks and rollback.
    #[verifier::rlimit(80)]
    #[verifier::spinoff_prover]
    fn read_message_steps(&mut self, message: &[u8], payload: &mut [u8]) -> (r: Result<usize, Error>)
        requires
            old(self).wf(),
            old(self).pattern_position < old(self).message_patterns@.len(),
        ensures
            final(self).wf(),
            final(self).same_setup(old(self)),
            final(self).s == old(self).s && final(self).e == old(self).e,
            final(payload)@.len() == old(payload)@.len(),
            r is Err ==> final(self).my_turn == old(self).my_turn,
            message@.len() > MAXMSGLEN ==> final(payload)@ == old(payload)@,
            match old(self).spec_read(message@, old(payload)@.len()) {
                Ok((st, rs2, re2, pt)) => r matches Ok(n) && n == pt.len() && final(self).symmetricstate.inner.model() == st
                    && (final(self).rs.on, final(self).rs.inner@) == rs2 && (final(self).re.on, final(self).re.inner@) == re2
                    && final(payload)@.subrange(0, n as int) == pt && final(self).my_turn,
                Err(err) => r == Err::<usize, Error>(err),
            },
            r is Ok && old(self).pattern_position + 1 == old(self).message_patterns@.len() ==> final(self).cipherstates.0.k@
                == final(self).symmetricstate.spec_split_keys().0 && final(self).cipherstates.1.k@
                == final(self).symmetricstate.spec_split_keys().1 && final(self).cipherstates.0.k@.len() == CIPHERKEYLEN
                && final(self).cipherstates.1.k@.len() == CIPHERKEYLEN && final(self).cipherstates.0.n == 0
                && final(self).cipherstates.1.n == 0 && final(self).cipherstates.0.has_key && final(self).cipherstates.1.has_key,
    {
        if message.len() > MAXMSGLEN {
            return Err(Error::Input);
        }
        let pos = self.pattern_position;
        let psk = self.params.handshake.is_psk();
        let ghost toks = self.current();
        let ntok = self.message_patterns[pos].len();
        let mlen = message.len();
        let mut at: usize = 0;
        let mut i: usize = 0;
        let ghost st0 = self.symmetricstate.inner.model();
        let ghost rs0 = (self.rs.on, self.rs.inner@);
        let ghost re0 = (self.re.on, self.re.inner@);
        assert(toks.subrange(0, ntok as int) =~= toks);
        while i < ntok
            invariant
                self.wf(),
                self.same_setup(old(self)),
                self.my_turn == old(self).my_turn,
                self.s == old(self).s && self.e == old(self).e,
                pos == self.pattern_position,
                pos < self.message_patterns@.len(),
                toks == self.current(),
                toks == old(self).current(),
                ntok == toks.len(),
                psk == self.spec_is_psk(),
                mlen == message@.len(),
                mlen <= MAXMSGLEN,
                payload@ == old(payload)@,
                i <= ntok,
                at <= mlen,
                st0 == old(self).symmetricstate.inner.model(),
                rs0 == (old(self).rs.on, old(self).rs.inner@),
                re0 == (old(self).re.on, old(self).re.inner@),
                read_fold(self.symmetricstate.hasher, self.symmetricstate.cipher, toks, st0, self.s, self.e, rs0, re0,
                    self.initiator, psk, self.psks@, message@, 0) == read_fold(self.symmetricstate.hasher,
                    self.symmetricstate.cipher, toks.subrange(i as int, ntok as int), self.symmetricstate.inner.model(), self.s,
                    self.e, (self.rs.on, self.rs.inner@), (self.re.on, self.re.inner@), self.initiator, psk, self.psks@,
                    message@, at as nat),
            decreases ntok - i,
        {
            let tok = self.message_patterns[pos][i];
            proof {
                lemma_step(toks, i as int);
            }
            let n = self.read_token(tok, message, at)?;
            at = at + n;
            i = i + 1;
        }
        assert(toks.subrange(ntok as int, ntok as int) =~= Seq::<Token>::empty());
        let rest = slice_subrange(message, at, mlen);
        let tag: usize = if self.symmetricstate.has_key() { TAGLEN } else { 0 };
        if rest.len() > payload.len() && rest.len() - payload.len() > tag {
            return Err(Error::Input);
        }
        let n = self.symmetricstate.decrypt_and_mix_hash(rest, payload)?;
        self.my_turn = true;
        if pos == self.message_patterns.len() - 1 {
            self.cipherstates = self.symmetricstate.split();
        }
        Ok(n)
    }

    /// Writes the next handshake message into `message`, carrying `payload`,
    /// and returns its length: the token fields and payload as `spec_write`
    /// gives them, with the ephemeral drawn for this message. On an error the
    /// hash, chaining key and cipher key are as before the call, and the
    /// handshake does not advance.
    pub fn write_handshake_message(&mut self, payload: &[u8], message: &mut [u8]) -> (r: Result<usize, Error>)
        requires
            old(self).wf(),
        ensures
            final(self).wf(),
            final(self).same_config(old(self)),
            final(message)@.len() == old(message)@.len(),
            final(self).s == old(self).s && final(self).rs == old(self).rs && final(self).re == old(self).re,
            old(self).fixed_ephemeral ==> final(self).e.inner == old(self).e.inner,
            !old(self).my_turn ==> r == Err::<usize, Error>(Error::State(StateProblem::NotTurnToWrite))
                && *final(self) == *old(self) && final(message)@ == old(message)@,
            old(self).my_turn && old(self).spec_is_finished() ==> r == Err::<usize, Error>(
                Error::State(StateProblem::HandshakeAlreadyFinished),
            ) && *final(self) == *old(self) && final(message)@ == old(message)@,
            old(self).my_turn && !old(self).spec_is_finished() ==> match old(self).spec_write(final(self).e.inner, payload@,
                old(message)@.len()) {
                Ok((st, e2, bytes)) => r matches Ok(len) && len == bytes.len() && final(self).symmetricstate.inner.model() == st
                    && final(self).e == e2 && final(message)@.subrange(0, len as int) == bytes,
                Err(err) => r == Err::<usize, Error>(err),
            },
            match r {
                Ok(len) => {
                    &&& old(self).my_turn && !old(self).spec_is_finished()
                    &&& final(self).pattern_position == old(self).pattern_position + 1
                    &&& !final(self).my_turn
                    &&& final(self).spec_is_finished() ==> final(self).cipherstates.0.k@
                        == final(self).symmetricstate.spec_split_keys().0 && final(self).cipherstates.1.k@
                        == final(self).symmetricstate.spec_split_keys().1 && final(self).cipherstates.0.k@.len() == CIPHERKEYLEN
                        && final(self).cipherstates.1.k@.len() == CIPHERKEYLEN && final(self).cipherstates.0.n == 0
                        && final(self).cipherstates.1.n == 0 && final(self).cipherstates.0.has_key
                        && final(self).cipherstates.1.has_key
                },
                Err(_) => {
                    &&& final(self).symmetricstate.inner.model() == old(self).symmetricstate.inner.model()
                    &&& final(self).pattern_position == old(self).pattern_position
                    &&& final(self).my_turn == old(self).my_turn
                },
            },
    {
        if !self.my_turn {
            return Err(Error::State(StateProblem::NotTurnToWrite));
        }
        if self.pattern_position >= self.message_patterns.len() {
            return Err(Error::State(StateProblem::HandshakeAlreadyFinished));
        }
        let checkpoint = self.symmetricstate.checkpoint();
        match self.write_message_steps(payload, message) {
            Ok(len) => {
                self.pattern_position = self.pattern_position + 1;
                Ok(len)
            },
            Err(err) => {
                self.symmetricstate.restore(checkpoint);
                Err(err)
            },
        }
    }

    /// Reads the next handshake message from `message`, puts its payload in
    /// `payload`, and returns the payload's length: the state, `rs`, `re` and
    /// payload as `spec_read` gives them. On an error the hash, chaining key
    /// and cipher key are as before the call, and the handshake does not
    /// advance.
    pub fn read_handshake_message(&mut self, message: &[u8], payload: &mut [u8]) -> (r: Result<usize, Error>)
        requires
            old(self).wf(),
        ensures
            final(self).wf(),
            final(self).same_config(old(self)),
            final(self).s == old(self).s && final(self).e == old(self).e,
            final(payload)@.len() == old(payload)@.len(),
            old(self).my_turn ==> r == Err::<usize, Error>(Error::State(StateProblem::NotTurnToRead))
                && *final(self) == *old(self) && final(payload)@ == old(payload)@,
            !old(self).my_turn && old(self).spec_is_finished() ==> r == Err::<usize, Error>(
                Error::State(StateProblem::HandshakeAlreadyFinished),
            ) && *final(self) == *old(self) && final(payload)@ == old(payload)@,
            message@.len() > MAXMSGLEN ==> final(payload)@ == old(payload)@,
            !old(self).my_turn && !old(self).spec_is_finished() ==> match old(self).spec_read(message@, old(payload)@.len()) {
                Ok((st, rs2, re2, pt)) => r matches Ok(n) && n == pt.len() && final(self).symmetricstate.inner.model() == st
                    && (final(self).rs.on, final(self).rs.inner@) == rs2 && (final(self).re.on, final(self).re.inner@) == re2
                    && final(payload)@.subrange(0, n as int) == pt,
                Err(err) => r == Err::<usize, Error>(err),
            },
            match r {
                Ok(len) => {
                    &&& !old(self).my_turn && !old(self).spec_is_finished()
                    &&& final(self).pattern_position == old(self).pattern_position + 1
                    &&& final(self).my_turn
                    &&& final(self).spec_is_finished() ==> final(self).cipherstates.0.k@
                        == final(self).symmetricstate.spec_split_keys().0 && final(self).cipherstates.1.k@
                        == final(self).symmetricstate.spec_split_keys().1 && final(self).cipherstates.0.k@.len() == CIPHERKEYLEN
                        && final(self).cipherstates.1.k@.len() == CIPHERKEYLEN && final(self).cipherstates.0.n == 0
                        && final(self).cipherstates.1.n == 0 && final(self).cipherstates.0.has_key
                        && final(self).cipherstates.1.has_key
                },
                Err(_) => {
                    &&& final(self).symmetricstate.inner.model() == old(self).symmetricstate.inner.model()
                    &&& final(self).pattern_position == old(self).pattern_position
                    &&& final(self).my_turn == old(self).my_turn
                },
            },
    {
        if self.my_turn {
            return Err(Error::State(StateProblem::NotTurnToRead));
        }
        if self.pattern_position >= self.message_patterns.len() {
            return Err(Error::State(StateProblem::HandshakeAlreadyFinished));
        }
        let checkpoint = self.symmetricstate.checkpoint();
        match self.read_message_steps(message, payload) {
            Ok(len) => {
                self.pattern_position = self.pattern_position + 1;
                Ok(len)
            },
            Err(err) => {
                self.symmetricstate.restore(checkpoint);
                Err(err)
            },
        }
    }

    /// Sets the pre-shared key at `location`.
    pub fn set_psk(&mut self, location: usize, key: &[u8]) -> (r: Result<(), Error>)
        requires
            old(self).wf(),
        ensures
            final(self).wf(),
            final(self).symmetricstate == old(self).symmetricstate,
            final(self).pattern_position == old(self).pattern_position,
            final(self).my_turn == old(self).my_turn,
            final(self).message_patterns == old(self).message_patterns,
            r is Err <==> key@.len() != PSKLEN || location >= PSK_SLOTS,
            r is Err ==> r == Err::<(), Error>(Error::Input) && final(self).psks == old(self).psks,
            r is Ok ==> final(self).psks@.len() == old(self).psks@.len()
                && final(self).psks@[location as int] is Some
                && final(self).psks@[location as int]->Some_0@ == key@
                && forall|i: int| 0 <= i < final(self).psks@.len() && i != location ==> final(self).psks@[i] == old(self).psks@[i],
    {
        if key.len() != PSKLEN || location >= self.psks.len() {
            return Err(Error::Input);
        }
        let new_psk = vstd::slice::slice_to_vec(key);
        self.psks[location] = Some(new_psk);
        Ok(())
    }

    /// The remote party's static public key, once known.
    pub fn get_remote_static(&self) -> (r: Option<&[u8]>)
        requires
            self.wf(),
        ensures
            self.rs.on ==> r is Some && r->Some_0@ == self.rs.inner@.subrange(0, self.spec_dh_len() as int),
            !self.rs.on ==> r is None,
    {
        if self.rs.is_on() {
            Some(slice_subrange(self.rs.inner.as_slice(), 0, self.dh_len()))
        } else {
            None
        }
    }

    /// The transcript hash so far.
    pub fn get_handshake_hash(&self) -> (r: &[u8])
        ensures
            r@ == self.symmetricstate.inner.h@,
    {
        self.symmetricstate.handshake_hash()
    }

    pub fn is_initiator(&self) -> (r: bool)
        ensures
            r == self.initiator,
    {
        self.initiator
    }

    /// Whether every message of the pattern has been sent or received.
    pub fn is_finished(&self) -> (r: bool)
        ensures
            r == self.spec_is_finished(),
    {
        self.pattern_position == self.message_patterns.len()
    }

    /// The transport cipher states, initiator to responder first; they hold
    /// keys once the handshake is finished.
    pub fn get_cipherstates(&self) -> (r: (&CipherState, &CipherState))
        ensures
            *r.0 == self.cipherstates.0,
            *r.1 == self.cipherstates.1,
    {
        (&self.cipherstates.0, &self.cipherstates.1)
    }
}

} // verus!
