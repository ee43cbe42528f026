use snow::error::{Error, StateProblem};
use snow::handshakestate::HandshakeState;
use snow::symmetricstate::SymmetricState;
use snow::params::{HandshakeTokens, NoiseParams, Token};
use snow::types::{Cipher, Dh, Random};
use snow::utils::{copy_memory, Toggle};

const MODULUS: u128 = 2305843009213693951;
const GENERATOR: u128 = 3;

fn modpow(base: u128, mut exp: u64) -> u128 {
    let mut result: u128 = 1;
    let mut b = base % MODULUS;
    while exp > 0 {
        if exp & 1 == 1 {
            result = result * b % MODULUS;
        }
        b = b * b % MODULUS;
        exp >>= 1;
    }
    result
}

fn read_u64(bytes: &[u8]) -> u64 {
    let mut x: u64 = 0;
    for (i, b) in bytes.iter().take(8).enumerate() {
        x |= (*b as u64) << (8 * i);
    }
    x
}

fn key_bytes(x: u64) -> [u8; 32] {
    let mut out = [0u8; 32];
    out[..8].copy_from_slice(&x.to_le_bytes());
    out
}

/// A commutative toy key agreement: exponentiation modulo a prime.
struct ToyDh {
    privkey: u64,
    pubkey: [u8; 32],
}

impl ToyDh {
    fn empty() -> ToyDh {
        ToyDh { privkey: 0, pubkey: [0u8; 32] }
    }

    fn from_secret(x: u64) -> ToyDh {
        let mut d = ToyDh::empty();
        d.set(&key_bytes(x));
        d
    }
}

impl Dh for ToyDh {
    fn name(&self) -> &'static str {
        "toy"
    }

    fn pub_len(&self) -> usize {
        32
    }

    fn priv_len(&self) -> usize {
        32
    }

    fn set(&mut self, privkey: &[u8]) {
        self.privkey = read_u64(privkey) % (MODULUS as u64 - 2) + 1;
        let p = modpow(GENERATOR, self.privkey) as u64;
        self.pubkey = key_bytes(p);
    }

    fn pubkey(&self) -> &[u8] {
        &self.pubkey
    }

    fn dh(&self, pubkey: &[u8]) -> Result<Vec<u8>, ()> {
        let y = read_u64(pubkey) as u128;
        if y == 0 || y >= MODULUS {
            return Err(());
        }
        Ok(key_bytes(modpow(y, self.privkey) as u64).to_vec())
    }
}

fn mix64(mut z: u64) -> u64 {
    z = (z ^ (z >> 30)).wrapping_mul(0xbf58476d1ce4e5b9);
    z = (z ^ (z >> 27)).wrapping_mul(0x94d049bb133111eb);
    z ^ (z >> 31)
}

fn toy_digest(data: &[u8]) -> Vec<u8> {
    let mut state: [u64; 4] = [0x6a09e667f3bcc908, 0xbb67ae8584caa73b, 0x3c6ef372fe94f82b, 0xa54ff53a5f1d36f1];
    for (i, b) in data.iter().enumerate() {
        let lane = i % 4;
        state[lane] = mix64(state[lane] ^ (*b as u64) ^ ((i as u64) << 8));
        state[(lane + 1) % 4] ^= state[lane].rotate_left(17);
    }
    state[0] ^= data.len() as u64;
    for round in 0..4 {
        for lane in 0..4 {
            state[lane] = mix64(state[lane] ^ state[(lane + 3) % 4] ^ round);
        }
    }
    let mut out = Vec::with_capacity(32);
    for lane in state.iter() {
        out.extend_from_slice(&lane.to_le_bytes());
    }
    out
}

/// A toy 32-byte hash.
struct ToyHash;

impl snow::types::Hash for ToyHash {
    fn name(&self) -> &'static str {
        "toyhash"
    }

    fn hash_len(&self) -> usize {
        32
    }

    fn block_len(&self) -> usize {
        64
    }

    fn hash(&self, data: &[u8]) -> Vec<u8> {
        toy_digest(data)
    }
}

/// A toy AEAD: a keystream XOR and a 16-byte tag over key, nonce, ad and ciphertext.
struct ToyCipher;

fn keystream(key: &[u8], nonce: u64, len: usize) -> Vec<u8> {
    let mut seed_in = key.to_vec();
    seed_in.extend_from_slice(&nonce.to_le_bytes());
    let seed = toy_digest(&seed_in);
    let mut s = read_u64(&seed);
    let mut out = Vec::with_capacity(len);
    while out.len() < len {
        s = mix64(s.wrapping_add(0x9e3779b97f4a7c15));
        for b in s.to_le_bytes().iter() {
            if out.len() < len {
                out.push(*b);
            }
        }
    }
    out
}

fn tag(key: &[u8], nonce: u64, ad: &[u8], ct: &[u8]) -> Vec<u8> {
    let mut input = key.to_vec();
    input.extend_from_slice(&nonce.to_le_bytes());
    input.extend_from_slice(&(ad.len() as u64).to_le_bytes());
    input.extend_from_slice(ad);
    input.extend_from_slice(ct);
    toy_digest(&input)[..16].to_vec()
}

impl Cipher for ToyCipher {
    fn name(&self) -> &'static str {
        "toycipher"
    }

    fn encrypt(&self, key: &[u8], nonce: u64, ad: &[u8], plaintext: &[u8]) -> Vec<u8> {
        let ks = keystream(key, nonce, plaintext.len());
        let mut ct: Vec<u8> = plaintext.iter().zip(ks.iter()).map(|(a, b)| a ^ b).collect();
        let t = tag(key, nonce, ad, &ct);
        ct.extend_from_slice(&t);
        ct
    }

    fn decrypt(&self, key: &[u8], nonce: u64, ad: &[u8], ciphertext: &[u8]) -> Option<Vec<u8>> {
        if ciphertext.len() < 16 {
            return None;
        }
        let (body, t) = ciphertext.split_at(ciphertext.len() - 16);
        if tag(key, nonce, ad, body) != t {
            return None;
        }
        let ks = keystream(key, nonce, body.len());
        Some(body.iter().zip(ks.iter()).map(|(a, b)| a ^ b).collect())
    }
}

/// A deterministic byte source.
struct ToyRng(u64);

impl Random for ToyRng {
    fn fill_bytes(&mut self, out: &mut [u8]) {
        for b in out.iter_mut() {
            self.0 = mix64(self.0.wrapping_add(1));
            *b = self.0 as u8;
        }
    }
}

type Toy = HandshakeState<ToyDh, ToyHash, ToyCipher, ToyRng>;

fn no_psks() -> Vec<Option<Vec<u8>>> {
    vec![None; 10]
}

fn remote(key: Option<&ToyDh>) -> Toggle<Vec<u8>> {
    match key {
        Some(k) => {
            let mut buf = vec![0u8; 56];
            copy_memory(k.pubkey(), &mut buf);
            Toggle::on(buf)
        }
        None => Toggle::off(vec![0u8; 56]),
    }
}

struct Setup<'a> {
    name: &'a str,
    initiator: bool,
    s: Option<u64>,
    e: Option<u64>,
    rs: Option<&'a ToyDh>,
    psks: Vec<Option<Vec<u8>>>,
    prologue: &'a [u8],
    seed: u64,
}

fn build(setup: Setup) -> Result<Toy, Error> {
    let params = NoiseParams::from_name(setup.name)?;
    let s = match setup.s {
        Some(x) => Toggle::on(ToyDh::from_secret(x)),
        None => Toggle::off(ToyDh::empty()),
    };
    let (e, fixed) = match setup.e {
        Some(x) => (Toggle::off(ToyDh::from_secret(x)), true),
        None => (Toggle::off(ToyDh::empty()), false),
    };
    HandshakeState::new(
        ToyRng(setup.seed),
        ToyCipher,
        ToyHash,
        s,
        e,
        fixed,
        remote(setup.rs),
        remote(None),
        setup.initiator,
        params,
        setup.psks,
        setup.prologue,
    )
}

/// Runs both sides to the end, checking each payload arrives; returns the
/// number of messages.
fn run(init: &mut Toy, resp: &mut Toy) -> usize {
    let mut count = 0;
    while !(init.is_finished() && resp.is_finished()) {
        let payload = format!("message {}", count).into_bytes();
        let mut wire = vec![0u8; 1024];
        let mut out = vec![0u8; 1024];
        let (w, r) = if init.my_turn { (&mut *init, &mut *resp) } else { (&mut *resp, &mut *init) };
        let len = w.write_handshake_message(&payload, &mut wire).unwrap();
        let n = r.read_handshake_message(&wire[..len], &mut out).unwrap();
        assert_eq!(&out[..n], &payload[..]);
        count += 1;
    }
    count
}

const PATTERNS: [&str; 38] = [
    "N", "K", "X", "NN", "NK", "NX", "XN", "XK", "XX", "KN", "KK", "KX", "IN", "IK", "IX", "NK1",
    "NX1", "X1N", "X1K", "XK1", "X1K1", "X1X", "XX1", "X1X1", "K1N", "K1K", "KK1", "K1K1", "K1X",
    "KX1", "K1X1", "I1N", "I1K", "IK1", "I1K1", "I1X", "IX1", "I1X1",
];

fn pair(name: &str, prologue: &[u8], psk_slots: &[usize]) -> (Toy, Toy) {
    let params = NoiseParams::from_name(name).unwrap();
    let tokens = HandshakeTokens::try_from(&params.handshake).unwrap();
    let i_static = ToyDh::from_secret(1111);
    let r_static = ToyDh::from_secret(2222);
    let mut psks = no_psks();
    for slot in psk_slots {
        psks[*slot] = Some(vec![*slot as u8 + 7; 32]);
    }
    let init = build(Setup {
        name,
        initiator: true,
        s: Some(1111),
        e: None,
        rs: if tokens.premsg_pattern_r.contains(&Token::S) { Some(&r_static) } else { None },
        psks: psks.clone(),
        prologue,
        seed: 1,
    })
    .unwrap();
    let resp = build(Setup {
        name,
        initiator: false,
        s: Some(2222),
        e: None,
        rs: if tokens.premsg_pattern_i.contains(&Token::S) { Some(&i_static) } else { None },
        psks,
        prologue,
        seed: 2,
    })
    .unwrap();
    (init, resp)
}

#[test]
fn every_pattern_runs_to_matching_transcripts() {
    for pat in PATTERNS.iter() {
        for suffix in ["", "psk0", "psk1", "psk0+psk2"].iter() {
            let name = format!("Noise_{}{}_25519_ChaChaPoly_SHA256", pat, suffix);
            if suffix.contains("psk2") && NoiseParams::from_name(&name).ok().and_then(|p| HandshakeTokens::try_from(&p.handshake).ok()).is_none() {
                continue;
            }
            let (mut init, mut resp) = pair(&name, b"some prologue", &[0, 1, 2]);
            assert_eq!(init.get_handshake_hash(), resp.get_handshake_hash(), "{}", name);
            run(&mut init, &mut resp);
            assert!(init.is_finished() && resp.is_finished());
            assert_eq!(init.get_handshake_hash(), resp.get_handshake_hash(), "{}", name);
            let (i0, i1) = init.get_cipherstates();
            let (r0, r1) = resp.get_cipherstates();
            assert_eq!(i0.k, r0.k);
            assert_eq!(i1.k, r1.k);
            assert_ne!(i0.k, i1.k);
            assert_eq!(i0.k.len(), 32);
            assert!(i0.n == 0 && r1.n == 0);
        }
    }
}

#[test]
fn new_handshake_starts_at_first_message() {
    let (init, resp) = pair("Noise_XX_25519_AESGCM_SHA256", b"", &[]);
    assert!(!init.is_finished() && !resp.is_finished());
    assert_eq!(init.pattern_position, 0);
    assert!(init.my_turn && init.is_initiator());
    assert!(!resp.my_turn && !resp.is_initiator());
    assert_eq!(init.get_handshake_hash().len(), 32);
}

#[test]
fn nn_two_messages_with_fresh_transport_keys() {
    let (mut init, mut resp) = pair("Noise_NN_25519_ChaChaPoly_SHA256", b"", &[]);
    let mut wire = vec![0u8; 200];
    let mut out = vec![0u8; 200];
    let len = init.write_handshake_message(b"", &mut wire).unwrap();
    assert_eq!(len, 32);
    assert!(!init.was_write_payload_encrypted());
    assert_eq!(resp.read_handshake_message(&wire[..len], &mut out).unwrap(), 0);
    let len = resp.write_handshake_message(b"", &mut wire).unwrap();
    assert_eq!(len, 48);
    assert!(resp.was_write_payload_encrypted());
    assert_eq!(init.read_handshake_message(&wire[..len], &mut out).unwrap(), 0);
    assert!(init.is_finished() && resp.is_finished());
    assert_eq!(init.get_handshake_hash(), resp.get_handshake_hash());
    let (i0, _) = init.get_cipherstates();
    let (r0, _) = resp.get_cipherstates();
    assert_eq!(i0.k.len(), 32);
    assert_eq!(i0.k, r0.k);
    assert_eq!(i0.n, 0);
}

fn xx_pair(prologue: &[u8]) -> (Toy, Toy) {
    let init = build(Setup {
        name: "Noise_XX_25519_AESGCM_SHA256",
        initiator: true,
        s: Some(1111),
        e: Some(3333),
        rs: None,
        psks: no_psks(),
        prologue,
        seed: 1,
    })
    .unwrap();
    let resp = build(Setup {
        name: "Noise_XX_25519_AESGCM_SHA256",
        initiator: false,
        s: Some(2222),
        e: Some(4444),
        rs: None,
        psks: no_psks(),
        prologue,
        seed: 2,
    })
    .unwrap();
    (init, resp)
}

#[test]
fn xx_responder_learns_initiator_static_last() {
    let (mut init, mut resp) = xx_pair(b"prologue");
    let mut wire = vec![0u8; 300];
    let mut out = vec![0u8; 300];
    let len = init.write_handshake_message(b"", &mut wire).unwrap();
    assert_eq!(len, 32);
    resp.read_handshake_message(&wire[..len], &mut out).unwrap();
    assert!(resp.get_remote_static().is_none());
    let len = resp.write_handshake_message(b"", &mut wire).unwrap();
    assert_eq!(len, 32 + 48 + 16);
    init.read_handshake_message(&wire[..len], &mut out).unwrap();
    assert_eq!(init.get_remote_static().unwrap(), ToyDh::from_secret(2222).pubkey());
    assert!(resp.get_remote_static().is_none());
    let len = init.write_handshake_message(b"", &mut wire).unwrap();
    assert_eq!(len, 48 + 16);
    resp.read_handshake_message(&wire[..len], &mut out).unwrap();
    assert_eq!(resp.get_remote_static().unwrap(), ToyDh::from_secret(1111).pubkey());
    assert_eq!(init.get_handshake_hash(), resp.get_handshake_hash());
}

#[test]
fn ik_two_messages_with_known_responder_static() {
    let r_static = ToyDh::from_secret(2222);
    let mut init = build(Setup {
        name: "Noise_IK_25519_ChaChaPoly_BLAKE2s",
        initiator: true,
        s: Some(1111),
        e: None,
        rs: Some(&r_static),
        psks: no_psks(),
        prologue: b"",
        seed: 9,
    })
    .unwrap();
    let mut resp = build(Setup {
        name: "Noise_IK_25519_ChaChaPoly_BLAKE2s",
        initiator: false,
        s: Some(2222),
        e: None,
        rs: None,
        psks: no_psks(),
        prologue: b"",
        seed: 10,
    })
    .unwrap();
    assert_eq!(run(&mut init, &mut resp), 2);
    assert_eq!(init.get_handshake_hash(), resp.get_handshake_hash());
    assert_eq!(resp.get_remote_static().unwrap(), ToyDh::from_secret(1111).pubkey());
}

#[test]
fn ik_without_responder_static_is_missing_key_material() {
    let r = build(Setup {
        name: "Noise_IK_25519_ChaChaPoly_BLAKE2s",
        initiator: true,
        s: Some(1111),
        e: None,
        rs: None,
        psks: no_psks(),
        prologue: b"",
        seed: 9,
    });
    assert_eq!(r.err(), Some(Error::State(StateProblem::MissingKeyMaterial)));
}

#[test]
fn xxpsk0_needs_the_psk_on_both_sides() {
    let (mut init, mut resp) = pair("Noise_XXpsk0_25519_AESGCM_SHA256", b"", &[0]);
    assert_eq!(run(&mut init, &mut resp), 3);
    assert_eq!(init.get_handshake_hash(), resp.get_handshake_hash());

    let (mut init, _) = pair("Noise_XXpsk0_25519_AESGCM_SHA256", b"", &[]);
    let before = init.get_handshake_hash().to_vec();
    let mut wire = vec![0u8; 200];
    let r = init.write_handshake_message(b"", &mut wire);
    assert_eq!(r, Err(Error::State(StateProblem::MissingPsk)));
    assert_eq!(init.get_handshake_hash(), &before[..]);
    assert_eq!(init.pattern_position, 0);

    let (mut init, _) = pair("Noise_XXpsk0_25519_AESGCM_SHA256", b"", &[0]);
    let (_, mut resp) = pair("Noise_XXpsk0_25519_AESGCM_SHA256", b"", &[]);
    let len = init.write_handshake_message(b"", &mut wire).unwrap();
    let mut out = vec![0u8; 200];
    let r = resp.read_handshake_message(&wire[..len], &mut out);
    assert_eq!(r, Err(Error::State(StateProblem::MissingPsk)));
}

#[test]
fn set_psk_checks_length_and_slot() {
    let (mut init, _) = pair("Noise_XXpsk0_25519_AESGCM_SHA256", b"", &[]);
    assert_eq!(init.set_psk(0, &[1u8; 31]), Err(Error::Input));
    assert_eq!(init.set_psk(10, &[1u8; 32]), Err(Error::Input));
    assert_eq!(init.set_psk(0, &[1u8; 32]), Ok(()));
    assert_eq!(init.psks[0], Some(vec![1u8; 32]));
    let mut wire = vec![0u8; 200];
    assert!(init.write_handshake_message(b"", &mut wire).is_ok());
}

#[test]
fn short_buffer_fails_then_retry_reproduces_transcript() {
    let (mut init, mut resp) = xx_pair(b"prologue");
    let payload = b"hello";
    let mut small = vec![0u8; 32 + payload.len() + 16 - 1];
    let before = init.get_handshake_hash().to_vec();
    assert_eq!(init.write_handshake_message(payload, &mut small), Err(Error::Input));
    assert_eq!(init.get_handshake_hash(), &before[..]);
    assert_eq!(init.pattern_position, 0);
    assert!(init.my_turn);
    let mut wire = vec![0u8; 32 + payload.len() + 16];
    let len = init.write_handshake_message(payload, &mut wire).unwrap();
    assert_eq!(len, 32 + payload.len());
    let mut out = vec![0u8; 300];
    assert_eq!(resp.read_handshake_message(&wire[..len], &mut out).unwrap(), payload.len());

    let (mut init2, _) = xx_pair(b"prologue");
    let mut wire2 = vec![0u8; 300];
    let len2 = init2.write_handshake_message(payload, &mut wire2).unwrap();
    assert_eq!(&wire[..len], &wire2[..len2]);
    assert_eq!(init.get_handshake_hash(), init2.get_handshake_hash());
}

#[test]
fn turns_are_enforced_without_change() {
    let (mut init, mut resp) = xx_pair(b"");
    let mut wire = vec![0u8; 300];
    let mut out = vec![0u8; 300];
    let before = resp.get_handshake_hash().to_vec();
    assert_eq!(resp.write_handshake_message(b"", &mut wire), Err(Error::State(StateProblem::NotTurnToWrite)));
    assert_eq!(resp.get_handshake_hash(), &before[..]);
    assert_eq!(init.read_handshake_message(&wire[..32], &mut out), Err(Error::State(StateProblem::NotTurnToRead)));
    run(&mut init, &mut resp);
    let w = if init.my_turn { &mut init } else { &mut resp };
    let expected = if w.my_turn { StateProblem::HandshakeAlreadyFinished } else { StateProblem::NotTurnToWrite };
    assert_eq!(w.write_handshake_message(b"", &mut wire), Err(Error::State(expected)));
}

#[test]
fn tampered_message_is_rolled_back() {
    let (mut init, mut resp) = xx_pair(b"");
    let mut wire = vec![0u8; 300];
    let mut out = vec![0u8; 300];
    let len = init.write_handshake_message(b"", &mut wire).unwrap();
    resp.read_handshake_message(&wire[..len], &mut out).unwrap();
    let len = resp.write_handshake_message(b"payload", &mut wire).unwrap();
    wire[len - 1] ^= 1;
    let before = init.get_handshake_hash().to_vec();
    assert_eq!(init.read_handshake_message(&wire[..len], &mut out), Err(Error::Decrypt));
    assert_eq!(init.get_handshake_hash(), &before[..]);
    assert_eq!(init.pattern_position, 1);
    assert!(!init.my_turn);
}

#[test]
fn oversized_message_is_refused() {
    let (_, mut resp) = xx_pair(b"");
    let big = vec![0u8; 65536];
    let mut out = vec![0u8; 70000];
    assert_eq!(resp.read_handshake_message(&big, &mut out), Err(Error::Input));
    let (mut init, _) = xx_pair(b"");
    let payload = vec![0u8; 65535];
    let mut wire = vec![0u8; 70000];
    assert_eq!(init.write_handshake_message(&payload, &mut wire), Err(Error::Input));
}

#[test]
fn mismatched_key_lengths_are_refused() {
    let params = NoiseParams::from_name("Noise_NN_25519_AESGCM_SHA256").unwrap();
    let r = HandshakeState::new(
        ToyRng(0),
        ToyCipher,
        ToyHash,
        Toggle::off(ToyDh::empty()),
        Toggle::off(ToyDh::empty()),
        false,
        Toggle::off(vec![0u8; 8]),
        Toggle::off(vec![0u8; 56]),
        true,
        params,
        no_psks(),
        b"",
    );
    assert_eq!(r.err(), Some(Error::Init(snow::error::InitStage::ValidateKeyLengths)));
    let params = NoiseParams::from_name("Noise_NN_25519_AESGCM_SHA256").unwrap();
    let r = HandshakeState::new(
        ToyRng(0),
        ToyCipher,
        ToyHash,
        Toggle::off(ToyDh::empty()),
        Toggle::off(ToyDh::empty()),
        false,
        Toggle::off(vec![0u8; 56]),
        Toggle::off(vec![0u8; 56]),
        true,
        params,
        vec![None; 9],
        b"",
    );
    assert_eq!(r.err(), Some(Error::Init(snow::error::InitStage::ValidatePskLengths)));
}

#[test]
fn prologue_is_in_the_transcript() {
    let (a, _) = xx_pair(b"one");
    let (b, _) = xx_pair(b"two");
    assert_ne!(a.get_handshake_hash(), b.get_handshake_hash());
}

#[test]
fn toggle_reports_its_state() {
    let mut t = Toggle::off(5u8);
    assert!(!t.is_on());
    assert!(t.as_option_ref().is_none());
    t.enable();
    assert!(t.is_on());
    assert_eq!(t.as_option_ref(), Some(&5u8));
    assert_eq!(Toggle::on(7u8).into_inner(), 7);
}

#[test]
fn copy_memory_copies_to_the_front() {
    let mut out = [9u8; 5];
    assert_eq!(copy_memory(&[1, 2, 3], &mut out), 3);
    assert_eq!(out, [1, 2, 3, 9, 9]);
}

#[test]
fn invalid_remote_ephemeral_fails_the_dh() {
    let (_, mut resp) = pair("Noise_NN_25519_ChaChaPoly_SHA256", b"", &[]);
    let mut out = vec![0u8; 100];
    assert_eq!(resp.read_handshake_message(&[0u8; 32], &mut out), Ok(0));
    let mut wire = vec![0u8; 100];
    let before = resp.get_handshake_hash().to_vec();
    assert_eq!(resp.write_handshake_message(b"", &mut wire), Err(Error::Dh));
    assert_eq!(resp.get_handshake_hash(), &before[..]);
}

#[test]
fn missing_static_fails_when_it_is_sent() {
    let mut init = build(Setup {
        name: "Noise_XX_25519_AESGCM_SHA256",
        initiator: true,
        s: None,
        e: None,
        rs: None,
        psks: no_psks(),
        prologue: b"",
        seed: 5,
    })
    .unwrap();
    let (_, mut resp) = pair("Noise_XX_25519_AESGCM_SHA256", b"", &[]);
    let mut wire = vec![0u8; 300];
    let mut out = vec![0u8; 300];
    let len = init.write_handshake_message(b"", &mut wire).unwrap();
    resp.read_handshake_message(&wire[..len], &mut out).unwrap();
    let len = resp.write_handshake_message(b"", &mut wire).unwrap();
    init.read_handshake_message(&wire[..len], &mut out).unwrap();
    assert_eq!(init.write_handshake_message(b"", &mut wire), Err(Error::State(StateProblem::MissingKeyMaterial)));
}

#[test]
fn hfs_is_parsed_but_not_expanded() {
    let p = NoiseParams::from_name("Noise_XXhfs_25519+Kyber1024_AESGCM_SHA256").unwrap();
    assert!(p.handshake.is_hfs());
    assert_eq!(
        HandshakeTokens::try_from(&p.handshake).err(),
        Some(Error::Pattern(snow::error::PatternProblem::UnsupportedModifier))
    );
}

fn toy_hmac(key: &[u8], data: &[u8]) -> Vec<u8> {
    let mut ipad = vec![0x36u8; 64];
    let mut opad = vec![0x5cu8; 64];
    for (i, k) in key.iter().enumerate() {
        ipad[i] ^= k;
        opad[i] ^= k;
    }
    ipad.extend_from_slice(data);
    let inner = toy_digest(&ipad);
    opad.extend_from_slice(&inner);
    toy_digest(&opad)
}

fn toy_hkdf(ck: &[u8], ikm: &[u8]) -> (Vec<u8>, Vec<u8>, Vec<u8>) {
    let prk = toy_hmac(ck, ikm);
    let o1 = toy_hmac(&prk, &[1]);
    let mut in2 = o1.clone();
    in2.push(2);
    let o2 = toy_hmac(&prk, &in2);
    let mut in3 = o2.clone();
    in3.push(3);
    let o3 = toy_hmac(&prk, &in3);
    (o1, o2, o3)
}

#[test]
fn short_name_is_padded_long_name_is_hashed() {
    let name = b"Noise_NN_25519_AESGCM_SHA256";
    let sym = SymmetricState::new(ToyCipher, ToyHash, name);
    let mut expected = name.to_vec();
    expected.resize(32, 0);
    assert_eq!(sym.inner.h, expected);
    assert_eq!(sym.inner.ck, expected);
    assert!(!sym.inner.has_key);
    let long = b"Noise_XXpsk0+psk1_25519_ChaChaPoly_BLAKE2s";
    let sym = SymmetricState::new(ToyCipher, ToyHash, long);
    assert_eq!(sym.inner.h, toy_digest(long));
}

#[test]
fn mixing_follows_hash_and_hkdf() {
    let mut sym = SymmetricState::new(ToyCipher, ToyHash, b"Noise_NN_25519_AESGCM_SHA256");
    let h0 = sym.inner.h.clone();
    sym.mix_hash(b"abc");
    let mut input = h0.clone();
    input.extend_from_slice(b"abc");
    assert_eq!(sym.inner.h, toy_digest(&input));

    let ck0 = sym.inner.ck.clone();
    sym.mix_key(b"secret");
    let (o1, o2, _) = toy_hkdf(&ck0, b"secret");
    assert_eq!(sym.inner.ck, o1);
    assert_eq!(sym.inner.k, o2[..32].to_vec());
    assert!(sym.has_key() && sym.inner.n == 0);

    let h1 = sym.inner.h.clone();
    let ck1 = sym.inner.ck.clone();
    sym.mix_key_and_hash(&[7u8; 32]);
    let (p1, p2, p3) = toy_hkdf(&ck1, &[7u8; 32]);
    let mut hin = h1.clone();
    hin.extend_from_slice(&p2);
    assert_eq!(sym.inner.ck, p1);
    assert_eq!(sym.inner.h, toy_digest(&hin));
    assert_eq!(sym.inner.k, p3[..32].to_vec());

    let (c1, c2) = sym.split();
    let (s1, s2, _) = toy_hkdf(&sym.inner.ck, b"");
    assert_eq!(c1.k, s1[..32].to_vec());
    assert_eq!(c2.k, s2[..32].to_vec());
}

#[test]
fn encryption_mixes_ciphertext_and_restore_rewinds() {
    let mut sym = SymmetricState::new(ToyCipher, ToyHash, b"Noise_NN_25519_AESGCM_SHA256");
    let mut out = vec![0u8; 64];
    assert_eq!(sym.encrypt_and_mix_hash(b"plain", &mut out, 3), Ok(5));
    assert_eq!(&out[3..8], b"plain");
    sym.mix_key(b"k");
    let cp = sym.checkpoint();
    let h = sym.inner.h.clone();
    let n = sym.encrypt_and_mix_hash(b"hello", &mut out, 0).unwrap();
    assert_eq!(n, 5 + 16);
    assert_eq!(out[..n].to_vec(), ToyCipher.encrypt(&sym.inner.k, 0, &h, b"hello"));
    let mut hin = h.clone();
    hin.extend_from_slice(&out[..n]);
    assert_eq!(sym.inner.h, toy_digest(&hin));
    assert_eq!(sym.inner.n, 1);
    sym.restore(cp);
    assert_eq!(sym.inner.h, h);
    assert_eq!(sym.inner.n, 0);
    let mut pt = vec![0u8; 64];
    assert_eq!(sym.decrypt_and_mix_hash(&out[..n], &mut pt), Ok(5));
    assert_eq!(&pt[..5], b"hello");
    assert_eq!(sym.inner.h, toy_digest(&hin));
}

#[test]
fn unkeyed_message_counts_the_tag_against_the_limit() {
    let (mut init, _) = pair("Noise_NN_25519_ChaChaPoly_SHA256", b"", &[]);
    let payload = vec![1u8; 65535 - 32 - 15];
    let mut wire = vec![0u8; 70000];
    assert_eq!(init.write_handshake_message(&payload, &mut wire), Err(Error::Input));
    let payload = vec![1u8; 65535 - 32 - 16];
    assert_eq!(init.write_handshake_message(&payload, &mut wire), Ok(65535 - 16));
}

#[test]
fn psk_missing_at_end_of_second_message() {
    let (mut init, mut resp) = pair("Noise_NNpsk2_25519_ChaChaPoly_SHA256", b"", &[]);
    let mut wire = vec![0u8; 200];
    let mut out = vec![0u8; 200];
    let len = init.write_handshake_message(b"", &mut wire).unwrap();
    resp.read_handshake_message(&wire[..len], &mut out).unwrap();
    let before = resp.get_handshake_hash().to_vec();
    assert_eq!(resp.write_handshake_message(b"", &mut wire), Err(Error::State(StateProblem::MissingPsk)));
    assert_eq!(resp.get_handshake_hash(), &before[..]);
    assert!(resp.my_turn);
}

#[test]
fn short_message_and_small_payload_buffer_are_input_errors() {
    let (_, mut resp) = pair("Noise_NN_25519_ChaChaPoly_SHA256", b"", &[]);
    let mut out = vec![0u8; 4];
    assert_eq!(resp.read_handshake_message(&[1u8; 31], &mut out), Err(Error::Input));
    assert_eq!(resp.read_handshake_message(&[1u8; 40], &mut out), Err(Error::Input));
    assert_eq!(resp.read_handshake_message(&[1u8; 36], &mut out), Ok(4));
}
