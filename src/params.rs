//! Noise protocol names: the choices they make and how they are read and
//! written.
use vstd::prelude::*;
use vstd::string::StrSliceExecFns;
use vstd::string::StringExecFns;
use crate::error::{Error, PatternProblem};
use crate::text::{substr_is, find_char, first_of, decimal, digit_char};
pub use crate::patterns::{
    HandshakeChoice, HandshakeModifier, HandshakeModifierList, HandshakePattern,
    HandshakeTokens, Token, TokensModel, handshake_name, has_modifier, modifier_name,
    modifiers_name, pattern_name,
};

verus! {

/// The base protocol; `Noise` is the only one.
#[derive(PartialEq, Eq, Structural, Copy, Clone, Debug)]
pub enum BaseChoice {
    Noise,
}

/// One of `25519` or `448`.
#[derive(PartialEq, Eq, Structural, Copy, Clone, Debug)]
pub enum DHChoice {
    Curve25519,
    Ed448,
}

/// One of `ChaChaPoly` or `AESGCM`.
#[derive(PartialEq, Eq, Structural, Copy, Clone, Debug)]
pub enum CipherChoice {
    ChaChaPoly,
    AESGCM,
}

/// A hash function of the SHA-2 or BLAKE2 families.
#[derive(PartialEq, Eq, Structural, Copy, Clone, Debug)]
pub enum HashChoice {
    SHA256,
    SHA512,
    Blake2s,
    Blake2b,
}

/// A key encapsulation mechanism for the hfs modifier.
#[derive(PartialEq, Eq, Structural, Copy, Clone, Debug)]
pub enum KemChoice {
    Kyber1024,
}

pub open spec fn base_name(b: BaseChoice) -> Seq<char> {
    match b {
        BaseChoice::Noise => "Noise"@,
    }
}

pub open spec fn dh_name(d: DHChoice) -> Seq<char> {
    match d {
        DHChoice::Curve25519 => "25519"@,
        DHChoice::Ed448 => "448"@,
    }
}

pub open spec fn cipher_name(c: CipherChoice) -> Seq<char> {
    match c {
        CipherChoice::ChaChaPoly => "ChaChaPoly"@,
        CipherChoice::AESGCM => "AESGCM"@,
    }
}

pub open spec fn hash_name(h: HashChoice) -> Seq<char> {
    match h {
        HashChoice::SHA256 => "SHA256"@,
        HashChoice::SHA512 => "SHA512"@,
        HashChoice::Blake2s => "BLAKE2s"@,
        HashChoice::Blake2b => "BLAKE2b"@,
    }
}

pub open spec fn kem_name(k: KemChoice) -> Seq<char> {
    match k {
        KemChoice::Kyber1024 => "Kyber1024"@,
    }
}

impl BaseChoice {
    pub fn as_str(&self) -> (r: &'static str)
        ensures
            r@ == base_name(*self),
    {
        "Noise"
    }

    /// Reads the characters `lo..hi` of `s`.
    pub fn parse_range(s: &str, lo: usize, hi: usize) -> (r: Result<BaseChoice, Error>)
        requires
            lo <= hi <= s@.len(),
        ensures
            r matches Ok(b) ==> base_name(b) == s@.subrange(lo as int, hi as int),
            r is Err ==> r == Err::<BaseChoice, Error>(Error::Pattern(PatternProblem::UnsupportedBaseType))
                && forall|b: BaseChoice| base_name(b) != s@.subrange(lo as int, hi as int),
    {
        if substr_is(s, lo, hi, "Noise") {
            Ok(BaseChoice::Noise)
        } else {
            Err(Error::Pattern(PatternProblem::UnsupportedBaseType))
        }
    }
}

impl DHChoice {
    pub fn as_str(&self) -> (r: &'static str)
        ensures
            r@ == dh_name(*self),
    {
        match self {
            DHChoice::Curve25519 => "25519",
            DHChoice::Ed448 => "448",
        }
    }

    /// Reads the characters `lo..hi` of `s`.
    pub fn parse_range(s: &str, lo: usize, hi: usize) -> (r: Result<DHChoice, Error>)
        requires
            lo <= hi <= s@.len(),
        ensures
            r matches Ok(d) ==> dh_name(d) == s@.subrange(lo as int, hi as int),
            r is Err ==> r == Err::<DHChoice, Error>(Error::Pattern(PatternProblem::UnsupportedDhType))
                && forall|d: DHChoice| dh_name(d) != s@.subrange(lo as int, hi as int),
    {
        if substr_is(s, lo, hi, "25519") {
            Ok(DHChoice::Curve25519)
        } else if substr_is(s, lo, hi, "448") {
            Ok(DHChoice::Ed448)
        } else {
            Err(Error::Pattern(PatternProblem::UnsupportedDhType))
        }
    }
}

impl CipherChoice {
    pub fn as_str(&self) -> (r: &'static str)
        ensures
            r@ == cipher_name(*self),
    {
        match self {
            CipherChoice::ChaChaPoly => "ChaChaPoly",
            CipherChoice::AESGCM => "AESGCM",
        }
    }

    /// Reads the characters `lo..hi` of `s`.
    pub fn parse_range(s: &str, lo: usize, hi: usize) -> (r: Result<CipherChoice, Error>)
        requires
            lo <= hi <= s@.len(),
        ensures
            r matches Ok(c) ==> cipher_name(c) == s@.subrange(lo as int, hi as int),
            r is Err ==> r == Err::<CipherChoice, Error>(Error::Pattern(PatternProblem::UnsupportedCipherType))
                && forall|c: CipherChoice| cipher_name(c) != s@.subrange(lo as int, hi as int),
    {
        if substr_is(s, lo, hi, "ChaChaPoly") {
            Ok(CipherChoice::ChaChaPoly)
        } else if substr_is(s, lo, hi, "AESGCM") {
            Ok(CipherChoice::AESGCM)
        } else {
            Err(Error::Pattern(PatternProblem::UnsupportedCipherType))
        }
    }
}

impl HashChoice {
    pub fn as_str(&self) -> (r: &'static str)
        ensures
            r@ == hash_name(*self),
    {
        match self {
            HashChoice::SHA256 => "SHA256",
            HashChoice::SHA512 => "SHA512",
            HashChoice::Blake2s => "BLAKE2s",
            HashChoice::Blake2b => "BLAKE2b",
        }
    }

    /// Reads the characters `lo..hi` of `s`.
    pub fn parse_range(s: &str, lo: usize, hi: usize) -> (r: Result<HashChoice, Error>)
        requires
            lo <= hi <= s@.len(),
        ensures
            r matches Ok(h) ==> hash_name(h) == s@.subrange(lo as int, hi as int),
            r is Err ==> r == Err::<HashChoice, Error>(Error::Pattern(PatternProblem::UnsupportedHashType))
                && forall|h: HashChoice| hash_name(h) != s@.subrange(lo as int, hi as int),
    {
        if substr_is(s, lo, hi, "SHA256") {
            Ok(HashChoice::SHA256)
        } else if substr_is(s, lo, hi, "SHA512") {
            Ok(HashChoice::SHA512)
        } else if substr_is(s, lo, hi, "BLAKE2s") {
            Ok(HashChoice::Blake2s)
        } else if substr_is(s, lo, hi, "BLAKE2b") {
            Ok(HashChoice::Blake2b)
        } else {
            Err(Error::Pattern(PatternProblem::UnsupportedHashType))
        }
    }
}

impl KemChoice {
    pub fn as_str(&self) -> (r: &'static str)
        ensures
            r@ == kem_name(*self),
    {
        "Kyber1024"
    }

    /// Reads the characters `lo..hi` of `s`.
    pub fn parse_range(s: &str, lo: usize, hi: usize) -> (r: Result<KemChoice, Error>)
        requires
            lo <= hi <= s@.len(),
        ensures
            r matches Ok(k) ==> kem_name(k) == s@.subrange(lo as int, hi as int),
            r is Err ==> r == Err::<KemChoice, Error>(Error::Pattern(PatternProblem::UnsupportedKemType))
                && forall|k: KemChoice| kem_name(k) != s@.subrange(lo as int, hi as int),
    {
        if substr_is(s, lo, hi, "Kyber1024") {
            Ok(KemChoice::Kyber1024)
        } else {
            Err(Error::Pattern(PatternProblem::UnsupportedKemType))
        }
    }
}


/// The choices that make up a whole protocol definition.
#[derive(Clone, Debug)]
pub struct NoiseParams {
    pub name: String,
    pub base: BaseChoice,
    pub handshake: HandshakeChoice,
    pub dh: DHChoice,
    pub kem: Option<KemChoice>,
    pub cipher: CipherChoice,
    pub hash: HashChoice,
}

/// The optional `+<kem>` after the DH field.
pub open spec fn kem_part(k: Option<KemChoice>) -> Seq<char> {
    match k {
        Some(k) => seq!['+'] + kem_name(k),
        None => Seq::empty(),
    }
}

/// The protocol name that a set of choices is written as.
pub open spec fn params_name(p: NoiseParams) -> Seq<char> {
    base_name(p.base) + seq!['_'] + handshake_name(p.handshake) + seq!['_'] + dh_name(p.dh)
        + kem_part(p.kem) + seq!['_'] + cipher_name(p.cipher) + seq!['_'] + hash_name(p.hash)
}

/// A name part without `_` or `+`.
pub open spec fn plain(s: Seq<char>) -> bool {
    forall|i: int| 0 <= i < s.len() ==> #[trigger] s[i] != '_' && s[i] != '+'
}

/// Whether a set of choices can be written as a protocol name: a KEM is
/// written exactly when the hfs modifier is present.
pub open spec fn valid_params(p: NoiseParams) -> bool {
    (p.kem is Some) == has_modifier(p.handshake.modifiers.list@, HandshakeModifier::Hfs)
}

/// The names of the primitive choices hold no separator.
proof fn lemma_choice_names_plain(p: NoiseParams)
    ensures
        plain(base_name(p.base)),
        plain(dh_name(p.dh)),
        plain(cipher_name(p.cipher)),
        plain(hash_name(p.hash)),
        p.kem is Some ==> plain(kem_name(p.kem->Some_0)),
{
    reveal_strlit("Noise");
    reveal_strlit("25519");
    reveal_strlit("448");
    reveal_strlit("ChaChaPoly");
    reveal_strlit("AESGCM");
    reveal_strlit("SHA256");
    reveal_strlit("SHA512");
    reveal_strlit("BLAKE2s");
    reveal_strlit("BLAKE2b");
    reveal_strlit("Kyber1024");
}

/// A list of modifiers is written without `_`.
proof fn lemma_modifiers_name_no_underscore(l: Seq<HandshakeModifier>)
    ensures
        forall|i: int| 0 <= i < modifiers_name(l).len() ==> #[trigger] modifiers_name(l)[i] != '_',
    decreases l.len(),
{
    if l.len() >= 1 {
        crate::patterns::lemma_modifier_name_chars(l.last());
        crate::patterns::lemma_modifier_name_chars(l[0]);
    }
    if l.len() >= 2 {
        lemma_modifiers_name_no_underscore(l.drop_last());
        let a = modifiers_name(l.drop_last());
        let b = modifier_name(l.last());
        assert forall|i: int| 0 <= i < modifiers_name(l).len() implies #[trigger] modifiers_name(l)[i] != '_' by {
            if i < a.len() {
                assert(modifiers_name(l)[i] == a[i]);
            } else if i > a.len() {
                assert(modifiers_name(l)[i] == b[i - a.len() - 1]);
            }
        }
    }
}

/// A pattern-and-modifiers field is written without `_`.
proof fn lemma_handshake_name_no_underscore(h: HandshakeChoice)
    ensures
        forall|i: int| 0 <= i < handshake_name(h).len() ==> #[trigger] handshake_name(h)[i] != '_',
{
    crate::patterns::lemma_pattern_name_chars(h.pattern);
    lemma_modifiers_name_no_underscore(h.modifiers.list@);
    let a = pattern_name(h.pattern);
    assert forall|i: int| 0 <= i < handshake_name(h).len() implies #[trigger] handshake_name(h)[i] != '_' by {
        if i < a.len() {
            assert(handshake_name(h)[i] == a[i]);
            assert(crate::patterns::pattern_char(a[i]));
        } else {
            assert(handshake_name(h)[i] == modifiers_name(h.modifiers.list@)[i - a.len()]);
        }
    }
}

/// Where the fields of a protocol name begin and end.
proof fn lemma_name_layout(p: NoiseParams)
    ensures
        ({
            let v = params_name(p);
            let f1 = base_name(p.base).len() as int;
            let f2 = f1 + 1 + handshake_name(p.handshake).len();
            let plus = f2 + 1 + dh_name(p.dh).len();
            let f3 = plus + kem_part(p.kem).len();
            let f4 = f3 + 1 + cipher_name(p.cipher).len();
            &&& 0 <= f1 < f2 < plus <= f3 < f4 < v.len()
            &&& v[f1] == '_' && v[f2] == '_' && v[f3] == '_' && v[f4] == '_'
            &&& forall|j: int| 0 <= j < f1 ==> #[trigger] v[j] != '_'
            &&& forall|j: int| f1 + 1 <= j < f2 ==> #[trigger] v[j] != '_'
            &&& forall|j: int| f2 + 1 <= j < f3 ==> #[trigger] v[j] != '_'
            &&& forall|j: int| f2 + 1 <= j < plus ==> #[trigger] v[j] != '+'
            &&& (plus < f3 <==> p.kem is Some)
            &&& plus < f3 ==> v[plus] == '+'
            &&& forall|j: int| f3 + 1 <= j < f4 ==> #[trigger] v[j] != '_'
            &&& v.subrange(0, f1) == base_name(p.base)
            &&& v.subrange(f1 + 1, f2) == handshake_name(p.handshake)
            &&& v.subrange(f2 + 1, plus) == dh_name(p.dh)
            &&& (p.kem is Some ==> v.subrange(plus + 1, f3) == kem_name(p.kem->Some_0))
            &&& v.subrange(f3 + 1, f4) == cipher_name(p.cipher)
            &&& v.subrange(f4 + 1, v.len() as int) == hash_name(p.hash)
        }),
{
    lemma_choice_names_plain(p);
    lemma_handshake_name_no_underscore(p.handshake);
    let v = params_name(p);
    let a = base_name(p.base);
    let hs = handshake_name(p.handshake);
    let d = dh_name(p.dh);
    let kp = kem_part(p.kem);
    let c = cipher_name(p.cipher);
    let hh = hash_name(p.hash);
    let f1 = a.len() as int;
    let f2 = f1 + 1 + hs.len();
    let plus = f2 + 1 + d.len();
    let f3 = plus + kp.len();
    let f4 = f3 + 1 + c.len();
    assert(v =~= a + seq!['_'] + hs + seq!['_'] + d + kp + seq!['_'] + c + seq!['_'] + hh);
    assert(forall|j: int| 0 <= j < f1 ==> v[j] == a[j]);
    assert(forall|j: int| f1 + 1 <= j < f2 ==> v[j] == hs[j - f1 - 1]);
    assert(forall|j: int| f2 + 1 <= j < plus ==> v[j] == d[j - f2 - 1]);
    assert(forall|j: int| plus <= j < f3 ==> v[j] == kp[j - plus]);
    assert(forall|j: int| f3 + 1 <= j < f4 ==> v[j] == c[j - f3 - 1]);
    if p.kem is Some {
        assert(forall|j: int| 0 <= j < kp.len() ==> kp[j] != '_') by {
            assert(forall|j: int| 1 <= j < kp.len() ==> kp[j] == kem_name(p.kem->Some_0)[j - 1]);
        }
        assert(v.subrange(plus + 1, f3) =~= kem_name(p.kem->Some_0));
    }
    assert(v.subrange(0, f1) =~= a);
    assert(v.subrange(f1 + 1, f2) =~= hs);
    assert(v.subrange(f2 + 1, plus) =~= d);
    assert(v.subrange(f3 + 1, f4) =~= c);
    assert(v.subrange(f4 + 1, v.len() as int) =~= hh);
}

/// Different primitive choices have different names.
proof fn lemma_choice_names_injective(p: NoiseParams, q: NoiseParams)
    ensures
        dh_name(p.dh) == dh_name(q.dh) ==> p.dh == q.dh,
        cipher_name(p.cipher) == cipher_name(q.cipher) ==> p.cipher == q.cipher,
        hash_name(p.hash) == hash_name(q.hash) ==> p.hash == q.hash,
        base_name(p.base) == base_name(q.base) ==> p.base == q.base,
{
    reveal_strlit("25519");
    reveal_strlit("448");
    reveal_strlit("ChaChaPoly");
    reveal_strlit("AESGCM");
    reveal_strlit("SHA256");
    reveal_strlit("SHA512");
    reveal_strlit("BLAKE2s");
    reveal_strlit("BLAKE2b");
    assert("25519"@.len() == 5);
    assert("448"@.len() == 3);
    if dh_name(p.dh) == dh_name(q.dh) {
        match (p.dh, q.dh) {
            (DHChoice::Curve25519, DHChoice::Ed448) => {
                assert(dh_name(p.dh).len() == 5);
            },
            (DHChoice::Ed448, DHChoice::Curve25519) => {
                assert(dh_name(p.dh).len() == 3);
            },
            _ => {},
        }
    }
    assert("ChaChaPoly"@.len() == 10);
    assert("AESGCM"@.len() == 6);
    if cipher_name(p.cipher) == cipher_name(q.cipher) {
        match (p.cipher, q.cipher) {
            (CipherChoice::ChaChaPoly, CipherChoice::AESGCM) => {
                assert(cipher_name(p.cipher).len() == 10);
            },
            (CipherChoice::AESGCM, CipherChoice::ChaChaPoly) => {
                assert(cipher_name(p.cipher).len() == 6);
            },
            _ => {},
        }
    }
    if hash_name(p.hash) == hash_name(q.hash) && p.hash != q.hash {
        let a = hash_name(p.hash);
        let b = hash_name(q.hash);
        assert(a.len() == b.len());
        if a.len() == 6 {
            assert(a[3] == b[3]);
            assert(a[3] == '2' || a[3] == '5');
        } else {
            assert(a[6] == b[6]);
            assert(a[6] == 's' || a[6] == 'b');
        }
    }
}

/// Two valid sets of choices written as the same protocol name make the same
/// choices: reading a canonical name gives back exactly what it names.
pub proof fn lemma_params_name_injective(p: NoiseParams, q: NoiseParams)
    requires
        valid_params(p),
        valid_params(q),
        params_name(p) == params_name(q),
    ensures
        p.base == q.base,
        p.handshake.pattern == q.handshake.pattern,
        p.handshake.modifiers.list@ == q.handshake.modifiers.list@,
        p.dh == q.dh,
        p.kem == q.kem,
        p.cipher == q.cipher,
        p.hash == q.hash,
{
    lemma_name_layout(p);
    lemma_name_layout(q);
    lemma_choice_names_injective(p, q);
    let v = params_name(p);
    let f1 = base_name(p.base).len() as int;
    let g1 = base_name(q.base).len() as int;
    assert(f1 == g1) by {
        if f1 < g1 { assert(v[f1] != '_'); }
        if g1 < f1 { assert(v[g1] != '_'); }
    }
    let f2 = f1 + 1 + handshake_name(p.handshake).len();
    let g2 = g1 + 1 + handshake_name(q.handshake).len();
    assert(f2 == g2) by {
        if f2 < g2 { assert(v[f2] != '_'); }
        if g2 < f2 { assert(v[g2] != '_'); }
    }
    let fp = f2 + 1 + dh_name(p.dh).len();
    let gp = g2 + 1 + dh_name(q.dh).len();
    let f3 = fp + kem_part(p.kem).len();
    let g3 = gp + kem_part(q.kem).len();
    assert(f3 == g3) by {
        if f3 < g3 { assert(v[f3] != '_'); }
        if g3 < f3 { assert(v[g3] != '_'); }
    }
    assert(fp == gp) by {
        if fp < gp {
            assert(fp < f3);
            assert(v[fp] == '+');
            assert(v[fp] != '+');
        }
        if gp < fp {
            assert(gp < g3);
            assert(v[gp] == '+');
            assert(v[gp] != '+');
        }
    }
    let f4 = f3 + 1 + cipher_name(p.cipher).len();
    let g4 = g3 + 1 + cipher_name(q.cipher).len();
    assert(f4 == g4) by {
        if f4 < g4 { assert(v[f4] != '_'); }
        if g4 < f4 { assert(v[g4] != '_'); }
    }
    crate::patterns::lemma_handshake_name_modifiers(p.handshake.pattern, p.handshake.modifiers.list@,
        q.handshake.pattern, q.handshake.modifiers.list@);
    assert(pattern_name(p.handshake.pattern) =~= handshake_name(p.handshake).subrange(0, pattern_name(p.handshake.pattern).len() as int));
    assert(pattern_name(q.handshake.pattern) =~= handshake_name(q.handshake).subrange(0, pattern_name(q.handshake.pattern).len() as int));
    crate::patterns::lemma_pattern_name_chars(p.handshake.pattern);
    crate::patterns::lemma_pattern_name_injective(p.handshake.pattern, q.handshake.pattern);
    if p.kem is Some {
        assert(q.kem is Some);
        match (p.kem, q.kem) {
            (Some(KemChoice::Kyber1024), Some(KemChoice::Kyber1024)) => {},
            _ => {},
        }
    }
}

/// Where the first `_` of a name is (its length where there is none).
pub open spec fn sep1(v: Seq<char>) -> int {
    first_of(v, 0, v.len() as int, '_')
}

/// Where the second `_` is.
pub open spec fn sep2(v: Seq<char>) -> int {
    first_of(v, sep1(v) + 1, v.len() as int, '_')
}

/// Where the third `_` is.
pub open spec fn sep3(v: Seq<char>) -> int {
    first_of(v, sep2(v) + 1, v.len() as int, '_')
}

/// Where the `+` before a KEM is in the third field (its end where there is none).
pub open spec fn kem_sep(v: Seq<char>) -> int {
    first_of(v, sep2(v) + 1, sep3(v), '+')
}

/// Where the fourth `_` is.
pub open spec fn sep4(v: Seq<char>) -> int {
    first_of(v, sep3(v) + 1, v.len() as int, '_')
}

/// Whether the second field, between `lo` and `hi`, is a pattern and modifiers.
pub open spec fn handshake_field_ok(v: Seq<char>, lo: int, hi: int) -> bool {
    exists|p: HandshakePattern, l: Seq<HandshakeModifier>| pattern_name(p) + modifiers_name(l) == v.subrange(lo, hi)
}

/// Whether the modifiers written in the second field hold hfs.
pub open spec fn field_has_hfs(v: Seq<char>) -> bool {
    let (p, l) = choose|p: HandshakePattern, l: Seq<HandshakeModifier>| pattern_name(p) + modifiers_name(l)
        == v.subrange(sep1(v) + 1, sep2(v));
    has_modifier(l, HandshakeModifier::Hfs)
}

/// The error a name gives when its fields are read in order, base first:
/// a field that names nothing supported gives that kind's error, a missing
/// field gives `TooFewParameters`, and so does a KEM written without the
/// hfs modifier or the reverse. The pattern field's own error is left to
/// `handshake_field_ok`.
pub open spec fn name_error(v: Seq<char>) -> Option<Error> {
    let n = v.len() as int;
    let too_few = Some(Error::Pattern(PatternProblem::TooFewParameters));
    if !(exists|b: BaseChoice| base_name(b) == v.subrange(0, sep1(v))) {
        Some(Error::Pattern(PatternProblem::UnsupportedBaseType))
    } else if sep1(v) == n {
        too_few
    } else if !handshake_field_ok(v, sep1(v) + 1, sep2(v)) {
        Some(Error::Pattern(PatternProblem::UnsupportedHandshakeType))
    } else if sep2(v) == n {
        too_few
    } else if !(exists|d: DHChoice| dh_name(d) == v.subrange(sep2(v) + 1, kem_sep(v))) {
        Some(Error::Pattern(PatternProblem::UnsupportedDhType))
    } else if kem_sep(v) < sep3(v) && !(exists|k: KemChoice| kem_name(k) == v.subrange(kem_sep(v) + 1, sep3(v))) {
        Some(Error::Pattern(PatternProblem::UnsupportedKemType))
    } else if sep3(v) == n {
        too_few
    } else if !(exists|c: CipherChoice| cipher_name(c) == v.subrange(sep3(v) + 1, sep4(v))) {
        Some(Error::Pattern(PatternProblem::UnsupportedCipherType))
    } else if sep4(v) == n {
        too_few
    } else if !(exists|h: HashChoice| hash_name(h) == v.subrange(sep4(v) + 1, n)) {
        Some(Error::Pattern(PatternProblem::UnsupportedHashType))
    } else if field_has_hfs(v) != (kem_sep(v) < sep3(v)) {
        too_few
    } else {
        None
    }
}

/// A digit as a string.
fn digit_str(d: u8) -> (r: &'static str)
    requires
        d < 10,
    ensures
        r@ == seq![digit_char(d as nat)],
{
    proof {
        reveal_strlit("0");
        reveal_strlit("1");
        reveal_strlit("2");
        reveal_strlit("3");
        reveal_strlit("4");
        reveal_strlit("5");
        reveal_strlit("6");
        reveal_strlit("7");
        reveal_strlit("8");
        reveal_strlit("9");
    }
    if d == 0 { "0" }
    else if d == 1 { "1" }
    else if d == 2 { "2" }
    else if d == 3 { "3" }
    else if d == 4 { "4" }
    else if d == 5 { "5" }
    else if d == 6 { "6" }
    else if d == 7 { "7" }
    else if d == 8 { "8" }
    else { "9" }
}

/// Appends `n` in decimal.
fn append_decimal(out: &mut String, n: u8)
    ensures
        final(out)@ == old(out)@ + decimal(n as nat),
{
    reveal_with_fuel(decimal, 3);
    if n < 10 {
        out.append(digit_str(n));
    } else if n < 100 {
        out.append(digit_str(n / 10));
        out.append(digit_str(n % 10));
    } else {
        assert((n as nat / 10) / 10 == n as nat / 100);
        out.append(digit_str(n / 100));
        out.append(digit_str((n / 10) % 10));
        out.append(digit_str(n % 10));
    }
    assert(final(out)@ =~= old(out)@ + decimal(n as nat));
}

/// Appends the name of a modifier.
fn append_modifier(out: &mut String, m: HandshakeModifier)
    ensures
        final(out)@ == old(out)@ + modifier_name(m),
{
    match m {
        HandshakeModifier::Psk(n) => {
            out.append("psk");
            append_decimal(out, n);
            assert(final(out)@ =~= old(out)@ + modifier_name(m));
        },
        HandshakeModifier::Fallback => out.append("fallback"),
        HandshakeModifier::Hfs => out.append("hfs"),
    }
}

/// A name cut into its fields at four underscores, the third field cut at
/// a plus sign if it holds one.
proof fn lemma_split_fields(v: Seq<char>, f1: int, f2: int, plus: int, f3: int, f4: int)
    requires
        0 <= f1 < f2 < f3 < f4 < v.len(),
        f2 < plus <= f3,
        v[f1] == '_' && v[f2] == '_' && v[f3] == '_' && v[f4] == '_',
        plus < f3 ==> v[plus] == '+',
    ensures
        v == v.subrange(0, f1) + seq!['_'] + v.subrange(f1 + 1, f2) + seq!['_'] + v.subrange(f2 + 1, plus)
            + (if plus < f3 { seq!['+'] + v.subrange(plus + 1, f3) } else { Seq::empty() }) + seq!['_']
            + v.subrange(f3 + 1, f4) + seq!['_'] + v.subrange(f4 + 1, v.len() as int),
{
    let kp = if plus < f3 { seq!['+'] + v.subrange(plus + 1, f3) } else { Seq::<char>::empty() };
    assert(v.subrange(f2 + 1, f3) =~= v.subrange(f2 + 1, plus) + kp);
    assert(v =~= v.subrange(0, f1) + seq!['_'] + v.subrange(f1 + 1, f2) + seq!['_'] + v.subrange(f2 + 1, f3)
        + seq!['_'] + v.subrange(f3 + 1, f4) + seq!['_'] + v.subrange(f4 + 1, v.len() as int));
    assert(v.subrange(0, f1) + seq!['_'] + v.subrange(f1 + 1, f2) + seq!['_'] + v.subrange(f2 + 1, f3)
        =~= v.subrange(0, f1) + seq!['_'] + v.subrange(f1 + 1, f2) + seq!['_'] + v.subrange(f2 + 1, plus) + kp);
}

impl NoiseParams {
    /// A set of choices without a KEM, under the given name.
    pub fn new(
        name: String,
        base: BaseChoice,
        handshake: HandshakeChoice,
        dh: DHChoice,
        cipher: CipherChoice,
        hash: HashChoice,
    ) -> (r: Self)
        ensures
            r.name == name,
            r.base == base,
            r.handshake == handshake,
            r.dh == dh,
            r.kem is None,
            r.cipher == cipher,
            r.hash == hash,
    {
        NoiseParams { name, base, handshake, dh, kem: None, cipher, hash }
    }

    /// Reads a protocol name
    /// `Noise_<pattern><modifiers>_<dh>[+<kem>]_<cipher>_<hash>`; a KEM is
    /// written exactly when the hfs modifier is present.
    pub fn from_name(s: &str) -> (r: Result<NoiseParams, Error>)
        ensures
            r matches Ok(p) ==> params_name(p) == s@ && p.name@ == s@ && valid_params(p),
            forall|p: NoiseParams| valid_params(p) && params_name(p) == s@ ==> r is Ok,
            match name_error(s@) {
                Some(err) => r is Err && (err != Error::Pattern(PatternProblem::UnsupportedHandshakeType) ==> r == Err::<NoiseParams, Error>(err)),
                None => r is Ok,
            },
    {
        let ghost has_target = exists|p: NoiseParams| valid_params(p) && params_name(p) == s@;
        let ghost tp = choose|p: NoiseParams| valid_params(p) && params_name(p) == s@;
        let ghost e1 = base_name(tp.base).len() as int;
        let ghost e2 = e1 + 1 + handshake_name(tp.handshake).len();
        let ghost eplus = e2 + 1 + dh_name(tp.dh).len();
        let ghost e3 = eplus + kem_part(tp.kem).len();
        let ghost e4 = e3 + 1 + cipher_name(tp.cipher).len();
        proof {
            if has_target {
                lemma_name_layout(tp);
            }
        }
        let n = s.unicode_len();
        let f1 = find_char(s, 0, n, '_');
        assert(has_target ==> f1 == e1);
        let base = BaseChoice::parse_range(s, 0, f1)?;
        if f1 == n {
            return Err(Error::Pattern(PatternProblem::TooFewParameters));
        }
        let f2 = find_char(s, f1 + 1, n, '_');
        assert(has_target ==> f2 == e2);
        proof {
            if has_target {
                assert(s@.subrange(f1 + 1, f2 as int) == pattern_name(tp.handshake.pattern)
                    + modifiers_name(tp.handshake.modifiers.list@));
            }
        }
        let handshake = HandshakeChoice::parse_range(s, f1 + 1, f2)?;
        if f2 == n {
            return Err(Error::Pattern(PatternProblem::TooFewParameters));
        }
        let f3 = find_char(s, f2 + 1, n, '_');
        assert(has_target ==> f3 == e3);
        let plus = find_char(s, f2 + 1, f3, '+');
        assert(has_target ==> plus == eplus);
        let dh = DHChoice::parse_range(s, f2 + 1, plus)?;
        let kem = if plus < f3 {
            Some(KemChoice::parse_range(s, plus + 1, f3)?)
        } else {
            None
        };
        if f3 == n {
            return Err(Error::Pattern(PatternProblem::TooFewParameters));
        }
        let f4 = find_char(s, f3 + 1, n, '_');
        assert(has_target ==> f4 == e4);
        let cipher = CipherChoice::parse_range(s, f3 + 1, f4)?;
        if f4 == n {
            return Err(Error::Pattern(PatternProblem::TooFewParameters));
        }
        let hash = HashChoice::parse_range(s, f4 + 1, n)?;
        proof {
            if has_target {
                crate::patterns::lemma_handshake_name_modifiers(handshake.pattern, handshake.modifiers.list@,
                    tp.handshake.pattern, tp.handshake.modifiers.list@);
            }
            let (cp, cl) = choose|p: HandshakePattern, l: Seq<HandshakeModifier>| pattern_name(p) + modifiers_name(l)
                == s@.subrange(sep1(s@) + 1, sep2(s@));
            crate::patterns::lemma_handshake_name_modifiers(handshake.pattern, handshake.modifiers.list@, cp, cl);
        }
        if handshake.is_hfs() != kem.is_some() {
            return Err(Error::Pattern(PatternProblem::TooFewParameters));
        }
        let name = s.to_owned();
        let p = NoiseParams { name, base, handshake, dh, kem, cipher, hash };
        proof {
            lemma_split_fields(s@, f1 as int, f2 as int, plus as int, f3 as int, f4 as int);
            assert(kem_part(kem) == (if plus < f3 { seq!['+'] + s@.subrange(plus + 1, f3 as int) } else { Seq::empty() }));
        }
        Ok(p)
    }

    /// The protocol name these choices are written as.
    pub fn to_canonical(&self) -> (r: String)
        ensures
            r@ == params_name(*self),
    {
        proof {
            reveal_strlit("_");
            reveal_strlit("+");
        }
        let mut r = String::new();
        r.append(self.base.as_str());
        r.append("_");
        r.append(self.handshake.pattern.as_str());
        let ghost prefix = r@;
        let mods = &self.handshake.modifiers.list;
        let mut i: usize = 0;
        while i < mods.len()
            invariant
                *mods == self.handshake.modifiers.list,
                i <= mods@.len(),
                r@ == prefix + modifiers_name(mods@.subrange(0, i as int)),
            decreases mods@.len() - i,
        {
            proof {
                reveal_strlit("+");
            }
            if i > 0 {
                r.append("+");
            }
            append_modifier(&mut r, mods[i]);
            proof {
                let l = mods@.subrange(0, i + 1);
                assert(l.drop_last() =~= mods@.subrange(0, i as int));
                assert(l.last() == mods@[i as int]);
                assert(l[0] == mods@[0]);
                if i == 0 {
                    assert(modifiers_name(mods@.subrange(0, 0)) =~= Seq::<char>::empty());
                    assert(modifiers_name(l) == modifier_name(mods@[0]));
                } else {
                    assert(modifiers_name(l) == modifiers_name(mods@.subrange(0, i as int)) + seq!['+']
                        + modifier_name(mods@[i as int]));
                }
            }
            i = i + 1;
            assert(r@ =~= prefix + modifiers_name(mods@.subrange(0, i as int)));
        }
        assert(mods@.subrange(0, mods@.len() as int) =~= mods@);
        r.append("_");
        r.append(self.dh.as_str());
        match self.kem {
            Some(k) => {
                r.append("+");
                r.append(k.as_str());
            },
            None => {},
        }
        r.append("_");
        r.append(self.cipher.as_str());
        r.append("_");
        r.append(self.hash.as_str());
        assert(r@ =~= params_name(*self));
        r
    }
}

impl std::str::FromStr for BaseChoice {
    type Err = Error;

    fn from_str(s: &str) -> Result<Self, Self::Err> {
        BaseChoice::parse_range(s, 0, s.unicode_len())
    }
}

impl std::str::FromStr for DHChoice {
    type Err = Error;

    fn from_str(s: &str) -> Result<Self, Self::Err> {
        DHChoice::parse_range(s, 0, s.unicode_len())
    }
}

impl std::str::FromStr for CipherChoice {
    type Err = Error;

    fn from_str(s: &str) -> Result<Self, Self::Err> {
        CipherChoice::parse_range(s, 0, s.unicode_len())
    }
}

impl std::str::FromStr for HashChoice {
    type Err = Error;

    fn from_str(s: &str) -> Result<Self, Self::Err> {
        HashChoice::parse_range(s, 0, s.unicode_len())
    }
}

impl std::str::FromStr for KemChoice {
    type Err = Error;

    fn from_str(s: &str) -> Result<Self, Self::Err> {
        KemChoice::parse_range(s, 0, s.unicode_len())
    }
}

impl std::str::FromStr for HandshakePattern {
    type Err = Error;

    fn from_str(s: &str) -> Result<Self, Self::Err> {
        HandshakePattern::parse_range(s, 0, s.unicode_len())
    }
}

impl std::str::FromStr for HandshakeModifier {
    type Err = Error;

    fn from_str(s: &str) -> Result<Self, Self::Err> {
        HandshakeModifier::parse_range(s, 0, s.unicode_len())
    }
}

impl std::str::FromStr for HandshakeChoice {
    type Err = Error;

    fn from_str(s: &str) -> Result<Self, Self::Err> {
        HandshakeChoice::parse_range(s, 0, s.unicode_len())
    }
}

impl std::str::FromStr for NoiseParams {
    type Err = Error;

    fn from_str(s: &str) -> Result<Self, Self::Err> {
        NoiseParams::from_name(s)
    }
}

} // verus!
