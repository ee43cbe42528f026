use snow::error::{Error, PatternProblem};
use snow::params::{
    CipherChoice, DHChoice, HandshakeChoice, HandshakeModifier, HandshakePattern, HandshakeTokens, HashChoice,
    NoiseParams, Token,
};

#[test]
fn test_simple_handshake() {
    let _: HandshakePattern = "XX".parse().unwrap();
}

#[test]
fn test_basic() {
    let p: NoiseParams = "Noise_XX_25519_AESGCM_SHA256".parse().unwrap();
    assert!(p.handshake.modifiers.list.is_empty());
}

#[test]
fn test_basic_deferred() {
    let p: NoiseParams = "Noise_X1X1_25519_AESGCM_SHA256".parse().unwrap();
    assert!(p.handshake.modifiers.list.is_empty());
}

#[test]
fn test_fallback_mod() {
    let p: NoiseParams = "Noise_XXfallback_25519_AESGCM_SHA256".parse().unwrap();
    assert!(p.handshake.modifiers.list[0] == HandshakeModifier::Fallback);
}

#[test]
fn test_psk_fallback_mod() {
    let p: NoiseParams = "Noise_XXfallback+psk0_25519_AESGCM_SHA256".parse().unwrap();
    assert!(p.handshake.modifiers.list.len() == 2);
}

#[test]
fn test_single_psk_mod() {
    let p: NoiseParams = "Noise_XXpsk0_25519_AESGCM_SHA256".parse().unwrap();
    match p.handshake.modifiers.list[0] {
        HandshakeModifier::Psk(0) => {}
        _ => panic!("modifier isn't as expected!"),
    }
}

#[test]
fn test_multi_psk_mod() {
    let p: NoiseParams = "Noise_XXpsk0+psk1+psk2_25519_AESGCM_SHA256".parse().unwrap();
    let mods = p.handshake.modifiers.list;
    match (mods[0], mods[1], mods[2]) {
        (HandshakeModifier::Psk(0), HandshakeModifier::Psk(1), HandshakeModifier::Psk(2)) => {}
        _ => panic!("modifiers weren't as expected! actual: {:?}", mods),
    }
}

#[test]
fn test_modified_psk_handshake() {
    let p: NoiseParams = "Noise_XXpsk0_25519_AESGCM_SHA256".parse().unwrap();
    let tokens = HandshakeTokens::try_from(&p.handshake).unwrap();
    match tokens.msg_patterns[0][0] {
        Token::Psk(_) => {}
        _ => panic!("missing token!"),
    }
}

#[test]
fn test_modified_multi_psk_handshake() {
    let p: NoiseParams = "Noise_XXpsk0+psk2_25519_AESGCM_SHA256".parse().unwrap();

    let tokens = HandshakeTokens::try_from(&p.handshake).unwrap();

    match tokens.msg_patterns[0][0] {
        Token::Psk(_) => {}
        _ => panic!("missing token!"),
    }

    let second = &tokens.msg_patterns[1];
    match second[second.len() - 1] {
        Token::Psk(_) => {}
        _ => panic!("missing token!"),
    }
}

const PATTERNS: [&str; 38] = [
    "N", "K", "X", "NN", "NK", "NX", "XN", "XK", "XX", "KN", "KK", "KX", "IN", "IK", "IX", "NK1",
    "NX1", "X1N", "X1K", "XK1", "X1K1", "X1X", "XX1", "X1X1", "K1N", "K1K", "KK1", "K1K1", "K1X",
    "KX1", "K1X1", "I1N", "I1K", "IK1", "I1K1", "I1X", "IX1", "I1X1",
];

#[test]
fn canonical_name_round_trips() {
    let names = [
        "Noise_NN_25519_ChaChaPoly_SHA256",
        "Noise_XX_25519_AESGCM_SHA256",
        "Noise_IK_448_ChaChaPoly_BLAKE2s",
        "Noise_XXpsk0_25519_AESGCM_SHA512",
        "Noise_XXpsk0+psk1+psk2_25519_AESGCM_BLAKE2b",
        "Noise_XXfallback+psk0_25519_AESGCM_SHA256",
        "Noise_NNpsk255_25519_AESGCM_SHA256",
        "Noise_NNpsk42_25519_AESGCM_SHA256",
        "Noise_XXhfs_25519+Kyber1024_AESGCM_SHA256",
        "Noise_X1X1_25519_AESGCM_SHA256",
    ];
    for name in names.iter() {
        let p = NoiseParams::from_name(name).unwrap();
        assert_eq!(p.to_canonical(), *name);
        assert_eq!(p.name, *name);
    }
    for pat in PATTERNS.iter() {
        let name = format!("Noise_{}_25519_AESGCM_SHA256", pat);
        let p = NoiseParams::from_name(&name).unwrap();
        assert_eq!(p.handshake.pattern.as_str(), *pat);
        assert_eq!(p.to_canonical(), name);
    }
}

#[test]
fn parsed_fields_are_the_named_choices() {
    let p = NoiseParams::from_name("Noise_IK_448_ChaChaPoly_BLAKE2s").unwrap();
    assert_eq!(p.handshake.pattern, HandshakePattern::IK);
    assert_eq!(p.dh, DHChoice::Ed448);
    assert_eq!(p.cipher, CipherChoice::ChaChaPoly);
    assert_eq!(p.hash, HashChoice::Blake2s);
    assert!(p.kem.is_none());
}

#[test]
fn unsupported_cipher_is_named() {
    let r = NoiseParams::from_name("Noise_XX_25519_AES_SHA256");
    assert_eq!(r.err(), Some(Error::Pattern(PatternProblem::UnsupportedCipherType)));
}

#[test]
fn missing_hash_field_is_too_few_parameters() {
    let r = NoiseParams::from_name("Noise_XX_25519_AESGCM");
    assert_eq!(r.err(), Some(Error::Pattern(PatternProblem::TooFewParameters)));
}

#[test]
fn each_parse_error_kind() {
    let cases = [
        ("Nois_XX_25519_AESGCM_SHA256", PatternProblem::UnsupportedBaseType),
        ("Noise_QQ_25519_AESGCM_SHA256", PatternProblem::UnsupportedHandshakeType),
        ("Noise_XXbogus_25519_AESGCM_SHA256", PatternProblem::UnsupportedModifier),
        ("Noise_XXpsk256_25519_AESGCM_SHA256", PatternProblem::InvalidPsk),
        ("Noise_XXpsk01_25519_AESGCM_SHA256", PatternProblem::InvalidPsk),
        ("Noise_XX_9999_AESGCM_SHA256", PatternProblem::UnsupportedDhType),
        ("Noise_XX_25519_AESGCM_MD5", PatternProblem::UnsupportedHashType),
        ("Noise_XXhfs_25519+Foo_AESGCM_SHA256", PatternProblem::UnsupportedKemType),
        ("Noise_XXhfs_25519_AESGCM_SHA256", PatternProblem::TooFewParameters),
        ("Noise_XX_25519+Kyber1024_AESGCM_SHA256", PatternProblem::TooFewParameters),
        ("Noise", PatternProblem::TooFewParameters),
    ];
    for (name, problem) in cases.iter() {
        assert_eq!(NoiseParams::from_name(name).err(), Some(Error::Pattern(*problem)), "{}", name);
    }
}

#[test]
fn psk_modifiers_place_tokens() {
    let p = NoiseParams::from_name("Noise_NNpsk2_25519_AESGCM_SHA256").unwrap();
    let t = HandshakeTokens::try_from(&p.handshake).unwrap();
    assert_eq!(t.msg_patterns[1], vec![Token::E, Token::Dhee, Token::Psk(2)]);
    let p = NoiseParams::from_name("Noise_NNpsk3_25519_AESGCM_SHA256").unwrap();
    assert_eq!(
        HandshakeTokens::try_from(&p.handshake).err(),
        Some(Error::Pattern(PatternProblem::UnsupportedModifier))
    );
}

#[test]
fn fallback_moves_first_message_to_premessage() {
    let p = NoiseParams::from_name("Noise_XXfallback_25519_AESGCM_SHA256").unwrap();
    let t = HandshakeTokens::try_from(&p.handshake).unwrap();
    assert_eq!(t.premsg_pattern_i, vec![Token::E]);
    assert_eq!(t.msg_patterns.len(), 2);
    assert_eq!(t.msg_patterns[0], vec![Token::E, Token::Dhee, Token::S, Token::Dhes]);
    let p = NoiseParams::from_name("Noise_IKfallback_25519_AESGCM_SHA256").unwrap();
    assert_eq!(
        HandshakeTokens::try_from(&p.handshake).err(),
        Some(Error::Pattern(PatternProblem::UnsupportedModifier))
    );
}

#[test]
fn xx_tokens_match_the_pattern_table() {
    let choice: HandshakeChoice = "XX".parse().unwrap();
    let t = HandshakeTokens::try_from(&choice).unwrap();
    assert!(t.premsg_pattern_i.is_empty() && t.premsg_pattern_r.is_empty());
    assert_eq!(t.msg_patterns[0], vec![Token::E]);
    assert_eq!(t.msg_patterns[1], vec![Token::E, Token::Dhee, Token::S, Token::Dhes]);
    assert_eq!(t.msg_patterns[2], vec![Token::S, Token::Dhse]);
}
