//! Handshake patterns, their modifiers, and the tokens they expand to.
use vstd::prelude::*;
use crate::error::{Error, PatternProblem};
use crate::text::{substr_is, parse_u8, decimal};

verus! {

/// One step of a handshake message, or a key known before the handshake.
#[derive(PartialEq, Eq, Structural, Copy, Clone, Debug)]
pub enum Token {
    E,
    S,
    Dhee,
    Dhes,
    Dhse,
    Dhss,
    Psk(u8),
}

/// What a set of handshake tokens holds, as sequences.
pub struct TokensModel {
    pub premsg_i: Seq<Token>,
    pub premsg_r: Seq<Token>,
    pub messages: Seq<Seq<Token>>,
}

/// The pre-message tokens of each side and the tokens of each message.
pub struct HandshakeTokens {
    pub premsg_pattern_i: Vec<Token>,
    pub premsg_pattern_r: Vec<Token>,
    pub msg_patterns: Vec<Vec<Token>>,
}

impl HandshakeTokens {
    pub open spec fn model(&self) -> TokensModel {
        TokensModel {
            premsg_i: self.premsg_pattern_i@,
            premsg_r: self.premsg_pattern_r@,
            messages: self.msg_patterns@.map_values(|m: Vec<Token>| m@),
        }
    }
}

/// The handshake patterns of the Noise specification, fundamental and deferred.
#[derive(PartialEq, Eq, Structural, Copy, Clone, Debug)]
pub enum HandshakePattern {
    N,
    K,
    X,
    NN,
    NK,
    NX,
    XN,
    XK,
    XX,
    KN,
    KK,
    KX,
    IN,
    IK,
    IX,
    NK1,
    NX1,
    X1N,
    X1K,
    XK1,
    X1K1,
    X1X,
    XX1,
    X1X1,
    K1N,
    K1K,
    KK1,
    K1K1,
    K1X,
    KX1,
    K1X1,
    I1N,
    I1K,
    IK1,
    I1K1,
    I1X,
    IX1,
    I1X1,
}

/// The name of a pattern in a protocol name.
pub open spec fn pattern_name(p: HandshakePattern) -> Seq<char> {
    match p {
        HandshakePattern::N => "N"@,
        HandshakePattern::K => "K"@,
        HandshakePattern::X => "X"@,
        HandshakePattern::NN => "NN"@,
        HandshakePattern::NK => "NK"@,
        HandshakePattern::NX => "NX"@,
        HandshakePattern::XN => "XN"@,
        HandshakePattern::XK => "XK"@,
        HandshakePattern::XX => "XX"@,
        HandshakePattern::KN => "KN"@,
        HandshakePattern::KK => "KK"@,
        HandshakePattern::KX => "KX"@,
        HandshakePattern::IN => "IN"@,
        HandshakePattern::IK => "IK"@,
        HandshakePattern::IX => "IX"@,
        HandshakePattern::NK1 => "NK1"@,
        HandshakePattern::NX1 => "NX1"@,
        HandshakePattern::X1N => "X1N"@,
        HandshakePattern::X1K => "X1K"@,
        HandshakePattern::XK1 => "XK1"@,
        HandshakePattern::X1K1 => "X1K1"@,
        HandshakePattern::X1X => "X1X"@,
        HandshakePattern::XX1 => "XX1"@,
        HandshakePattern::X1X1 => "X1X1"@,
        HandshakePattern::K1N => "K1N"@,
        HandshakePattern::K1K => "K1K"@,
        HandshakePattern::KK1 => "KK1"@,
        HandshakePattern::K1K1 => "K1K1"@,
        HandshakePattern::K1X => "K1X"@,
        HandshakePattern::KX1 => "KX1"@,
        HandshakePattern::K1X1 => "K1X1"@,
        HandshakePattern::I1N => "I1N"@,
        HandshakePattern::I1K => "I1K"@,
        HandshakePattern::IK1 => "IK1"@,
        HandshakePattern::I1K1 => "I1K1"@,
        HandshakePattern::I1X => "I1X"@,
        HandshakePattern::IX1 => "IX1"@,
        HandshakePattern::I1X1 => "I1X1"@,
    }
}

/// The pre-messages and messages of a pattern before any modifier.
pub open spec fn base_tokens(p: HandshakePattern) -> TokensModel {
    match p {
        HandshakePattern::N => TokensModel {
            premsg_i: seq![],
            premsg_r: seq![Token::S],
            messages: seq![seq![Token::E, Token::Dhes]],
        },
        HandshakePattern::K => TokensModel {
            premsg_i: seq![Token::S],
            premsg_r: seq![Token::S],
            messages: seq![seq![Token::E, Token::Dhes, Token::Dhss]],
        },
        HandshakePattern::X => TokensModel {
            premsg_i: seq![],
            premsg_r: seq![Token::S],
            messages: seq![seq![Token::E, Token::Dhes, Token::S, Token::Dhss]],
        },
        HandshakePattern::NN => TokensModel {
            premsg_i: seq![],
            premsg_r: seq![],
            messages: seq![seq![Token::E], seq![Token::E, Token::Dhee]],
        },
        HandshakePattern::NK => TokensModel {
            premsg_i: seq![],
            premsg_r: seq![Token::S],
            messages: seq![seq![Token::E, Token::Dhes], seq![Token::E, Token::Dhee]],
        },
        HandshakePattern::NX => TokensModel {
            premsg_i: seq![],
            premsg_r: seq![],
            messages: seq![seq![Token::E], seq![Token::E, Token::Dhee, Token::S, Token::Dhes]],
        },
        HandshakePattern::XN => TokensModel {
            premsg_i: seq![],
            premsg_r: seq![],
            messages: seq![seq![Token::E], seq![Token::E, Token::Dhee], seq![Token::S, Token::Dhse]],
        },
        HandshakePattern::XK => TokensModel {
            premsg_i: seq![],
            premsg_r: seq![Token::S],
            messages: seq![seq![Token::E, Token::Dhes], seq![Token::E, Token::Dhee], seq![Token::S, Token::Dhse]],
        },
        HandshakePattern::XX => TokensModel {
            premsg_i: seq![],
            premsg_r: seq![],
            messages: seq![seq![Token::E], seq![Token::E, Token::Dhee, Token::S, Token::Dhes], seq![Token::S, Token::Dhse]],
        },
        HandshakePattern::KN => TokensModel {
            premsg_i: seq![Token::S],
            premsg_r: seq![],
            messages: seq![seq![Token::E], seq![Token::E, Token::Dhee, Token::Dhse]],
        },
        HandshakePattern::KK => TokensModel {
            premsg_i: seq![Token::S],
            premsg_r: seq![Token::S],
            messages: seq![seq![Token::E, Token::Dhes, Token::Dhss], seq![Token::E, Token::Dhee, Token::Dhse]],
        },
        HandshakePattern::KX => TokensModel {
            premsg_i: seq![Token::S],
            premsg_r: seq![],
            messages: seq![seq![Token::E], seq![Token::E, Token::Dhee, Token::Dhse, Token::S, Token::Dhes]],
        },
        HandshakePattern::IN => TokensModel {
            premsg_i: seq![],
            premsg_r: seq![],
            messages: seq![seq![Token::E, Token::S], seq![Token::E, Token::Dhee, Token::Dhse]],
        },
        HandshakePattern::IK => TokensModel {
            premsg_i: seq![],
            premsg_r: seq![Token::S],
            messages: seq![seq![Token::E, Token::Dhes, Token::S, Token::Dhss], seq![Token::E, Token::Dhee, Token::Dhse]],
        },
        HandshakePattern::IX => TokensModel {
            premsg_i: seq![],
            premsg_r: seq![],
            messages: seq![seq![Token::E, Token::S], seq![Token::E, Token::Dhee, Token::Dhse, Token::S, Token::Dhes]],
        },
        HandshakePattern::NK1 => TokensModel {
            premsg_i: seq![],
            premsg_r: seq![Token::S],
            messages: seq![seq![Token::E], seq![Token::E, Token::Dhee, Token::Dhes]],
        },
        HandshakePattern::NX1 => TokensModel {
            premsg_i: seq![],
            premsg_r: seq![],
            messages: seq![seq![Token::E], seq![Token::E, Token::Dhee, Token::S], seq![Token::Dhes]],
        },
        HandshakePattern::X1N => TokensModel {
            premsg_i: seq![],
            premsg_r: seq![],
            messages: seq![seq![Token::E], seq![Token::E, Token::Dhee], seq![Token::S], seq![Token::Dhse]],
        },
        HandshakePattern::X1K => TokensModel {
            premsg_i: seq![],
            premsg_r: seq![Token::S],
            messages: seq![seq![Token::E, Token::Dhes], seq![Token::E, Token::Dhee], seq![Token::S], seq![Token::Dhse]],
        },
        HandshakePattern::XK1 => TokensModel {
            premsg_i: seq![],
            premsg_r: seq![Token::S],
            messages: seq![seq![Token::E], seq![Token::E, Token::Dhee, Token::Dhes], seq![Token::S, Token::Dhse]],
        },
        HandshakePattern::X1K1 => TokensModel {
            premsg_i: seq![],
            premsg_r: seq![Token::S],
            messages: seq![seq![Token::E], seq![Token::E, Token::Dhee, Token::Dhes], seq![Token::S], seq![Token::Dhse]],
        },
        HandshakePattern::X1X => TokensModel {
            premsg_i: seq![],
            premsg_r: seq![],
            messages: seq![seq![Token::E], seq![Token::E, Token::Dhee, Token::S, Token::Dhes], seq![Token::S], seq![Token::Dhse]],
        },
        HandshakePattern::XX1 => TokensModel {
            premsg_i: seq![],
            premsg_r: seq![],
            messages: seq![seq![Token::E], seq![Token::E, Token::Dhee, Token::S], seq![Token::Dhes, Token::S, Token::Dhse]],
        },
        HandshakePattern::X1X1 => TokensModel {
            premsg_i: seq![],
            premsg_r: seq![],
            messages: seq![seq![Token::E], seq![Token::E, Token::Dhee, Token::S], seq![Token::Dhes, Token::S], seq![Token::Dhse]],
        },
        HandshakePattern::K1N => TokensModel {
            premsg_i: seq![Token::S],
            premsg_r: seq![],
            messages: seq![seq![Token::E], seq![Token::E, Token::Dhee], seq![Token::Dhse]],
        },
        HandshakePattern::K1K => TokensModel {
            premsg_i: seq![Token::S],
            premsg_r: seq![Token::S],
            messages: seq![seq![Token::E, Token::Dhes], seq![Token::E, Token::Dhee], seq![Token::Dhse]],
        },
        HandshakePattern::KK1 => TokensModel {
            premsg_i: seq![Token::S],
            premsg_r: seq![Token::S],
            messages: seq![seq![Token::E], seq![Token::E, Token::Dhee, Token::Dhse, Token::Dhes]],
        },
        HandshakePattern::K1K1 => TokensModel {
            premsg_i: seq![Token::S],
            premsg_r: seq![Token::S],
            messages: seq![seq![Token::E], seq![Token::E, Token::Dhee, Token::Dhes], seq![Token::Dhse]],
        },
        HandshakePattern::K1X => TokensModel {
            premsg_i: seq![Token::S],
            premsg_r: seq![],
            messages: seq![seq![Token::E], seq![Token::E, Token::Dhee, Token::S, Token::Dhes], seq![Token::Dhse]],
        },
        HandshakePattern::KX1 => TokensModel {
            premsg_i: seq![Token::S],
            premsg_r: seq![],
            messages: seq![seq![Token::E], seq![Token::E, Token::Dhee, Token::Dhse, Token::S], seq![Token::Dhes]],
        },
        HandshakePattern::K1X1 => TokensModel {
            premsg_i: seq![Token::S],
            premsg_r: seq![],
            messages: seq![seq![Token::E], seq![Token::E, Token::Dhee, Token::S], seq![Token::Dhse, Token::Dhes]],
        },
        HandshakePattern::I1N => TokensModel {
            premsg_i: seq![],
            premsg_r: seq![],
            messages: seq![seq![Token::E, Token::S], seq![Token::E, Token::Dhee], seq![Token::Dhse]],
        },
        HandshakePattern::I1K => TokensModel {
            premsg_i: seq![],
            premsg_r: seq![Token::S],
            messages: seq![seq![Token::E, Token::Dhes, Token::S], seq![Token::E, Token::Dhee], seq![Token::Dhse]],
        },
        HandshakePattern::IK1 => TokensModel {
            premsg_i: seq![],
            premsg_r: seq![Token::S],
            messages: seq![seq![Token::E, Token::S], seq![Token::E, Token::Dhee, Token::Dhse, Token::Dhes]],
        },
        HandshakePattern::I1K1 => TokensModel {
            premsg_i: seq![],
            premsg_r: seq![Token::S],
            messages: seq![seq![Token::E, Token::S], seq![Token::E, Token::Dhee, Token::Dhes], seq![Token::Dhse]],
        },
        HandshakePattern::I1X => TokensModel {
            premsg_i: seq![],
            premsg_r: seq![],
            messages: seq![seq![Token::E, Token::S], seq![Token::E, Token::Dhee, Token::S, Token::Dhes], seq![Token::Dhse]],
        },
        HandshakePattern::IX1 => TokensModel {
            premsg_i: seq![],
            premsg_r: seq![],
            messages: seq![seq![Token::E, Token::S], seq![Token::E, Token::Dhee, Token::Dhse, Token::S], seq![Token::Dhes]],
        },
        HandshakePattern::I1X1 => TokensModel {
            premsg_i: seq![],
            premsg_r: seq![],
            messages: seq![seq![Token::E, Token::S], seq![Token::E, Token::Dhee, Token::S], seq![Token::Dhse, Token::Dhes]],
        },
    }
}

impl HandshakePattern {
    /// The name of this pattern in a protocol name.
    pub fn as_str(&self) -> (r: &'static str)
        ensures
            r@ == pattern_name(*self),
    {
        match self {
            HandshakePattern::N => "N",
            HandshakePattern::K => "K",
            HandshakePattern::X => "X",
            HandshakePattern::NN => "NN",
            HandshakePattern::NK => "NK",
            HandshakePattern::NX => "NX",
            HandshakePattern::XN => "XN",
            HandshakePattern::XK => "XK",
            HandshakePattern::XX => "XX",
            HandshakePattern::KN => "KN",
            HandshakePattern::KK => "KK",
            HandshakePattern::KX => "KX",
            HandshakePattern::IN => "IN",
            HandshakePattern::IK => "IK",
            HandshakePattern::IX => "IX",
            HandshakePattern::NK1 => "NK1",
            HandshakePattern::NX1 => "NX1",
            HandshakePattern::X1N => "X1N",
            HandshakePattern::X1K => "X1K",
            HandshakePattern::XK1 => "XK1",
            HandshakePattern::X1K1 => "X1K1",
            HandshakePattern::X1X => "X1X",
            HandshakePattern::XX1 => "XX1",
            HandshakePattern::X1X1 => "X1X1",
            HandshakePattern::K1N => "K1N",
            HandshakePattern::K1K => "K1K",
            HandshakePattern::KK1 => "KK1",
            HandshakePattern::K1K1 => "K1K1",
            HandshakePattern::K1X => "K1X",
            HandshakePattern::KX1 => "KX1",
            HandshakePattern::K1X1 => "K1X1",
            HandshakePattern::I1N => "I1N",
            HandshakePattern::I1K => "I1K",
            HandshakePattern::IK1 => "IK1",
            HandshakePattern::I1K1 => "I1K1",
            HandshakePattern::I1X => "I1X",
            HandshakePattern::IX1 => "IX1",
            HandshakePattern::I1X1 => "I1X1",
        }
    }

    /// Reads a pattern name from the characters `lo..hi` of `s`.
    pub fn parse_range(s: &str, lo: usize, hi: usize) -> (r: Result<HandshakePattern, Error>)
        requires
            lo <= hi <= s@.len(),
        ensures
            r matches Ok(p) ==> pattern_name(p) == s@.subrange(lo as int, hi as int),
            r is Err ==> r == Err::<HandshakePattern, Error>(Error::Pattern(PatternProblem::UnsupportedHandshakeType)),
            r is Err ==> forall|p: HandshakePattern| pattern_name(p) != s@.subrange(lo as int, hi as int),
    {
        if substr_is(s, lo, hi, "N") {
            Ok(HandshakePattern::N)
        } else if substr_is(s, lo, hi, "K") {
            Ok(HandshakePattern::K)
        } else if substr_is(s, lo, hi, "X") {
            Ok(HandshakePattern::X)
        } else if substr_is(s, lo, hi, "NN") {
            Ok(HandshakePattern::NN)
        } else if substr_is(s, lo, hi, "NK") {
            Ok(HandshakePattern::NK)
        } else if substr_is(s, lo, hi, "NX") {
            Ok(HandshakePattern::NX)
        } else if substr_is(s, lo, hi, "XN") {
            Ok(HandshakePattern::XN)
        } else if substr_is(s, lo, hi, "XK") {
            Ok(HandshakePattern::XK)
        } else if substr_is(s, lo, hi, "XX") {
            Ok(HandshakePattern::XX)
        } else if substr_is(s, lo, hi, "KN") {
            Ok(HandshakePattern::KN)
        } else if substr_is(s, lo, hi, "KK") {
            Ok(HandshakePattern::KK)
        } else if substr_is(s, lo, hi, "KX") {
            Ok(HandshakePattern::KX)
        } else if substr_is(s, lo, hi, "IN") {
            Ok(HandshakePattern::IN)
        } else if substr_is(s, lo, hi, "IK") {
            Ok(HandshakePattern::IK)
        } else if substr_is(s, lo, hi, "IX") {
            Ok(HandshakePattern::IX)
        } else if substr_is(s, lo, hi, "NK1") {
            Ok(HandshakePattern::NK1)
        } else if substr_is(s, lo, hi, "NX1") {
            Ok(HandshakePattern::NX1)
        } else if substr_is(s, lo, hi, "X1N") {
            Ok(HandshakePattern::X1N)
        } else if substr_is(s, lo, hi, "X1K") {
            Ok(HandshakePattern::X1K)
        } else if substr_is(s, lo, hi, "XK1") {
            Ok(HandshakePattern::XK1)
        } else if substr_is(s, lo, hi, "X1K1") {
            Ok(HandshakePattern::X1K1)
        } else if substr_is(s, lo, hi, "X1X") {
            Ok(HandshakePattern::X1X)
        } else if substr_is(s, lo, hi, "XX1") {
            Ok(HandshakePattern::XX1)
        } else if substr_is(s, lo, hi, "X1X1") {
            Ok(HandshakePattern::X1X1)
        } else if substr_is(s, lo, hi, "K1N") {
            Ok(HandshakePattern::K1N)
        } else if substr_is(s, lo, hi, "K1K") {
            Ok(HandshakePattern::K1K)
        } else if substr_is(s, lo, hi, "KK1") {
            Ok(HandshakePattern::KK1)
        } else if substr_is(s, lo, hi, "K1K1") {
            Ok(HandshakePattern::K1K1)
        } else if substr_is(s, lo, hi, "K1X") {
            Ok(HandshakePattern::K1X)
        } else if substr_is(s, lo, hi, "KX1") {
            Ok(HandshakePattern::KX1)
        } else if substr_is(s, lo, hi, "K1X1") {
            Ok(HandshakePattern::K1X1)
        } else if substr_is(s, lo, hi, "I1N") {
            Ok(HandshakePattern::I1N)
        } else if substr_is(s, lo, hi, "I1K") {
            Ok(HandshakePattern::I1K)
        } else if substr_is(s, lo, hi, "IK1") {
            Ok(HandshakePattern::IK1)
        } else if substr_is(s, lo, hi, "I1K1") {
            Ok(HandshakePattern::I1K1)
        } else if substr_is(s, lo, hi, "I1X") {
            Ok(HandshakePattern::I1X)
        } else if substr_is(s, lo, hi, "IX1") {
            Ok(HandshakePattern::IX1)
        } else if substr_is(s, lo, hi, "I1X1") {
            Ok(HandshakePattern::I1X1)
        } else {
            Err(Error::Pattern(PatternProblem::UnsupportedHandshakeType))
        }
    }

    /// The pre-messages and messages of this pattern before any modifier.
    pub fn tokens(&self) -> (r: HandshakeTokens)
        ensures
            r.model() == base_tokens(*self),
    {
        match self {
            HandshakePattern::N => {
                let r = HandshakeTokens {
                    premsg_pattern_i: vec![],
                    premsg_pattern_r: vec![Token::S],
                    msg_patterns: vec![vec![Token::E, Token::Dhes]],
                };
                assert(r.model().messages =~~= base_tokens(*self).messages);
                assert(r.model().premsg_i =~= base_tokens(*self).premsg_i);
                assert(r.model().premsg_r =~= base_tokens(*self).premsg_r);
                r
            },
            HandshakePattern::K => {
                let r = HandshakeTokens {
                    premsg_pattern_i: vec![Token::S],
                    premsg_pattern_r: vec![Token::S],
                    msg_patterns: vec![vec![Token::E, Token::Dhes, Token::Dhss]],
                };
                assert(r.model().messages =~~= base_tokens(*self).messages);
                assert(r.model().premsg_i =~= base_tokens(*self).premsg_i);
                assert(r.model().premsg_r =~= base_tokens(*self).premsg_r);
                r
            },
            HandshakePattern::X => {
                let r = HandshakeTokens {
                    premsg_pattern_i: vec![],
                    premsg_pattern_r: vec![Token::S],
                    msg_patterns: vec![vec![Token::E, Token::Dhes, Token::S, Token::Dhss]],
                };
                assert(r.model().messages =~~= base_tokens(*self).messages);
                assert(r.model().premsg_i =~= base_tokens(*self).premsg_i);
                assert(r.model().premsg_r =~= base_tokens(*self).premsg_r);
                r
            },
            HandshakePattern::NN => {
                let r = HandshakeTokens {
                    premsg_pattern_i: vec![],
                    premsg_pattern_r: vec![],
                    msg_patterns: vec![vec![Token::E], vec![Token::E, Token::Dhee]],
                };
                assert(r.model().messages =~~= base_tokens(*self).messages);
                assert(r.model().premsg_i =~= base_tokens(*self).premsg_i);
                assert(r.model().premsg_r =~= base_tokens(*self).premsg_r);
                r
            },
            HandshakePattern::NK => {
                let r = HandshakeTokens {
                    premsg_pattern_i: vec![],
                    premsg_pattern_r: vec![Token::S],
                    msg_patterns: vec![vec![Token::E, Token::Dhes], vec![Token::E, Token::Dhee]],
                };
                assert(r.model().messages =~~= base_tokens(*self).messages);
                assert(r.model().premsg_i =~= base_tokens(*self).premsg_i);
                assert(r.model().premsg_r =~= base_tokens(*self).premsg_r);
                r
            },
            HandshakePattern::NX => {
                let r = HandshakeTokens {
                    premsg_pattern_i: vec![],
                    premsg_pattern_r: vec![],
                    msg_patterns: vec![vec![Token::E], vec![Token::E, Token::Dhee, Token::S, Token::Dhes]],
                };
                assert(r.model().messages =~~= base_tokens(*self).messages);
                assert(r.model().premsg_i =~= base_tokens(*self).premsg_i);
                assert(r.model().premsg_r =~= base_tokens(*self).premsg_r);
                r
            },
            HandshakePattern::XN => {
                let r = HandshakeTokens {
                    premsg_pattern_i: vec![],
                    premsg_pattern_r: vec![],
                    msg_patterns: vec![vec![Token::E], vec![Token::E, Token::Dhee], vec![Token::S, Token::Dhse]],
                };
                assert(r.model().messages =~~= base_tokens(*self).messages);
                assert(r.model().premsg_i =~= base_tokens(*self).premsg_i);
                assert(r.model().premsg_r =~= base_tokens(*self).premsg_r);
                r
            },
            HandshakePattern::XK => {
                let r = HandshakeTokens {
                    premsg_pattern_i: vec![],
                    premsg_pattern_r: vec![Token::S],
                    msg_patterns: vec![vec![Token::E, Token::Dhes], vec![Token::E, Token::Dhee], vec![Token::S, Token::Dhse]],
                };
                assert(r.model().messages =~~= base_tokens(*self).messages);
                assert(r.model().premsg_i =~= base_tokens(*self).premsg_i);
                assert(r.model().premsg_r =~= base_tokens(*self).premsg_r);
                r
            },
            HandshakePattern::XX => {
                let r = HandshakeTokens {
                    premsg_pattern_i: vec![],
                    premsg_pattern_r: vec![],
                    msg_patterns: vec![vec![Token::E], vec![Token::E, Token::Dhee, Token::S, Token::Dhes], vec![Token::S, Token::Dhse]],
                };
                assert(r.model().messages =~~= base_tokens(*self).messages);
                assert(r.model().premsg_i =~= base_tokens(*self).premsg_i);
                assert(r.model().premsg_r =~= base_tokens(*self).premsg_r);
                r
            },
            HandshakePattern::KN => {
                let r = HandshakeTokens {
                    premsg_pattern_i: vec![Token::S],
                    premsg_pattern_r: vec![],
                    msg_patterns: vec![vec![Token::E], vec![Token::E, Token::Dhee, Token::Dhse]],
                };
                assert(r.model().messages =~~= base_tokens(*self).messages);
                assert(r.model().premsg_i =~= base_tokens(*self).premsg_i);
                assert(r.model().premsg_r =~= base_tokens(*self).premsg_r);
                r
            },
            HandshakePattern::KK => {
                let r = HandshakeTokens {
                    premsg_pattern_i: vec![Token::S],
                    premsg_pattern_r: vec![Token::S],
                    msg_patterns: vec![vec![Token::E, Token::Dhes, Token::Dhss], vec![Token::E, Token::Dhee, Token::Dhse]],
                };
                assert(r.model().messages =~~= base_tokens(*self).messages);
                assert(r.model().premsg_i =~= base_tokens(*self).premsg_i);
                assert(r.model().premsg_r =~= base_tokens(*self).premsg_r);
                r
            },
            HandshakePattern::KX => {
                let r = HandshakeTokens {
                    premsg_pattern_i: vec![Token::S],
                    premsg_pattern_r: vec![],
                    msg_patterns: vec![vec![Token::E], vec![Token::E, Token::Dhee, Token::Dhse, Token::S, Token::Dhes]],
                };
                assert(r.model().messages =~~= base_tokens(*self).messages);
                assert(r.model().premsg_i =~= base_tokens(*self).premsg_i);
                assert(r.model().premsg_r =~= base_tokens(*self).premsg_r);
                r
            },
            HandshakePattern::IN => {
                let r = HandshakeTokens {
                    premsg_pattern_i: vec![],
                    premsg_pattern_r: vec![],
                    msg_patterns: vec![vec![Token::E, Token::S], vec![Token::E, Token::Dhee, Token::Dhse]],
                };
                assert(r.model().messages =~~= base_tokens(*self).messages);
                assert(r.model().premsg_i =~= base_tokens(*self).premsg_i);
                assert(r.model().premsg_r =~= base_tokens(*self).premsg_r);
                r
            },
            HandshakePattern::IK => {
                let r = HandshakeTokens {
                    premsg_pattern_i: vec![],
                    premsg_pattern_r: vec![Token::S],
                    msg_patterns: vec![vec![Token::E, Token::Dhes, Token::S, Token::Dhss], vec![Token::E, Token::Dhee, Token::Dhse]],
                };
                assert(r.model().messages =~~= base_tokens(*self).messages);
                assert(r.model().premsg_i =~= base_tokens(*self).premsg_i);
                assert(r.model().premsg_r =~= base_tokens(*self).premsg_r);
                r
            },
            HandshakePattern::IX => {
                let r = HandshakeTokens {
                    premsg_pattern_i: vec![],
                    premsg_pattern_r: vec![],
                    msg_patterns: vec![vec![Token::E, Token::S], vec![Token::E, Token::Dhee, Token::Dhse, Token::S, Token::Dhes]],
                };
                assert(r.model().messages =~~= base_tokens(*self).messages);
                assert(r.model().premsg_i =~= base_tokens(*self).premsg_i);
                assert(r.model().premsg_r =~= base_tokens(*self).premsg_r);
                r
            },
            HandshakePattern::NK1 => {
                let r = HandshakeTokens {
                    premsg_pattern_i: vec![],
                    premsg_pattern_r: vec![Token::S],
                    msg_patterns: vec![vec![Token::E], vec![Token::E, Token::Dhee, Token::Dhes]],
                };
                assert(r.model().messages =~~= base_tokens(*self).messages);
                assert(r.model().premsg_i =~= base_tokens(*self).premsg_i);
                assert(r.model().premsg_r =~= base_tokens(*self).premsg_r);
                r
            },
            HandshakePattern::NX1 => {
                let r = HandshakeTokens {
                    premsg_pattern_i: vec![],
                    premsg_pattern_r: vec![],
                    msg_patterns: vec![vec![Token::E], vec![Token::E, Token::Dhee, Token::S], vec![Token::Dhes]],
                };
                assert(r.model().messages =~~= base_tokens(*self).messages);
                assert(r.model().premsg_i =~= base_tokens(*self).premsg_i);
                assert(r.model().premsg_r =~= base_tokens(*self).premsg_r);
                r
            },
            HandshakePattern::X1N => {
                let r = HandshakeTokens {
                    premsg_pattern_i: vec![],
                    premsg_pattern_r: vec![],
                    msg_patterns: vec![vec![Token::E], vec![Token::E, Token::Dhee], vec![Token::S], vec![Token::Dhse]],
                };
                assert(r.model().messages =~~= base_tokens(*self).messages);
                assert(r.model().premsg_i =~= base_tokens(*self).premsg_i);
                assert(r.model().premsg_r =~= base_tokens(*self).premsg_r);
                r
            },
            HandshakePattern::X1K => {
                let r = HandshakeTokens {
                    premsg_pattern_i: vec![],
                    premsg_pattern_r: vec![Token::S],
                    msg_patterns: vec![vec![Token::E, Token::Dhes], vec![Token::E, Token::Dhee], vec![Token::S], vec![Token::Dhse]],
                };
                assert(r.model().messages =~~= base_tokens(*self).messages);
                assert(r.model().premsg_i =~= base_tokens(*self).premsg_i);
                assert(r.model().premsg_r =~= base_tokens(*self).premsg_r);
                r
            },
            HandshakePattern::XK1 => {
                let r = HandshakeTokens {
                    premsg_pattern_i: vec![],
                    premsg_pattern_r: vec![Token::S],
                    msg_patterns: vec![vec![Token::E], vec![Token::E, Token::Dhee, Token::Dhes], vec![Token::S, Token::Dhse]],
                };
                assert(r.model().messages =~~= base_tokens(*self).messages);
                assert(r.model().premsg_i =~= base_tokens(*self).premsg_i);
                assert(r.model().premsg_r =~= base_tokens(*self).premsg_r);
                r
            },
            HandshakePattern::X1K1 => {
                let r = HandshakeTokens {
                    premsg_pattern_i: vec![],
                    premsg_pattern_r: vec![Token::S],
                    msg_patterns: vec![vec![Token::E], vec![Token::E, Token::Dhee, Token::Dhes], vec![Token::S], vec![Token::Dhse]],
                };
                assert(r.model().messages =~~= base_tokens(*self).messages);
                assert(r.model().premsg_i =~= base_tokens(*self).premsg_i);
                assert(r.model().premsg_r =~= base_tokens(*self).premsg_r);
                r
            },
            HandshakePattern::X1X => {
                let r = HandshakeTokens {
                    premsg_pattern_i: vec![],
                    premsg_pattern_r: vec![],
                    msg_patterns: vec![vec![Token::E], vec![Token::E, Token::Dhee, Token::S, Token::Dhes], vec![Token::S], vec![Token::Dhse]],
                };
                assert(r.model().messages =~~= base_tokens(*self).messages);
                assert(r.model().premsg_i =~= base_tokens(*self).premsg_i);
                assert(r.model().premsg_r =~= base_tokens(*self).premsg_r);
                r
            },
            HandshakePattern::XX1 => {
                let r = HandshakeTokens {
                    premsg_pattern_i: vec![],
                    premsg_pattern_r: vec![],
                    msg_patterns: vec![vec![Token::E], vec![Token::E, Token::Dhee, Token::S], vec![Token::Dhes, Token::S, Token::Dhse]],
                };
                assert(r.model().messages =~~= base_tokens(*self).messages);
                assert(r.model().premsg_i =~= base_tokens(*self).premsg_i);
                assert(r.model().premsg_r =~= base_tokens(*self).premsg_r);
                r
            },
            HandshakePattern::X1X1 => {
                let r = HandshakeTokens {
                    premsg_pattern_i: vec![],
                    premsg_pattern_r: vec![],
                    msg_patterns: vec![vec![Token::E], vec![Token::E, Token::Dhee, Token::S], vec![Token::Dhes, Token::S], vec![Token::Dhse]],
                };
                assert(r.model().messages =~~= base_tokens(*self).messages);
                assert(r.model().premsg_i =~= base_tokens(*self).premsg_i);
                assert(r.model().premsg_r =~= base_tokens(*self).premsg_r);
                r
            },
            HandshakePattern::K1N => {
                let r = HandshakeTokens {
                    premsg_pattern_i: vec![Token::S],
                    premsg_pattern_r: vec![],
                    msg_patterns: vec![vec![Token::E], vec![Token::E, Token::Dhee], vec![Token::Dhse]],
                };
                assert(r.model().messages =~~= base_tokens(*self).messages);
                assert(r.model().premsg_i =~= base_tokens(*self).premsg_i);
                assert(r.model().premsg_r =~= base_tokens(*self).premsg_r);
                r
            },
            HandshakePattern::K1K => {
                let r = HandshakeTokens {
                    premsg_pattern_i: vec![Token::S],
                    premsg_pattern_r: vec![Token::S],
                    msg_patterns: vec![vec![Token::E, Token::Dhes], vec![Token::E, Token::Dhee], vec![Token::Dhse]],
                };
                assert(r.model().messages =~~= base_tokens(*self).messages);
                assert(r.model().premsg_i =~= base_tokens(*self).premsg_i);
                assert(r.model().premsg_r =~= base_tokens(*self).premsg_r);
                r
            },
            HandshakePattern::KK1 => {
                let r = HandshakeTokens {
                    premsg_pattern_i: vec![Token::S],
                    premsg_pattern_r: vec![Token::S],
                    msg_patterns: vec![vec![Token::E], vec![Token::E, Token::Dhee, Token::Dhse, Token::Dhes]],
                };
                assert(r.model().messages =~~= base_tokens(*self).messages);
                assert(r.model().premsg_i =~= base_tokens(*self).premsg_i);
                assert(r.model().premsg_r =~= base_tokens(*self).premsg_r);
                r
            },
            HandshakePattern::K1K1 => {
                let r = HandshakeTokens {
                    premsg_pattern_i: vec![Token::S],
                    premsg_pattern_r: vec![Token::S],
                    msg_patterns: vec![vec![Token::E], vec![Token::E, Token::Dhee, Token::Dhes], vec![Token::Dhse]],
                };
                assert(r.model().messages =~~= base_tokens(*self).messages);
                assert(r.model().premsg_i =~= base_tokens(*self).premsg_i);
                assert(r.model().premsg_r =~= base_tokens(*self).premsg_r);
                r
            },
            HandshakePattern::K1X => {
                let r = HandshakeTokens {
                    premsg_pattern_i: vec![Token::S],
                    premsg_pattern_r: vec![],
                    msg_patterns: vec![vec![Token::E], vec![Token::E, Token::Dhee, Token::S, Token::Dhes], vec![Token::Dhse]],
                };
                assert(r.model().messages =~~= base_tokens(*self).messages);
                assert(r.model().premsg_i =~= base_tokens(*self).premsg_i);
                assert(r.model().premsg_r =~= base_tokens(*self).premsg_r);
                r
            },
            HandshakePattern::KX1 => {
                let r = HandshakeTokens {
                    premsg_pattern_i: vec![Token::S],
                    premsg_pattern_r: vec![],
                    msg_patterns: vec![vec![Token::E], vec![Token::E, Token::Dhee, Token::Dhse, Token::S], vec![Token::Dhes]],
                };
                assert(r.model().messages =~~= base_tokens(*self).messages);
                assert(r.model().premsg_i =~= base_tokens(*self).premsg_i);
                assert(r.model().premsg_r =~= base_tokens(*self).premsg_r);
                r
            },
            HandshakePattern::K1X1 => {
                let r = HandshakeTokens {
                    premsg_pattern_i: vec![Token::S],
                    premsg_pattern_r: vec![],
                    msg_patterns: vec![vec![Token::E], vec![Token::E, Token::Dhee, Token::S], vec![Token::Dhse, Token::Dhes]],
                };
                assert(r.model().messages =~~= base_tokens(*self).messages);
                assert(r.model().premsg_i =~= base_tokens(*self).premsg_i);
                assert(r.model().premsg_r =~= base_tokens(*self).premsg_r);
                r
            },
            HandshakePattern::I1N => {
                let r = HandshakeTokens {
                    premsg_pattern_i: vec![],
                    premsg_pattern_r: vec![],
                    msg_patterns: vec![vec![Token::E, Token::S], vec![Token::E, Token::Dhee], vec![Token::Dhse]],
                };
                assert(r.model().messages =~~= base_tokens(*self).messages);
                assert(r.model().premsg_i =~= base_tokens(*self).premsg_i);
                assert(r.model().premsg_r =~= base_tokens(*self).premsg_r);
                r
            },
            HandshakePattern::I1K => {
                let r = HandshakeTokens {
                    premsg_pattern_i: vec![],
                    premsg_pattern_r: vec![Token::S],
                    msg_patterns: vec![vec![Token::E, Token::Dhes, Token::S], vec![Token::E, Token::Dhee], vec![Token::Dhse]],
                };
                assert(r.model().messages =~~= base_tokens(*self).messages);
                assert(r.model().premsg_i =~= base_tokens(*self).premsg_i);
                assert(r.model().premsg_r =~= base_tokens(*self).premsg_r);
                r
            },
            HandshakePattern::IK1 => {
                let r = HandshakeTokens {
                    premsg_pattern_i: vec![],
                    premsg_pattern_r: vec![Token::S],
                    msg_patterns: vec![vec![Token::E, Token::S], vec![Token::E, Token::Dhee, Token::Dhse, Token::Dhes]],
                };
                assert(r.model().messages =~~= base_tokens(*self).messages);
                assert(r.model().premsg_i =~= base_tokens(*self).premsg_i);
                assert(r.model().premsg_r =~= base_tokens(*self).premsg_r);
                r
            },
            HandshakePattern::I1K1 => {
                let r = HandshakeTokens {
                    premsg_pattern_i: vec![],
                    premsg_pattern_r: vec![Token::S],
                    msg_patterns: vec![vec![Token::E, Token::S], vec![Token::E, Token::Dhee, Token::Dhes], vec![Token::Dhse]],
                };
                assert(r.model().messages =~~= base_tokens(*self).messages);
                assert(r.model().premsg_i =~= base_tokens(*self).premsg_i);
                assert(r.model().premsg_r =~= base_tokens(*self).premsg_r);
                r
            },
            HandshakePattern::I1X => {
                let r = HandshakeTokens {
                    premsg_pattern_i: vec![],
                    premsg_pattern_r: vec![],
                    msg_patterns: vec![vec![Token::E, Token::S], vec![Token::E, Token::Dhee, Token::S, Token::Dhes], vec![Token::Dhse]],
                };
                assert(r.model().messages =~~= base_tokens(*self).messages);
                assert(r.model().premsg_i =~= base_tokens(*self).premsg_i);
                assert(r.model().premsg_r =~= base_tokens(*self).premsg_r);
                r
            },
            HandshakePattern::IX1 => {
                let r = HandshakeTokens {
                    premsg_pattern_i: vec![],
                    premsg_pattern_r: vec![],
                    msg_patterns: vec![vec![Token::E, Token::S], vec![Token::E, Token::Dhee, Token::Dhse, Token::S], vec![Token::Dhes]],
                };
                assert(r.model().messages =~~= base_tokens(*self).messages);
                assert(r.model().premsg_i =~= base_tokens(*self).premsg_i);
                assert(r.model().premsg_r =~= base_tokens(*self).premsg_r);
                r
            },
            HandshakePattern::I1X1 => {
                let r = HandshakeTokens {
                    premsg_pattern_i: vec![],
                    premsg_pattern_r: vec![],
                    msg_patterns: vec![vec![Token::E, Token::S], vec![Token::E, Token::Dhee, Token::S], vec![Token::Dhse, Token::Dhes]],
                };
                assert(r.model().messages =~~= base_tokens(*self).messages);
                assert(r.model().premsg_i =~= base_tokens(*self).premsg_i);
                assert(r.model().premsg_r =~= base_tokens(*self).premsg_r);
                r
            },
        }
    }
}

/// A modifier that follows the pattern in a protocol name.
#[derive(PartialEq, Eq, Structural, Copy, Clone, Debug)]
pub enum HandshakeModifier {
    Psk(u8),
    Fallback,
    Hfs,
}

/// The name of a modifier in a protocol name.
pub open spec fn modifier_name(m: HandshakeModifier) -> Seq<char> {
    match m {
        HandshakeModifier::Psk(n) => "psk"@ + decimal(n as nat),
        HandshakeModifier::Fallback => "fallback"@,
        HandshakeModifier::Hfs => "hfs"@,
    }
}

/// The names of a list of modifiers, joined by `+`.
pub open spec fn modifiers_name(l: Seq<HandshakeModifier>) -> Seq<char>
    decreases l.len(),
{
    if l.len() == 0 {
        Seq::empty()
    } else if l.len() == 1 {
        modifier_name(l[0])
    } else {
        modifiers_name(l.drop_last()) + seq!['+'] + modifier_name(l.last())
    }
}

/// A character that can stand in a pattern name.
pub open spec fn pattern_char(c: char) -> bool {
    c == 'N' || c == 'K' || c == 'X' || c == 'I' || c == '1'
}

/// A pattern name has one to four characters, all of them pattern characters.
pub proof fn lemma_pattern_name_chars(p: HandshakePattern)
    ensures
        1 <= pattern_name(p).len() <= 4,
        forall|i: int| 0 <= i < pattern_name(p).len() ==> pattern_char(#[trigger] pattern_name(p)[i]),
{
    match p {
        HandshakePattern::N => {
            reveal_strlit("N");
        },
        HandshakePattern::K => {
            reveal_strlit("K");
        },
        HandshakePattern::X => {
            reveal_strlit("X");
        },
        HandshakePattern::NN => {
            reveal_strlit("NN");
        },
        HandshakePattern::NK => {
            reveal_strlit("NK");
        },
        HandshakePattern::NX => {
            reveal_strlit("NX");
        },
        HandshakePattern::XN => {
            reveal_strlit("XN");
        },
        HandshakePattern::XK => {
            reveal_strlit("XK");
        },
        HandshakePattern::XX => {
            reveal_strlit("XX");
        },
        HandshakePattern::KN => {
            reveal_strlit("KN");
        },
        HandshakePattern::KK => {
            reveal_strlit("KK");
        },
        HandshakePattern::KX => {
            reveal_strlit("KX");
        },
        HandshakePattern::IN => {
            reveal_strlit("IN");
        },
        HandshakePattern::IK => {
            reveal_strlit("IK");
        },
        HandshakePattern::IX => {
            reveal_strlit("IX");
        },
        HandshakePattern::NK1 => {
            reveal_strlit("NK1");
        },
        HandshakePattern::NX1 => {
            reveal_strlit("NX1");
        },
        HandshakePattern::X1N => {
            reveal_strlit("X1N");
        },
        HandshakePattern::X1K => {
            reveal_strlit("X1K");
        },
        HandshakePattern::XK1 => {
            reveal_strlit("XK1");
        },
        HandshakePattern::X1K1 => {
            reveal_strlit("X1K1");
        },
        HandshakePattern::X1X => {
            reveal_strlit("X1X");
        },
        HandshakePattern::XX1 => {
            reveal_strlit("XX1");
        },
        HandshakePattern::X1X1 => {
            reveal_strlit("X1X1");
        },
        HandshakePattern::K1N => {
            reveal_strlit("K1N");
        },
        HandshakePattern::K1K => {
            reveal_strlit("K1K");
        },
        HandshakePattern::KK1 => {
            reveal_strlit("KK1");
        },
        HandshakePattern::K1K1 => {
            reveal_strlit("K1K1");
        },
        HandshakePattern::K1X => {
            reveal_strlit("K1X");
        },
        HandshakePattern::KX1 => {
            reveal_strlit("KX1");
        },
        HandshakePattern::K1X1 => {
            reveal_strlit("K1X1");
        },
        HandshakePattern::I1N => {
            reveal_strlit("I1N");
        },
        HandshakePattern::I1K => {
            reveal_strlit("I1K");
        },
        HandshakePattern::IK1 => {
            reveal_strlit("IK1");
        },
        HandshakePattern::I1K1 => {
            reveal_strlit("I1K1");
        },
        HandshakePattern::I1X => {
            reveal_strlit("I1X");
        },
        HandshakePattern::IX1 => {
            reveal_strlit("IX1");
        },
        HandshakePattern::I1X1 => {
            reveal_strlit("I1X1");
        },
    }
}

/// A modifier name starts with a lower-case letter and holds no `+` or `_`.
pub proof fn lemma_modifier_name_chars(m: HandshakeModifier)
    ensures
        modifier_name(m).len() >= 1,
        modifier_name(m)[0] == 'p' || modifier_name(m)[0] == 'f' || modifier_name(m)[0] == 'h',
        forall|i: int| 0 <= i < modifier_name(m).len() ==> #[trigger] modifier_name(m)[i] != '+' && modifier_name(m)[i] != '_',
{
    reveal_strlit("psk");
    reveal_strlit("fallback");
    reveal_strlit("hfs");
    if let HandshakeModifier::Psk(n) = m {
        crate::text::lemma_decimal_digits(n as nat);
        assert forall|i: int| 0 <= i < modifier_name(m).len() implies #[trigger] modifier_name(m)[i] != '+' && modifier_name(m)[i] != '_' by {
            if i >= 3 {
                assert(modifier_name(m)[i] == decimal(n as nat)[i - 3]);
            }
        }
    }
}

/// The pattern a name names, if any.
pub open spec fn pattern_of_name(s: Seq<char>) -> Option<HandshakePattern> {
    if s.len() == 1 && s[0] == 'N' {
        Some(HandshakePattern::N)
    } else if s.len() == 1 && s[0] == 'K' {
        Some(HandshakePattern::K)
    } else if s.len() == 1 && s[0] == 'X' {
        Some(HandshakePattern::X)
    } else if s.len() == 2 && s[0] == 'N' && s[1] == 'N' {
        Some(HandshakePattern::NN)
    } else if s.len() == 2 && s[0] == 'N' && s[1] == 'K' {
        Some(HandshakePattern::NK)
    } else if s.len() == 2 && s[0] == 'N' && s[1] == 'X' {
        Some(HandshakePattern::NX)
    } else if s.len() == 2 && s[0] == 'X' && s[1] == 'N' {
        Some(HandshakePattern::XN)
    } else if s.len() == 2 && s[0] == 'X' && s[1] == 'K' {
        Some(HandshakePattern::XK)
    } else if s.len() == 2 && s[0] == 'X' && s[1] == 'X' {
        Some(HandshakePattern::XX)
    } else if s.len() == 2 && s[0] == 'K' && s[1] == 'N' {
        Some(HandshakePattern::KN)
    } else if s.len() == 2 && s[0] == 'K' && s[1] == 'K' {
        Some(HandshakePattern::KK)
    } else if s.len() == 2 && s[0] == 'K' && s[1] == 'X' {
        Some(HandshakePattern::KX)
    } else if s.len() == 2 && s[0] == 'I' && s[1] == 'N' {
        Some(HandshakePattern::IN)
    } else if s.len() == 2 && s[0] == 'I' && s[1] == 'K' {
        Some(HandshakePattern::IK)
    } else if s.len() == 2 && s[0] == 'I' && s[1] == 'X' {
        Some(HandshakePattern::IX)
    } else if s.len() == 3 && s[0] == 'N' && s[1] == 'K' && s[2] == '1' {
        Some(HandshakePattern::NK1)
    } else if s.len() == 3 && s[0] == 'N' && s[1] == 'X' && s[2] == '1' {
        Some(HandshakePattern::NX1)
    } else if s.len() == 3 && s[0] == 'X' && s[1] == '1' && s[2] == 'N' {
        Some(HandshakePattern::X1N)
    } else if s.len() == 3 && s[0] == 'X' && s[1] == '1' && s[2] == 'K' {
        Some(HandshakePattern::X1K)
    } else if s.len() == 3 && s[0] == 'X' && s[1] == 'K' && s[2] == '1' {
        Some(HandshakePattern::XK1)
    } else if s.len() == 4 && s[0] == 'X' && s[1] == '1' && s[2] == 'K' && s[3] == '1' {
        Some(HandshakePattern::X1K1)
    } else if s.len() == 3 && s[0] == 'X' && s[1] == '1' && s[2] == 'X' {
        Some(HandshakePattern::X1X)
    } else if s.len() == 3 && s[0] == 'X' && s[1] == 'X' && s[2] == '1' {
        Some(HandshakePattern::XX1)
    } else if s.len() == 4 && s[0] == 'X' && s[1] == '1' && s[2] == 'X' && s[3] == '1' {
        Some(HandshakePattern::X1X1)
    } else if s.len() == 3 && s[0] == 'K' && s[1] == '1' && s[2] == 'N' {
        Some(HandshakePattern::K1N)
    } else if s.len() == 3 && s[0] == 'K' && s[1] == '1' && s[2] == 'K' {
        Some(HandshakePattern::K1K)
    } else if s.len() == 3 && s[0] == 'K' && s[1] == 'K' && s[2] == '1' {
        Some(HandshakePattern::KK1)
    } else if s.len() == 4 && s[0] == 'K' && s[1] == '1' && s[2] == 'K' && s[3] == '1' {
        Some(HandshakePattern::K1K1)
    } else if s.len() == 3 && s[0] == 'K' && s[1] == '1' && s[2] == 'X' {
        Some(HandshakePattern::K1X)
    } else if s.len() == 3 && s[0] == 'K' && s[1] == 'X' && s[2] == '1' {
        Some(HandshakePattern::KX1)
    } else if s.len() == 4 && s[0] == 'K' && s[1] == '1' && s[2] == 'X' && s[3] == '1' {
        Some(HandshakePattern::K1X1)
    } else if s.len() == 3 && s[0] == 'I' && s[1] == '1' && s[2] == 'N' {
        Some(HandshakePattern::I1N)
    } else if s.len() == 3 && s[0] == 'I' && s[1] == '1' && s[2] == 'K' {
        Some(HandshakePattern::I1K)
    } else if s.len() == 3 && s[0] == 'I' && s[1] == 'K' && s[2] == '1' {
        Some(HandshakePattern::IK1)
    } else if s.len() == 4 && s[0] == 'I' && s[1] == '1' && s[2] == 'K' && s[3] == '1' {
        Some(HandshakePattern::I1K1)
    } else if s.len() == 3 && s[0] == 'I' && s[1] == '1' && s[2] == 'X' {
        Some(HandshakePattern::I1X)
    } else if s.len() == 3 && s[0] == 'I' && s[1] == 'X' && s[2] == '1' {
        Some(HandshakePattern::IX1)
    } else if s.len() == 4 && s[0] == 'I' && s[1] == '1' && s[2] == 'X' && s[3] == '1' {
        Some(HandshakePattern::I1X1)
    } else {
        None
    }
}

/// Each pattern is read back from its name.
pub proof fn lemma_pattern_of_name(p: HandshakePattern)
    ensures
        pattern_of_name(pattern_name(p)) == Some(p),
{
    match p {
        HandshakePattern::N => {
            reveal_strlit("N");
        },
        HandshakePattern::K => {
            reveal_strlit("K");
        },
        HandshakePattern::X => {
            reveal_strlit("X");
        },
        HandshakePattern::NN => {
            reveal_strlit("NN");
        },
        HandshakePattern::NK => {
            reveal_strlit("NK");
        },
        HandshakePattern::NX => {
            reveal_strlit("NX");
        },
        HandshakePattern::XN => {
            reveal_strlit("XN");
        },
        HandshakePattern::XK => {
            reveal_strlit("XK");
        },
        HandshakePattern::XX => {
            reveal_strlit("XX");
        },
        HandshakePattern::KN => {
            reveal_strlit("KN");
        },
        HandshakePattern::KK => {
            reveal_strlit("KK");
        },
        HandshakePattern::KX => {
            reveal_strlit("KX");
        },
        HandshakePattern::IN => {
            reveal_strlit("IN");
        },
        HandshakePattern::IK => {
            reveal_strlit("IK");
        },
        HandshakePattern::IX => {
            reveal_strlit("IX");
        },
        HandshakePattern::NK1 => {
            reveal_strlit("NK1");
        },
        HandshakePattern::NX1 => {
            reveal_strlit("NX1");
        },
        HandshakePattern::X1N => {
            reveal_strlit("X1N");
        },
        HandshakePattern::X1K => {
            reveal_strlit("X1K");
        },
        HandshakePattern::XK1 => {
            reveal_strlit("XK1");
        },
        HandshakePattern::X1K1 => {
            reveal_strlit("X1K1");
        },
        HandshakePattern::X1X => {
            reveal_strlit("X1X");
        },
        HandshakePattern::XX1 => {
            reveal_strlit("XX1");
        },
        HandshakePattern::X1X1 => {
            reveal_strlit("X1X1");
        },
        HandshakePattern::K1N => {
            reveal_strlit("K1N");
        },
        HandshakePattern::K1K => {
            reveal_strlit("K1K");
        },
        HandshakePattern::KK1 => {
            reveal_strlit("KK1");
        },
        HandshakePattern::K1K1 => {
            reveal_strlit("K1K1");
        },
        HandshakePattern::K1X => {
            reveal_strlit("K1X");
        },
        HandshakePattern::KX1 => {
            reveal_strlit("KX1");
        },
        HandshakePattern::K1X1 => {
            reveal_strlit("K1X1");
        },
        HandshakePattern::I1N => {
            reveal_strlit("I1N");
        },
        HandshakePattern::I1K => {
            reveal_strlit("I1K");
        },
        HandshakePattern::IK1 => {
            reveal_strlit("IK1");
        },
        HandshakePattern::I1K1 => {
            reveal_strlit("I1K1");
        },
        HandshakePattern::I1X => {
            reveal_strlit("I1X");
        },
        HandshakePattern::IX1 => {
            reveal_strlit("IX1");
        },
        HandshakePattern::I1X1 => {
            reveal_strlit("I1X1");
        },
    }
}

/// Different patterns have different names.
pub proof fn lemma_pattern_name_injective(p: HandshakePattern, q: HandshakePattern)
    requires
        pattern_name(p) == pattern_name(q),
    ensures
        p == q,
{
    lemma_pattern_of_name(p);
    lemma_pattern_of_name(q);
}

impl HandshakeModifier {
    /// Reads a modifier from the characters `lo..hi` of `s`.
    pub fn parse_range(s: &str, lo: usize, hi: usize) -> (r: Result<HandshakeModifier, Error>)
        requires
            lo <= hi <= s@.len(),
        ensures
            r matches Ok(m) ==> modifier_name(m) == s@.subrange(lo as int, hi as int),
            r matches Err(e) ==> e == Error::Pattern(PatternProblem::InvalidPsk) || e
                == Error::Pattern(PatternProblem::UnsupportedModifier),
            forall|m: HandshakeModifier| modifier_name(m) == s@.subrange(lo as int, hi as int) ==> r is Ok,
    {
        proof {
            reveal_strlit("psk");
            reveal_strlit("fallback");
            reveal_strlit("hfs");
            assert forall|m: HandshakeModifier| modifier_name(m) == s@.subrange(lo as int, hi as int) implies
                (m is Psk <==> (hi - lo >= 3 && s@.subrange(lo as int, lo + 3) == "psk"@))
                && (m is Psk ==> hi - lo >= 3 && s@.subrange(lo + 3, hi as int) == decimal(m->Psk_0 as nat)) by {
                if hi - lo >= 3 {
                    assert(s@.subrange(lo as int, lo + 3) =~= modifier_name(m).subrange(0, 3));
                }
                let sub = s@.subrange(lo as int, hi as int);
                match m {
                    HandshakeModifier::Psk(n) => {
                        crate::text::lemma_decimal_first(n as nat);
                        assert(("psk"@ + decimal(n as nat)).subrange(0, 3) =~= "psk"@);
                        assert(sub.subrange(3, sub.len() as int) =~= decimal(n as nat));
                        assert(s@.subrange(lo + 3, hi as int) =~= sub.subrange(3, sub.len() as int));
                    },
                    HandshakeModifier::Fallback => {
                        assert(sub[0] == 'f');
                        assert("psk"@[0] == 'p');
                        if hi - lo >= 3 {
                            assert(s@.subrange(lo as int, lo + 3)[0] == 'f');
                        }
                    },
                    HandshakeModifier::Hfs => {
                        assert(sub[0] == 'h');
                        assert("psk"@[0] == 'p');
                        if hi - lo >= 3 {
                            assert(s@.subrange(lo as int, lo + 3)[0] == 'h');
                        }
                    },
                }
            }
        }
        if hi - lo >= 3 && substr_is(s, lo, lo + 3, "psk") {
            match parse_u8(s, lo + 3, hi) {
                Some(n) => {
                    assert(s@.subrange(lo as int, hi as int) =~= s@.subrange(lo as int, lo + 3)
                        + s@.subrange(lo + 3, hi as int));
                    Ok(HandshakeModifier::Psk(n))
                },
                None => Err(Error::Pattern(PatternProblem::InvalidPsk)),
            }
        } else if substr_is(s, lo, hi, "fallback") {
            Ok(HandshakeModifier::Fallback)
        } else if substr_is(s, lo, hi, "hfs") {
            Ok(HandshakeModifier::Hfs)
        } else {
            Err(Error::Pattern(PatternProblem::UnsupportedModifier))
        }
    }
}

/// The modifiers of a handshake, in the order they were written.
#[derive(Clone, Debug)]
pub struct HandshakeModifierList {
    pub list: Vec<HandshakeModifier>,
}

/// A pattern and its modifiers.
#[derive(Clone, Debug)]
pub struct HandshakeChoice {
    pub pattern: HandshakePattern,
    pub modifiers: HandshakeModifierList,
}

/// The pattern-and-modifiers field of a protocol name.
pub open spec fn handshake_name(h: HandshakeChoice) -> Seq<char> {
    pattern_name(h.pattern) + modifiers_name(h.modifiers.list@)
}

/// Whether a list of modifiers holds `m`.
pub open spec fn has_modifier(l: Seq<HandshakeModifier>, m: HandshakeModifier) -> bool {
    exists|i: int| 0 <= i < l.len() && l[i] == m
}

/// Whether a list of modifiers holds a pre-shared key modifier.
pub open spec fn has_psk(l: Seq<HandshakeModifier>) -> bool {
    exists|i: int| 0 <= i < l.len() && l[i] is Psk
}

impl HandshakeChoice {
    /// Whether the handshake mixes pre-shared keys.
    pub fn is_psk(&self) -> (r: bool)
        ensures
            r == has_psk(self.modifiers.list@),
    {
        let mut i: usize = 0;
        while i < self.modifiers.list.len()
            invariant
                i <= self.modifiers.list@.len(),
                forall|j: int| 0 <= j < i ==> !(self.modifiers.list@[j] is Psk),
            decreases self.modifiers.list@.len() - i,
        {
            if let HandshakeModifier::Psk(_) = self.modifiers.list[i] {
                return true;
            }
            i = i + 1;
        }
        false
    }

    /// Whether the fallback modifier is present.
    pub fn is_fallback(&self) -> (r: bool)
        ensures
            r == has_modifier(self.modifiers.list@, HandshakeModifier::Fallback),
    {
        self.has(HandshakeModifier::Fallback)
    }

    /// Whether the hfs modifier is present.
    pub fn is_hfs(&self) -> (r: bool)
        ensures
            r == has_modifier(self.modifiers.list@, HandshakeModifier::Hfs),
    {
        self.has(HandshakeModifier::Hfs)
    }

    fn has(&self, m: HandshakeModifier) -> (r: bool)
        ensures
            r == has_modifier(self.modifiers.list@, m),
    {
        let mut i: usize = 0;
        while i < self.modifiers.list.len()
            invariant
                i <= self.modifiers.list@.len(),
                forall|j: int| 0 <= j < i ==> self.modifiers.list@[j] != m,
            decreases self.modifiers.list@.len() - i,
        {
            if self.modifiers.list[i] == m {
                return true;
            }
            i = i + 1;
        }
        false
    }

    /// Reads a pattern and its modifiers from the characters `lo..hi` of `s`.
    /// The pattern is the longest prefix of at most four characters that
    /// names one; the rest is a `+`-separated list of modifiers.
    pub fn parse_range(s: &str, lo: usize, hi: usize) -> (r: Result<HandshakeChoice, Error>)
        requires
            lo <= hi <= s@.len(),
        ensures
            r matches Ok(h) ==> handshake_name(h) == s@.subrange(lo as int, hi as int),
            forall|p: HandshakePattern, l: Seq<HandshakeModifier>| pattern_name(p) + modifiers_name(l)
                == s@.subrange(lo as int, hi as int) ==> r is Ok,
    {
        let ghost sub = s@.subrange(lo as int, hi as int);
        let ghost has_target = exists|p: HandshakePattern, l: Seq<HandshakeModifier>| pattern_name(p) + modifiers_name(l) == sub;
        let ghost (tp, tl) = choose|p: HandshakePattern, l: Seq<HandshakeModifier>| pattern_name(p) + modifiers_name(l) == sub;
        let ghost n0 = pattern_name(tp).len();
        proof {
            lemma_pattern_name_chars(tp);
        }
        let mut len: usize = 4;
        let mut found: Option<HandshakePattern> = None;
        while len > 0 && found.is_none()
            invariant
                lo <= hi <= s@.len(),
                sub == s@.subrange(lo as int, hi as int),
                len <= 4,
                found matches Some(p) ==> lo + len <= hi && pattern_name(p) == s@.subrange(
                    lo as int,
                    lo + len,
                ),
                has_target ==> pattern_name(tp) + modifiers_name(tl) == sub,
                n0 == pattern_name(tp).len(),
                1 <= n0 <= 4,
                has_target ==> (found is None ==> len >= n0) && (found is Some ==> len == n0),
            decreases 2 * len + if found is None { 1int } else { 0int },
        {
            proof {
                if has_target && len > n0 && len <= hi - lo {
                    assert(tl.len() >= 1);
                    lemma_modifiers_name_first(tl);
                    lemma_modifier_name_chars(tl[0]);
                    assert(s@[lo + n0] == sub[n0 as int]);
                    assert(sub[n0 as int] == modifiers_name(tl)[0]);
                    assert forall|p: HandshakePattern| pattern_name(p) != s@.subrange(lo as int, lo + len) by {
                        lemma_pattern_name_chars(p);
                        if pattern_name(p) == s@.subrange(lo as int, lo + len) {
                            assert(pattern_char(pattern_name(p)[n0 as int]));
                            assert(pattern_name(p)[n0 as int] == s@[lo + n0]);
                        }
                    }
                }
                if has_target && len == n0 {
                    assert(s@.subrange(lo as int, lo + len) =~= pattern_name(tp));
                }
            }
            if len <= hi - lo {
                if let Ok(p) = HandshakePattern::parse_range(s, lo, lo + len) {
                    found = Some(p);
                }
            }
            if found.is_none() {
                len = len - 1;
            }
        }
        let pattern = match found {
            Some(p) => p,
            None => { return Err(Error::Pattern(PatternProblem::UnsupportedHandshakeType)); },
        };
        let start = lo + len;
        proof {
            if has_target {
                assert(len == n0);
                assert(sub.subrange(n0 as int, sub.len() as int) =~= modifiers_name(tl));
                assert(s@.subrange(start as int, hi as int) =~= sub.subrange(n0 as int, sub.len() as int));
            }
        }
        let modifiers = match parse_modifiers(s, start, hi) {
            Ok(l) => l,
            Err(e) => { return Err(e); },
        };
        assert(s@.subrange(lo as int, hi as int) =~= s@.subrange(lo as int, start as int)
            + s@.subrange(start as int, hi as int));
        Ok(HandshakeChoice { pattern, modifiers: HandshakeModifierList { list: modifiers } })
    }
}

/// A list of two or more modifiers is written as its first, a `+`, then the rest.
pub proof fn lemma_modifiers_name_front(l: Seq<HandshakeModifier>)
    requires
        l.len() >= 2,
    ensures
        modifiers_name(l) == modifier_name(l[0]) + seq!['+'] + modifiers_name(l.drop_first()),
    decreases l.len(),
{
    if l.len() == 2 {
        assert(l.drop_last().len() == 1);
        assert(l.drop_first().len() == 1);
        assert(l.drop_last()[0] == l[0]);
        assert(l.drop_first()[0] == l[1]);
        assert(l.last() == l[1]);
        assert(modifiers_name(l.drop_last()) == modifier_name(l[0]));
        assert(modifiers_name(l.drop_first()) == modifier_name(l[1]));
        assert(modifiers_name(l) == modifiers_name(l.drop_last()) + seq!['+'] + modifier_name(l.last()));
    } else {
        lemma_modifiers_name_front(l.drop_last());
        assert(l.drop_last().drop_first() =~= l.drop_first().drop_last());
        assert(l.drop_first().last() == l.last());
        assert(modifiers_name(l.drop_first()) == modifiers_name(l.drop_first().drop_last()) + seq!['+']
            + modifier_name(l.drop_first().last()));
        assert(modifiers_name(l) =~= modifier_name(l[0]) + seq!['+'] + modifiers_name(l.drop_first()));
    }
}

/// A non-empty list of modifiers is written starting with its first modifier's
/// first character.
pub proof fn lemma_modifiers_name_first(l: Seq<HandshakeModifier>)
    requires
        l.len() >= 1,
    ensures
        modifiers_name(l).len() >= 1,
        modifiers_name(l)[0] == modifier_name(l[0])[0],
{
    lemma_modifier_name_chars(l[0]);
    if l.len() >= 2 {
        lemma_modifiers_name_front(l);
    }
}

/// Different modifiers have different names.
pub proof fn lemma_modifier_name_injective(a: HandshakeModifier, b: HandshakeModifier)
    requires
        modifier_name(a) == modifier_name(b),
    ensures
        a == b,
{
    reveal_strlit("psk");
    reveal_strlit("fallback");
    reveal_strlit("hfs");
    lemma_modifier_name_chars(a);
    lemma_modifier_name_chars(b);
    if let HandshakeModifier::Psk(x) = a {
        crate::text::lemma_decimal_first(x as nat);
        assert(modifier_name(a)[0] == 'p');
        if let HandshakeModifier::Psk(y) = b {
            assert(modifier_name(a).subrange(3, modifier_name(a).len() as int) =~= decimal(x as nat));
            assert(modifier_name(b).subrange(3, modifier_name(b).len() as int) =~= decimal(y as nat));
            crate::text::lemma_decimal_injective(x as nat, y as nat);
        }
    }
    if let HandshakeModifier::Psk(y) = b {
        assert(modifier_name(b)[0] == 'p');
    }
    if a is Fallback {
        assert(modifier_name(a)[0] == 'f');
    }
    if b is Fallback {
        assert(modifier_name(b)[0] == 'f');
    }
}

/// The name of a list of modifiers has a `+` just after its first modifier's
/// name where there are two or more, none before.
proof fn lemma_modifiers_name_first_plus(l: Seq<HandshakeModifier>)
    requires
        l.len() >= 1,
    ensures
        forall|j: int| 0 <= j < modifier_name(l[0]).len() ==> modifiers_name(l)[j] == modifier_name(l[0])[j] && modifiers_name(l)[j] != '+',
        l.len() == 1 ==> modifiers_name(l) == modifier_name(l[0]),
        l.len() >= 2 ==> modifiers_name(l)[modifier_name(l[0]).len() as int] == '+',
        modifiers_name(l).len() >= modifier_name(l[0]).len(),
{
    lemma_modifier_name_chars(l[0]);
    if l.len() >= 2 {
        lemma_modifiers_name_front(l);
    }
}

/// Different lists of modifiers have different names.
pub proof fn lemma_modifiers_name_injective(a: Seq<HandshakeModifier>, b: Seq<HandshakeModifier>)
    requires
        modifiers_name(a) == modifiers_name(b),
    ensures
        a == b,
    decreases a.len(),
{
    if a.len() == 0 || b.len() == 0 {
        if a.len() > 0 {
            lemma_modifiers_name_first(a);
        }
        if b.len() > 0 {
            lemma_modifiers_name_first(b);
        }
        assert(a =~= b);
    } else {
        lemma_modifiers_name_first_plus(a);
        lemma_modifiers_name_first_plus(b);
        let na = modifier_name(a[0]).len();
        let nb = modifier_name(b[0]).len();
        let w = modifiers_name(a);
        // the first `+`, or the end, comes at the same place on both sides
        if a.len() == 1 && b.len() >= 2 {
            lemma_modifiers_name_front(b);
            assert(w.len() == na);
            assert(w[nb as int] == '+');
            assert(false);
        }
        if b.len() == 1 && a.len() >= 2 {
            lemma_modifiers_name_front(a);
            assert(modifiers_name(b).len() == nb);
            assert(w[na as int] == '+');
            assert(false);
        }
        if a.len() >= 2 && b.len() >= 2 {
            if na < nb {
                assert(w[na as int] == '+');
                assert(false);
            }
            if nb < na {
                assert(w[nb as int] == '+');
                assert(false);
            }
            assert(modifier_name(a[0]) =~= w.subrange(0, na as int));
            assert(modifier_name(b[0]) =~= w.subrange(0, nb as int));
            lemma_modifier_name_injective(a[0], b[0]);
            lemma_modifiers_name_front(a);
            lemma_modifiers_name_front(b);
            assert(modifiers_name(a.drop_first()) =~= w.subrange(na as int + 1, w.len() as int));
            assert(modifiers_name(b.drop_first()) =~= w.subrange(nb as int + 1, w.len() as int));
            lemma_modifiers_name_injective(a.drop_first(), b.drop_first());
            assert(a =~= b) by {
                assert forall|i: int| 0 <= i < a.len() implies a[i] == b[i] by {
                    if i > 0 {
                        assert(a[i] == a.drop_first()[i - 1]);
                        assert(b[i] == b.drop_first()[i - 1]);
                    }
                }
            }
        } else {
            lemma_modifier_name_injective(a[0], b[0]);
            assert(a =~= b);
        }
    }
}

/// A pattern-and-modifiers field determines its modifiers.
pub proof fn lemma_handshake_name_modifiers(p: HandshakePattern, a: Seq<HandshakeModifier>, q: HandshakePattern, b: Seq<HandshakeModifier>)
    requires
        pattern_name(p) + modifiers_name(a) == pattern_name(q) + modifiers_name(b),
    ensures
        a == b,
{
    lemma_pattern_name_chars(p);
    lemma_pattern_name_chars(q);
    let w = pattern_name(p) + modifiers_name(a);
    let np = pattern_name(p).len();
    let nq = pattern_name(q).len();
    if np < nq {
        if a.len() == 0 {
            assert(w.len() == np);
        } else {
            lemma_modifiers_name_first(a);
            lemma_modifier_name_chars(a[0]);
            assert(w[np as int] == modifiers_name(a)[0]);
            assert(w[np as int] == pattern_name(q)[np as int]);
        }
        assert(false);
    }
    if nq < np {
        if b.len() == 0 {
            assert(w.len() == nq);
        } else {
            lemma_modifiers_name_first(b);
            lemma_modifier_name_chars(b[0]);
            assert(w[nq as int] == modifiers_name(b)[0]);
            assert(w[nq as int] == pattern_name(p)[nq as int]);
        }
        assert(false);
    }
    assert(modifiers_name(a) =~= w.subrange(np as int, w.len() as int));
    assert(modifiers_name(b) =~= w.subrange(nq as int, w.len() as int));
    lemma_modifiers_name_injective(a, b);
}

/// Reads a `+`-separated list of modifiers from the characters `lo..hi` of `s`;
/// no characters make an empty list.
fn parse_modifiers(s: &str, lo: usize, hi: usize) -> (r: Result<Vec<HandshakeModifier>, Error>)
    requires
        lo <= hi <= s@.len(),
    ensures
        r matches Ok(l) ==> modifiers_name(l@) == s@.subrange(lo as int, hi as int),
        forall|l: Seq<HandshakeModifier>| modifiers_name(l) == s@.subrange(lo as int, hi as int) ==> r is Ok,
{
    let mut list: Vec<HandshakeModifier> = Vec::new();
    if lo == hi {
        assert(s@.subrange(lo as int, hi as int) =~= Seq::<char>::empty());
        return Ok(list);
    }
    let ghost has_target = exists|l: Seq<HandshakeModifier>| modifiers_name(l) == s@.subrange(lo as int, hi as int);
    let ghost target = choose|l: Seq<HandshakeModifier>| modifiers_name(l) == s@.subrange(lo as int, hi as int);
    proof {
        if has_target {
            if target.len() == 0 {
                assert(s@.subrange(lo as int, hi as int).len() == 0);
            }
            assert(target.subrange(0, target.len() as int) =~= target);
        }
    }
    let mut pos: usize = lo;
    loop
        invariant
            lo <= pos <= hi <= s@.len(),
            list@.len() == 0 ==> pos == lo,
            list@.len() > 0 ==> modifiers_name(list@) + seq!['+'] == s@.subrange(
                lo as int,
                pos as int,
            ),
            has_target == exists|l: Seq<HandshakeModifier>| modifiers_name(l) == s@.subrange(lo as int, hi as int),
            has_target ==> modifiers_name(target) == s@.subrange(lo as int, hi as int),
            has_target ==> list@.len() < target.len(),
            has_target ==> modifiers_name(target.subrange(list@.len() as int, target.len() as int))
                == s@.subrange(pos as int, hi as int),
        decreases hi - pos,
    {
        let ghost rest = target.subrange(list@.len() as int, target.len() as int);
        proof {
            if has_target {
                lemma_modifier_name_chars(rest[0]);
                let n0 = modifier_name(rest[0]).len();
                if rest.len() >= 2 {
                    lemma_modifiers_name_front(rest);
                    assert(modifiers_name(rest)[n0 as int] == '+');
                    assert(s@[pos + n0] == s@.subrange(pos as int, hi as int)[n0 as int]);
                    assert(s@[pos + n0] == '+');
                } else {
                    assert(modifiers_name(rest) == modifier_name(rest[0]));
                }
                assert forall|j: int| pos <= j < pos + n0 implies s@[j] != '+' by {
                    assert(s@[j] == s@.subrange(pos as int, hi as int)[j - pos]);
                    assert(modifiers_name(rest)[j - pos] == modifier_name(rest[0])[j - pos]);
                }
            }
        }
        let q = crate::text::find_char(s, pos, hi, '+');
        proof {
            if has_target {
                let n0 = modifier_name(rest[0]).len();
                assert(q == pos + n0);
                assert(s@.subrange(pos as int, q as int) =~= modifier_name(rest[0]));
            }
        }
        let m = match HandshakeModifier::parse_range(s, pos, q) {
            Ok(m) => m,
            Err(e) => { return Err(e); },
        };
        let ghost before = list@;
        list.push(m);
        proof {
            assert(list@.drop_last() =~= before);
            if before.len() == 0 {
                assert(modifiers_name(list@) == modifier_name(m));
                assert(s@.subrange(lo as int, q as int) == s@.subrange(pos as int, q as int));
            } else {
                assert(s@.subrange(lo as int, q as int) =~= s@.subrange(lo as int, pos as int)
                    + s@.subrange(pos as int, q as int));
            }
        }
        if q == hi {
            return Ok(list);
        }
        proof {
            if has_target {
                assert(rest.len() >= 2);
                assert(rest.drop_first() =~= target.subrange(list@.len() as int, target.len() as int));
                assert(s@.subrange(q + 1, hi as int) =~= s@.subrange(pos as int, hi as int).subrange(q + 1 - pos, hi - pos));
            }
        }
        assert(s@.subrange(lo as int, q + 1) =~= s@.subrange(lo as int, q as int).push(s@[q as int]));
        pos = q + 1;
    }
}

/// Whether a pattern can take the fallback modifier: nothing is known of the
/// initiator before the handshake, and the first of at least two messages
/// only carries keys.
pub open spec fn fallback_ok(t: TokensModel) -> bool {
    &&& t.premsg_i.len() == 0
    &&& t.messages.len() >= 2
    &&& forall|i: int| 0 <= i < t.messages[0].len() ==> (t.messages[0][i] is E || t.messages[0][i] is S)
}

/// The effect of one modifier on a set of tokens.
pub open spec fn apply_modifier(t: TokensModel, m: HandshakeModifier) -> Result<TokensModel, Error> {
    match m {
        HandshakeModifier::Psk(n) => {
            if n == 0 && t.messages.len() > 0 {
                Ok(TokensModel {
                    messages: t.messages.update(0, seq![Token::Psk(0)] + t.messages[0]),
                    ..t
                })
            } else if 0 < n <= t.messages.len() {
                Ok(TokensModel {
                    messages: t.messages.update(n - 1, t.messages[n - 1].push(Token::Psk(n))),
                    ..t
                })
            } else {
                Err(Error::Pattern(PatternProblem::UnsupportedModifier))
            }
        },
        HandshakeModifier::Fallback => {
            if fallback_ok(t) {
                Ok(TokensModel { premsg_i: t.messages[0], premsg_r: t.premsg_r, messages: t.messages.drop_first() })
            } else {
                Err(Error::Pattern(PatternProblem::UnsupportedModifier))
            }
        },
        HandshakeModifier::Hfs => Err(Error::Pattern(PatternProblem::UnsupportedModifier)),
    }
}

/// The tokens of a pattern with a list of modifiers applied in order.
pub open spec fn expand(p: HandshakePattern, mods: Seq<HandshakeModifier>) -> Result<TokensModel, Error>
    decreases mods.len(),
{
    if mods.len() == 0 {
        Ok(base_tokens(p))
    } else {
        match expand(p, mods.drop_last()) {
            Ok(t) => apply_modifier(t, mods.last()),
            Err(e) => Err(e),
        }
    }
}


/// A copy of a list of tokens.
fn copy_tokens(src: &Vec<Token>) -> (r: Vec<Token>)
    ensures
        r@ == src@,
{
    let mut r: Vec<Token> = Vec::new();
    let mut i: usize = 0;
    while i < src.len()
        invariant
            i <= src@.len(),
            r@ == src@.subrange(0, i as int),
        decreases src@.len() - i,
    {
        r.push(src[i]);
        i = i + 1;
        assert(r@ =~= src@.subrange(0, i as int));
    }
    assert(src@.subrange(0, src@.len() as int) =~= src@);
    r
}

/// Whether the first of at least two messages only carries keys, and nothing
/// of the initiator is known before the handshake.
fn can_fall_back(t: &HandshakeTokens) -> (r: bool)
    ensures
        r == fallback_ok(t.model()),
{
    if t.premsg_pattern_i.len() != 0 || t.msg_patterns.len() < 2 {
        return false;
    }
    let first = &t.msg_patterns[0];
    let mut i: usize = 0;
    while i < first.len()
        invariant
            t.msg_patterns@.len() >= 2,
            *first == t.msg_patterns@[0],
            i <= first@.len(),
            forall|j: int| 0 <= j < i ==> (first@[j] is E || first@[j] is S),
        decreases first@.len() - i,
    {
        match first[i] {
            Token::E | Token::S => {},
            _ => { return false; },
        }
        i = i + 1;
    }
    true
}

impl HandshakeTokens {
    /// Applies one modifier to these tokens.
    fn apply(self, m: HandshakeModifier) -> (r: Result<HandshakeTokens, Error>)
        ensures
            match r {
                Ok(u) => apply_modifier(self.model(), m) == Ok::<TokensModel, Error>(u.model()),
                Err(e) => apply_modifier(self.model(), m) == Err::<TokensModel, Error>(e),
            },
    {
        let mut t = self;
        match m {
            HandshakeModifier::Psk(n) => {
                if n == 0 && t.msg_patterns.len() > 0 {
                    let mut first: Vec<Token> = Vec::new();
                    first.push(Token::Psk(0));
                    let mut rest = copy_tokens(&t.msg_patterns[0]);
                    first.append(&mut rest);
                    let ghost before = t.model();
                    t.msg_patterns[0] = first;
                    assert(t.model().messages =~= before.messages.update(0, seq![Token::Psk(0)] + before.messages[0]));
                    Ok(t)
                } else if 0 < n && (n as usize) <= t.msg_patterns.len() {
                    let i = (n - 1) as usize;
                    let mut msg = copy_tokens(&t.msg_patterns[i]);
                    msg.push(Token::Psk(n));
                    let ghost before = t.model();
                    t.msg_patterns[i] = msg;
                    assert(t.model().messages =~= before.messages.update(i as int, before.messages[i as int].push(Token::Psk(n))));
                    Ok(t)
                } else {
                    Err(Error::Pattern(PatternProblem::UnsupportedModifier))
                }
            },
            HandshakeModifier::Fallback => {
                if can_fall_back(&t) {
                    let ghost before = t.model();
                    let first = t.msg_patterns.remove(0);
                    let u = HandshakeTokens {
                        premsg_pattern_i: first,
                        premsg_pattern_r: t.premsg_pattern_r,
                        msg_patterns: t.msg_patterns,
                    };
                    assert(u.model().messages =~= before.messages.drop_first());
                    Ok(u)
                } else {
                    Err(Error::Pattern(PatternProblem::UnsupportedModifier))
                }
            },
            HandshakeModifier::Hfs => Err(Error::Pattern(PatternProblem::UnsupportedModifier)),
        }
    }

    /// The tokens of a handshake: its pattern's, with its modifiers applied
    /// in the order they were written.
    pub fn try_from(handshake: &HandshakeChoice) -> (r: Result<HandshakeTokens, Error>)
        ensures
            match r {
                Ok(t) => expand(handshake.pattern, handshake.modifiers.list@) == Ok::<TokensModel, Error>(t.model()),
                Err(e) => expand(handshake.pattern, handshake.modifiers.list@) == Err::<TokensModel, Error>(e),
            },
    {
        let mut t = handshake.pattern.tokens();
        let mut i: usize = 0;
        while i < handshake.modifiers.list.len()
            invariant
                i <= handshake.modifiers.list@.len(),
                expand(handshake.pattern, handshake.modifiers.list@.subrange(0, i as int)) == Ok::<TokensModel, Error>(t.model()),
            decreases handshake.modifiers.list@.len() - i,
        {
            assert(handshake.modifiers.list@.subrange(0, i + 1).drop_last() =~= handshake.modifiers.list@.subrange(0, i as int));
            assert(handshake.modifiers.list@.subrange(0, i + 1).last() == handshake.modifiers.list@[i as int]);
            match t.apply(handshake.modifiers.list[i]) {
                Ok(u) => { t = u; },
                Err(e) => {
                    assert(expand(handshake.pattern, handshake.modifiers.list@.subrange(0, i + 1)) == Err::<TokensModel, Error>(e));
                    proof { lemma_expand_err_stays(handshake.pattern, handshake.modifiers.list@, i as int + 1, e); }
                    return Err(e);
                },
            }
            i = i + 1;
        }
        assert(handshake.modifiers.list@.subrange(0, handshake.modifiers.list@.len() as int) =~= handshake.modifiers.list@);
        Ok(t)
    }
}

/// Once expansion fails on a prefix of the modifiers, it fails the same way
/// on the whole list.
proof fn lemma_expand_err_stays(p: HandshakePattern, mods: Seq<HandshakeModifier>, k: int, e: Error)
    requires
        0 <= k <= mods.len(),
        expand(p, mods.subrange(0, k)) == Err::<TokensModel, Error>(e),
    ensures
        expand(p, mods) == Err::<TokensModel, Error>(e),
    decreases mods.len() - k,
{
    if k < mods.len() {
        assert(mods.subrange(0, k + 1).drop_last() =~= mods.subrange(0, k));
        lemma_expand_err_stays(p, mods, k + 1, e);
    } else {
        assert(mods.subrange(0, k) =~= mods);
    }
}


/// Expansion only fails with a pattern error.
pub proof fn lemma_expand_err_is_pattern(p: HandshakePattern, mods: Seq<HandshakeModifier>)
    ensures
        expand(p, mods) matches Err(e) ==> e is Pattern,
    decreases mods.len(),
{
    if mods.len() > 0 {
        lemma_expand_err_is_pattern(p, mods.drop_last());
    }
}

} // verus!
