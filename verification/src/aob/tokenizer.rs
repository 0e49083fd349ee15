//! Lexer for the AOB pattern grammar: hexadecimal bytes, whole-byte
//! wildcards and capture-group brackets, with no bit-level tokens.

use vstd::prelude::*;
use vstd::string::StringSliceAdditionalSpecFns;

use crate::pattern::tokenizer::{is_hex_digit_byte, is_whitespace_byte, hex_pair_value};

verus! {

/// One lexical element of the AOB pattern grammar.
#[derive(Debug, PartialEq, Eq, Structural)]
pub enum Token {
    CaptureGroupOpen,
    CaptureGroupClose,
    /// A fully specified pattern byte.
    ByteValue(u8),
    /// A fully wildcarded pattern byte.
    ByteWildcard,
}

#[derive(Debug)]
pub enum TokenizationError {
    /// A character that no rule of the grammar accepts.
    UnknownInput,
    /// A hexadecimal byte started but was not completed.
    IncompleteByte,
}

/// Attach one token in front of a tokenization outcome.
pub open spec fn cons_token(t: Token, rest: Result<Seq<Token>, TokenizationError>) -> Result<
    Seq<Token>,
    TokenizationError,
> {
    match rest {
        Ok(ts) => Ok(seq![t] + ts),
        Err(e) => Err(e),
    }
}

/// The tokens of the AOB grammar from position `i` on: two case-insensitive
/// hex digits, '?' (an adjacent second '?' is collapsed), and capture-group
/// brackets, separated by whitespace.
pub open spec fn spec_tokenize(s: Seq<u8>, i: int) -> Result<Seq<Token>, TokenizationError>
    decreases s.len() - i,
{
    if i < 0 || i >= s.len() {
        Ok(Seq::empty())
    } else {
        let b = s[i];
        if is_whitespace_byte(b) {
            spec_tokenize(s, i + 1)
        } else if b == 91 {
            cons_token(Token::CaptureGroupOpen, spec_tokenize(s, i + 1))
        } else if b == 93 {
            cons_token(Token::CaptureGroupClose, spec_tokenize(s, i + 1))
        } else if b == 63 {
            if i + 1 < s.len() && s[i + 1] == 63 {
                cons_token(Token::ByteWildcard, spec_tokenize(s, i + 2))
            } else {
                cons_token(Token::ByteWildcard, spec_tokenize(s, i + 1))
            }
        } else if is_hex_digit_byte(b) {
            if i + 1 >= s.len() || !is_hex_digit_byte(s[i + 1]) {
                Err(TokenizationError::IncompleteByte)
            } else {
                cons_token(Token::ByteValue(hex_pair_value(b, s[i + 1])), spec_tokenize(s, i + 2))
            }
        } else {
            Err(TokenizationError::UnknownInput)
        }
    }
}

/// View of an executable tokenization outcome.
pub open spec fn tokens_model(r: Result<Vec<Token>, TokenizationError>) -> Result<
    Seq<Token>,
    TokenizationError,
> {
    match r {
        Ok(v) => Ok(v@),
        Err(e) => Err(e),
    }
}

/// Attach an already-produced token prefix in front of a tokenization
/// outcome for the remaining input.
pub open spec fn prepend_tokens(
    p: Seq<Token>,
    rest: Result<Seq<Token>, TokenizationError>,
) -> Result<Seq<Token>, TokenizationError> {
    match rest {
        Ok(ts) => Ok(p + ts),
        Err(e) => Err(e),
    }
}

proof fn lemma_prepend_cons(p: Seq<Token>, t: Token, rest: Result<Seq<Token>, TokenizationError>)
    ensures
        prepend_tokens(p.push(t), rest) == prepend_tokens(p, cons_token(t, rest)),
{
    match rest {
        Ok(ts) => {
            assert(p.push(t) + ts =~= p + (seq![t] + ts));
        },
        Err(_) => {},
    }
}

fn is_radix_16_char(b: u8) -> (r: bool)
    ensures
        r == is_hex_digit_byte(b),
{
    (48 <= b && b <= 57) || (97 <= b && b <= 102) || (65 <= b && b <= 70)
}

fn hex_digit_char_value(b: u8) -> (r: u8)
    requires
        is_hex_digit_byte(b),
    ensures
        r == crate::pattern::tokenizer::hex_digit_value(b),
        r <= 15,
{
    if 48 <= b && b <= 57 {
        b - 48
    } else if 97 <= b && b <= 102 {
        b - 87
    } else {
        b - 55
    }
}

/// Splits an AOB pattern string into tokens.
pub fn tokenize_pattern(input: &str) -> (r: Result<Vec<Token>, TokenizationError>)
    ensures
        tokens_model(r) == spec_tokenize(input.spec_bytes(), 0),
{
    let s = input.as_bytes();
    let ghost sv = input.spec_bytes();
    let n = s.len();
    let mut tokens: Vec<Token> = Vec::new();
    let mut i: usize = 0;
    while i < n
        invariant
            sv == s@,
            sv == input.spec_bytes(),
            n == s@.len(),
            i <= n,
            prepend_tokens(tokens@, spec_tokenize(sv, i as int)) == spec_tokenize(sv, 0),
        decreases n - i,
    {
        let b = s[i];
        if b == 32 || b == 10 || b == 13 {
            i = i + 1;
        } else if b == 91 {
            proof {
                lemma_prepend_cons(tokens@, Token::CaptureGroupOpen, spec_tokenize(sv, i + 1));
            }
            tokens.push(Token::CaptureGroupOpen);
            i = i + 1;
        } else if b == 93 {
            proof {
                lemma_prepend_cons(tokens@, Token::CaptureGroupClose, spec_tokenize(sv, i + 1));
            }
            tokens.push(Token::CaptureGroupClose);
            i = i + 1;
        } else if b == 63 {
            let next = if i + 1 < n && s[i + 1] == 63 {
                i + 2
            } else {
                i + 1
            };
            proof {
                lemma_prepend_cons(tokens@, Token::ByteWildcard, spec_tokenize(sv, next as int));
            }
            tokens.push(Token::ByteWildcard);
            i = next;
        } else if is_radix_16_char(b) {
            if i + 1 >= n || !is_radix_16_char(s[i + 1]) {
                return Err(TokenizationError::IncompleteByte);
            }
            let value: u8 = hex_digit_char_value(b) * 16 + hex_digit_char_value(s[i + 1]);
            proof {
                lemma_prepend_cons(tokens@, Token::ByteValue(value), spec_tokenize(sv, i + 2));
            }
            tokens.push(Token::ByteValue(value));
            i = i + 2;
        } else {
            return Err(TokenizationError::UnknownInput);
        }
    }
    proof {
        assert(tokens@ + Seq::<Token>::empty() =~= tokens@);
    }
    Ok(tokens)
}

} // verus!
