//! Lexer for the pattern language: hexadecimal byte tokens, whole-byte
//! wildcards, bit-level byte tokens and capture-group brackets.
//!
//! Every token stream is specified against the raw UTF-8 bytes of the input
//! string; all meaningful characters are ASCII, and any non-ASCII byte is
//! rejected as unknown input.

use vstd::prelude::*;
use vstd::string::StringSliceAdditionalSpecFns;

verus! {

/// One lexical element of the pattern language.
#[derive(Debug, PartialEq, Eq, Structural)]
pub enum Token {
    CaptureGroupOpen,
    CaptureGroupClose,
    /// A single pattern byte: expected value and bit-level mask.
    ByteValue(u8, u8),
}

#[derive(Debug)]
pub enum TokenizationError {
    /// A character that no rule of the grammar accepts.
    UnknownInput,
    /// A byte token started but the input ended before it was complete.
    IncompleteByte,
}

/// Whitespace accepted between tokens: space, line feed, carriage return.
pub open spec fn is_whitespace_byte(b: u8) -> bool {
    b == 32 || b == 10 || b == 13
}

/// Case-insensitive hexadecimal digit.
pub open spec fn is_hex_digit_byte(b: u8) -> bool {
    (48 <= b && b <= 57) || (97 <= b && b <= 102) || (65 <= b && b <= 70)
}

/// Numeric value of a hexadecimal digit.
pub open spec fn hex_digit_value(b: u8) -> u8 {
    if 48 <= b && b <= 57 {
        (b - 48) as u8
    } else if 97 <= b && b <= 102 {
        (b - 87) as u8
    } else {
        (b - 55) as u8
    }
}

/// The value a pair of hexadecimal digits denotes.
pub open spec fn hex_pair_value(hi: u8, lo: u8) -> u8 {
    (hex_digit_value(hi) * 16 + hex_digit_value(lo)) as u8
}

/// Characters allowed inside a bit-level byte token: '0', '1', '?', '.'.
pub open spec fn is_bit_char_byte(b: u8) -> bool {
    b == 48 || b == 49 || b == 63 || b == 46
}

/// Contribution of one bit character to the token's value.
pub open spec fn bit_value_bit(b: u8) -> u8 {
    if b == 49 {
        1
    } else {
        0
    }
}

/// Contribution of one bit character to the token's mask: '?' and '.' leave
/// the bit wildcarded, anything else pins it.
pub open spec fn bit_mask_bit(b: u8) -> u8 {
    if b == 63 || b == 46 {
        0
    } else {
        1
    }
}

/// Value of the `n` bit characters of `s` starting at `i`, most significant
/// bit first.
pub open spec fn bits_value(s: Seq<u8>, i: int, n: int) -> int
    decreases n,
{
    if n <= 0 {
        0
    } else {
        bits_value(s, i, n - 1) * 2 + bit_value_bit(s[i + n - 1])
    }
}

/// Mask of the `n` bit characters of `s` starting at `i`, most significant
/// bit first.
pub open spec fn bits_mask(s: Seq<u8>, i: int, n: int) -> int
    decreases n,
{
    if n <= 0 {
        0
    } else {
        bits_mask(s, i, n - 1) * 2 + bit_mask_bit(s[i + n - 1])
    }
}

/// Two to the power `n`.
pub open spec fn two_to(n: int) -> int
    decreases n,
{
    if n <= 0 {
        1
    } else {
        2 * two_to(n - 1)
    }
}

pub proof fn lemma_bits_value_bound(s: Seq<u8>, i: int, n: int)
    ensures
        0 <= bits_value(s, i, n) < two_to(n),
        0 <= bits_mask(s, i, n) < two_to(n),
    decreases n,
{
    if n > 0 {
        lemma_bits_value_bound(s, i, n - 1);
    }
}

proof fn lemma_two_to_pos(n: int)
    ensures
        two_to(n) >= 1,
    decreases (if n > 0 { n } else { 0 }),
{
    if n > 0 {
        lemma_two_to_pos(n - 1);
    }
}

proof fn lemma_two_to_monotone(a: int, b: int)
    requires
        a <= b,
    ensures
        two_to(a) <= two_to(b),
    decreases b - a,
{
    if a < b {
        lemma_two_to_monotone(a, b - 1);
        lemma_two_to_pos(b - 1);
    }
}

/// Attach one token in front of a tokenization outcome.
pub open spec fn cons_token(t: Token, rest: Result<Seq<Token>, TokenizationError>) -> Result<
    Seq<Token>,
    TokenizationError,
> {
    match rest {
        Ok(ts) => Ok(seq![t] + ts),
        Err(e) => Err(e),
    }
}

/// The tokens of the byte-oriented pattern grammar from position `i` on:
/// two hex digits, '?' (an adjacent second '?' is collapsed), 'm' followed by
/// eight bit characters, and capture-group brackets. Hexadecimal digits and
/// the 'm' marker are case-insensitive.
pub open spec fn spec_tokenize_byte_pattern(s: Seq<u8>, i: int) -> Result<
    Seq<Token>,
    TokenizationError,
>
    decreases s.len() - i,
{
    if i < 0 || i >= s.len() {
        Ok(Seq::empty())
    } else {
        let b = s[i];
        if is_whitespace_byte(b) {
            spec_tokenize_byte_pattern(s, i + 1)
        } else if b == 91 {
            cons_token(Token::CaptureGroupOpen, spec_tokenize_byte_pattern(s, i + 1))
        } else if b == 93 {
            cons_token(Token::CaptureGroupClose, spec_tokenize_byte_pattern(s, i + 1))
        } else if b == 63 {
            if i + 1 < s.len() && s[i + 1] == 63 {
                cons_token(Token::ByteValue(0, 0), spec_tokenize_byte_pattern(s, i + 2))
            } else {
                cons_token(Token::ByteValue(0, 0), spec_tokenize_byte_pattern(s, i + 1))
            }
        } else if b == 109 || b == 77 {
            if exists|k: int| i + 1 <= k < i + 9 && k < s.len() && !is_bit_char_byte(#[trigger] s[k]) {
                Err(TokenizationError::UnknownInput)
            } else if s.len() < i + 9 {
                Err(TokenizationError::IncompleteByte)
            } else {
                cons_token(
                    Token::ByteValue(bits_value(s, i + 1, 8) as u8, bits_mask(s, i + 1, 8) as u8),
                    spec_tokenize_byte_pattern(s, i + 9),
                )
            }
        } else if is_hex_digit_byte(b) {
            if i + 1 >= s.len() || !is_hex_digit_byte(s[i + 1]) {
                Err(TokenizationError::IncompleteByte)
            } else {
                cons_token(
                    Token::ByteValue(hex_pair_value(b, s[i + 1]), 255),
                    spec_tokenize_byte_pattern(s, i + 2),
                )
            }
        } else {
            Err(TokenizationError::UnknownInput)
        }
    }
}

/// The tokens of the bit-oriented pattern grammar from position `i` on: any
/// character that is not whitespace or a bracket starts a group of eight bit
/// characters; the seven that follow the first must be bit characters.
pub open spec fn spec_tokenize_bit_pattern(s: Seq<u8>, i: int) -> Result<
    Seq<Token>,
    TokenizationError,
>
    decreases s.len() - i,
{
    if i < 0 || i >= s.len() {
        Ok(Seq::empty())
    } else {
        let b = s[i];
        if is_whitespace_byte(b) {
            spec_tokenize_bit_pattern(s, i + 1)
        } else if b == 91 {
            cons_token(Token::CaptureGroupOpen, spec_tokenize_bit_pattern(s, i + 1))
        } else if b == 93 {
            cons_token(Token::CaptureGroupClose, spec_tokenize_bit_pattern(s, i + 1))
        } else if exists|k: int| i + 1 <= k < i + 8 && k < s.len() && !is_bit_char_byte(
            #[trigger] s[k],
        ) {
            Err(TokenizationError::UnknownInput)
        } else if s.len() < i + 8 {
            Err(TokenizationError::IncompleteByte)
        } else {
            cons_token(
                Token::ByteValue(bits_value(s, i, 8) as u8, bits_mask(s, i, 8) as u8),
                spec_tokenize_bit_pattern(s, i + 8),
            )
        }
    }
}

/// View of an executable tokenization outcome.
pub open spec fn tokens_model(r: Result<Vec<Token>, TokenizationError>) -> Result<
    Seq<Token>,
    TokenizationError,
> {
    match r {
        Ok(v) => Ok(v@),
        Err(e) => Err(e),
    }
}

/// Attach an already-produced token prefix in front of a tokenization
/// outcome for the remaining input.
pub open spec fn prepend_tokens(
    p: Seq<Token>,
    rest: Result<Seq<Token>, TokenizationError>,
) -> Result<Seq<Token>, TokenizationError> {
    match rest {
        Ok(ts) => Ok(p + ts),
        Err(e) => Err(e),
    }
}

proof fn lemma_prepend_cons(p: Seq<Token>, t: Token, rest: Result<Seq<Token>, TokenizationError>)
    ensures
        prepend_tokens(p.push(t), rest) == prepend_tokens(p, cons_token(t, rest)),
{
    match rest {
        Ok(ts) => {
            assert(p.push(t) + ts =~= p + (seq![t] + ts));
        },
        Err(_) => {},
    }
}

fn is_radix_16_char(b: u8) -> (r: bool)
    ensures
        r == is_hex_digit_byte(b),
{
    (48 <= b && b <= 57) || (97 <= b && b <= 102) || (65 <= b && b <= 70)
}

fn is_bit_char(b: u8) -> (r: bool)
    ensures
        r == is_bit_char_byte(b),
{
    b == 48 || b == 49 || b == 63 || b == 46
}

/// Reads `count` bit characters starting at `s[from]`, validating all but the
/// first `unchecked` of them, and accumulates their value and mask bits.
fn read_bit_group(s: &[u8], from: usize, count: usize, unchecked: usize) -> (r: Result<
    (u8, u8),
    TokenizationError,
>)
    requires
        from <= s@.len(),
        count <= 8,
        unchecked <= count,
        from + unchecked <= s@.len(),
    ensures
        ({
            let bad = exists|k: int|
                from + unchecked <= k < from + count && k < s@.len() && !is_bit_char_byte(
                    #[trigger] s@[k],
                );
            match r {
                Ok((v, m)) => {
                    &&& !bad
                    &&& s@.len() >= from + count
                    &&& v == bits_value(s@, from as int, count as int)
                    &&& m == bits_mask(s@, from as int, count as int)
                },
                Err(TokenizationError::UnknownInput) => bad,
                Err(TokenizationError::IncompleteByte) => !bad && s@.len() < from + count,
            }
        }),
{
    let mut value: u8 = 0;
    let mut mask: u8 = 0;
    let mut k: usize = 0;
    while k < count
        invariant
            k <= count,
            count <= 8,
            unchecked <= count,
            from <= s@.len(),
            from + unchecked <= s@.len(),
            forall|j: int|
                from + unchecked <= j < from + k ==> j < s@.len() && is_bit_char_byte(
                    #[trigger] s@[j],
                ),
            from + k <= s@.len(),
            value == bits_value(s@, from as int, k as int),
            mask == bits_mask(s@, from as int, k as int),
        decreases count - k,
    {
        if k >= s.len() - from {
            return Err(TokenizationError::IncompleteByte);
        }
        let b = s[from + k];
        if k >= unchecked && !is_bit_char(b) {
            proof {
                assert(from + unchecked <= from + k < from + count && from + k < s@.len()
                    && !is_bit_char_byte(s@[from + k]));
            }
            return Err(TokenizationError::UnknownInput);
        }
        proof {
            lemma_bits_value_bound(s@, from as int, k as int);
            lemma_two_to_monotone(k as int, 7);
            reveal_with_fuel(two_to, 9);
            assert(two_to(7) == 128);
        }
        let vb: u8 = if b == 49 {
            1
        } else {
            0
        };
        let mb: u8 = if b == 63 || b == 46 {
            0
        } else {
            1
        };
        value = value * 2 + vb;
        mask = mask * 2 + mb;
        k = k + 1;
    }
    Ok((value, mask))
}

/// Splits a byte-oriented pattern string into tokens.
pub fn tokenize_byte_pattern(input: &str) -> (r: Result<Vec<Token>, TokenizationError>)
    ensures
        tokens_model(r) == spec_tokenize_byte_pattern(input.spec_bytes(), 0),
{
    let s = input.as_bytes();
    let ghost sv = input.spec_bytes();
    let n = s.len();
    let mut tokens: Vec<Token> = Vec::new();
    let mut i: usize = 0;
    while i < n
        invariant
            sv == s@,
            sv == input.spec_bytes(),
            n == s@.len(),
            i <= n,
            prepend_tokens(tokens@, spec_tokenize_byte_pattern(sv, i as int)) == spec_tokenize_byte_pattern(sv, 0),
        decreases n - i,
    {
        let b = s[i];
        if b == 32 || b == 10 || b == 13 {
            i = i + 1;
        } else if b == 91 {
            proof {
                lemma_prepend_cons(tokens@, Token::CaptureGroupOpen, spec_tokenize_byte_pattern(sv, i + 1));
            }
            tokens.push(Token::CaptureGroupOpen);
            i = i + 1;
        } else if b == 93 {
            proof {
                lemma_prepend_cons(tokens@, Token::CaptureGroupClose, spec_tokenize_byte_pattern(sv, i + 1));
            }
            tokens.push(Token::CaptureGroupClose);
            i = i + 1;
        } else if b == 63 {
            let next = if i + 1 < n && s[i + 1] == 63 {
                i + 2
            } else {
                i + 1
            };
            proof {
                lemma_prepend_cons(tokens@, Token::ByteValue(0, 0), spec_tokenize_byte_pattern(sv, next as int));
            }
            tokens.push(Token::ByteValue(0, 0));
            i = next;
        } else if b == 109 || b == 77 {
            match read_bit_group(s, i + 1, 8, 0) {
                Ok((v, m)) => {
                    proof {
                        lemma_prepend_cons(tokens@, Token::ByteValue(v, m), spec_tokenize_byte_pattern(sv, i + 9));
                    }
                    tokens.push(Token::ByteValue(v, m));
                    i = i + 9;
                },
                Err(e) => {
                    return Err(e);
                },
            }
        } else if is_radix_16_char(b) {
            if i + 1 >= n || !is_radix_16_char(s[i + 1]) {
                return Err(TokenizationError::IncompleteByte);
            }
            let hi = b;
            let lo = s[i + 1];
            let value: u8 = hex_digit_char_value(hi) * 16 + hex_digit_char_value(lo);
            proof {
                lemma_prepend_cons(tokens@, Token::ByteValue(value, 255), spec_tokenize_byte_pattern(sv, i + 2));
            }
            tokens.push(Token::ByteValue(value, 255));
            i = i + 2;
        } else {
            return Err(TokenizationError::UnknownInput);
        }
    }
    proof {
        assert(tokens@ + Seq::<Token>::empty() =~= tokens@);
    }
    Ok(tokens)
}

/// Splits a bit-oriented pattern string into tokens.
pub fn tokenize_bit_pattern(input: &str) -> (r: Result<Vec<Token>, TokenizationError>)
    ensures
        tokens_model(r) == spec_tokenize_bit_pattern(input.spec_bytes(), 0),
{
    let s = input.as_bytes();
    let ghost sv = input.spec_bytes();
    let n = s.len();
    let mut tokens: Vec<Token> = Vec::new();
    let mut i: usize = 0;
    while i < n
        invariant
            sv == s@,
            sv == input.spec_bytes(),
            n == s@.len(),
            i <= n,
            prepend_tokens(tokens@, spec_tokenize_bit_pattern(sv, i as int)) == spec_tokenize_bit_pattern(sv, 0),
        decreases n - i,
    {
        let b = s[i];
        if b == 32 || b == 10 || b == 13 {
            i = i + 1;
        } else if b == 91 {
            proof {
                lemma_prepend_cons(tokens@, Token::CaptureGroupOpen, spec_tokenize_bit_pattern(sv, i + 1));
            }
            tokens.push(Token::CaptureGroupOpen);
            i = i + 1;
        } else if b == 93 {
            proof {
                lemma_prepend_cons(tokens@, Token::CaptureGroupClose, spec_tokenize_bit_pattern(sv, i + 1));
            }
            tokens.push(Token::CaptureGroupClose);
            i = i + 1;
        } else {
            match read_bit_group(s, i, 8, 1) {
                Ok((v, m)) => {
                    proof {
                        lemma_prepend_cons(tokens@, Token::ByteValue(v, m), spec_tokenize_bit_pattern(sv, i + 8));
                    }
                    tokens.push(Token::ByteValue(v, m));
                    i = i + 8;
                },
                Err(e) => {
                    return Err(e);
                },
            }
        }
    }
    proof {
        assert(tokens@ + Seq::<Token>::empty() =~= tokens@);
    }
    Ok(tokens)
}

fn hex_digit_char_value(b: u8) -> (r: u8)
    requires
        is_hex_digit_byte(b),
    ensures
        r == hex_digit_value(b),
        r <= 15,
{
    if 48 <= b && b <= 57 {
        b - 48
    } else if 97 <= b && b <= 102 {
        b - 87
    } else {
        b - 55
    }
}

} // verus!
