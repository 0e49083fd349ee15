//! Parser for the AOB pattern grammar: consumes tokens, validates
//! capture-group structure and builds an AOB `Pattern`.

use vstd::prelude::*;
use vstd::string::StringSliceAdditionalSpecFns;

use crate::aob::pattern::Pattern;
use crate::aob::tokenizer;
use crate::aob::tokenizer::{Token, TokenizationError};
use crate::pattern::CaptureGroup;

verus! {

#[derive(Debug)]
pub enum ParserError {
    /// The input could not even be tokenized.
    Tokenizer(TokenizationError),
    /// A capture group was opened while another one was still open.
    CaptureGroupAlreadyOpened,
    /// A capture group was closed while none was open.
    CaptureGroupNotOpened,
    /// A capture group was still open when the input ended.
    CaptureGroupNotClosed,
    /// Every byte is wildcarded, so the pattern would match anywhere and is
    /// rejected.
    NoMatchableBits,
}

/// The parser's accumulated state after some prefix of the token stream.
pub struct SpecParseState {
    pub bytes: Seq<u8>,
    pub mask: Seq<bool>,
    pub groups: Seq<(int, int)>,
    pub open_group: Option<int>,
}

pub open spec fn initial_state() -> SpecParseState {
    SpecParseState { bytes: Seq::empty(), mask: Seq::empty(), groups: Seq::empty(), open_group: None }
}

/// How one token transforms the parser state.
pub open spec fn parse_step(st: SpecParseState, t: Token) -> Result<SpecParseState, ParserError> {
    match t {
        Token::ByteValue(b) => Ok(
            SpecParseState { bytes: st.bytes.push(b), mask: st.mask.push(true), ..st },
        ),
        Token::ByteWildcard => Ok(
            SpecParseState { bytes: st.bytes.push(0), mask: st.mask.push(false), ..st },
        ),
        Token::CaptureGroupOpen => match st.open_group {
            None => Ok(SpecParseState { open_group: Some(st.bytes.len() as int), ..st }),
            Some(_) => Err(ParserError::CaptureGroupAlreadyOpened),
        },
        Token::CaptureGroupClose => match st.open_group {
            Some(start) => Ok(
                SpecParseState {
                    groups: st.groups.push((start, st.bytes.len() as int)),
                    open_group: None,
                    ..st
                },
            ),
            None => Err(ParserError::CaptureGroupNotOpened),
        },
    }
}

/// Parser state after the first `n` tokens, or the first error raised.
pub open spec fn parse_tokens_prefix(tokens: Seq<Token>, n: int) -> Result<
    SpecParseState,
    ParserError,
>
    decreases n,
{
    if n <= 0 {
        Ok(initial_state())
    } else {
        match parse_tokens_prefix(tokens, n - 1) {
            Ok(st) => parse_step(st, tokens[n - 1]),
            Err(e) => Err(e),
        }
    }
}

pub open spec fn all_mask_clear(mask: Seq<bool>) -> bool {
    forall|i: int| 0 <= i < mask.len() ==> mask[i] == false
}

/// Outcome of parsing a whole token stream: the folded state, then the final
/// checks that no group is left open and that at least one byte is matched.
pub open spec fn spec_parse_tokens(tokens: Seq<Token>) -> Result<SpecParseState, ParserError> {
    match parse_tokens_prefix(tokens, tokens.len() as int) {
        Ok(st) => {
            if st.open_group is Some {
                Err(ParserError::CaptureGroupNotClosed)
            } else if all_mask_clear(st.mask) {
                Err(ParserError::NoMatchableBits)
            } else {
                Ok(st)
            }
        },
        Err(e) => Err(e),
    }
}

/// Combined model of tokenizing and parsing an AOB pattern string.
pub open spec fn spec_parse(s: Seq<u8>) -> Result<SpecParseState, ParserError> {
    match tokenizer::spec_tokenize(s, 0) {
        Ok(ts) => spec_parse_tokens(ts),
        Err(e) => Err(ParserError::Tokenizer(e)),
    }
}

/// A built pattern realizes a parser state, with no offset set.
pub open spec fn pattern_models(p: Pattern, st: SpecParseState) -> bool {
    &&& p.bytes@ == st.bytes
    &&& p.mask@ == st.mask
    &&& p.length == st.bytes.len()
    &&& p.capture_groups@.len() == st.groups.len()
    &&& forall|i: int|
        0 <= i < st.groups.len() ==> (#[trigger] p.capture_groups@[i]).start == st.groups[i].0
            && p.capture_groups@[i].end == st.groups[i].1
    &&& p.offset is None
}

/// Structural facts that hold of every state the fold can produce.
pub open spec fn state_wf(st: SpecParseState) -> bool {
    &&& st.mask.len() == st.bytes.len()
    &&& forall|i: int|
        0 <= i < st.groups.len() ==> 0 <= (#[trigger] st.groups[i]).0 && st.groups[i].0
            <= st.groups[i].1 && st.groups[i].1 <= st.bytes.len()
    &&& match st.open_group {
        Some(o) => 0 <= o <= st.bytes.len(),
        None => true,
    }
}

/// Once the fold hits an error, every longer prefix reports the same error.
pub proof fn lemma_parse_prefix_error_persists(tokens: Seq<Token>, i: int, j: int)
    requires
        i <= j,
        parse_tokens_prefix(tokens, i) is Err,
    ensures
        parse_tokens_prefix(tokens, j) == parse_tokens_prefix(tokens, i),
    decreases j - i,
{
    if i < j {
        lemma_parse_prefix_error_persists(tokens, i, j - 1);
    }
}

pub proof fn lemma_parse_prefix_wf(tokens: Seq<Token>, n: int)
    ensures
        match parse_tokens_prefix(tokens, n) {
            Ok(st) => state_wf(st),
            Err(_) => true,
        },
    decreases n,
{
    if n > 0 {
        lemma_parse_prefix_wf(tokens, n - 1);
    }
}

/// Tokenizes and parses an AOB pattern string.
pub fn parse_pattern(input: &str) -> (r: Result<Pattern, ParserError>)
    ensures
        match r {
            Ok(p) => {
                &&& spec_parse(input.spec_bytes()) matches Ok(st) && pattern_models(p, st)
                &&& p.wf()
                &&& p.length >= 1
                &&& p.offset is None
            },
            Err(e) => spec_parse(input.spec_bytes()) == Err::<SpecParseState, ParserError>(e),
        },
{
    let tokens = match tokenizer::tokenize_pattern(input) {
        Ok(tokens) => tokens,
        Err(e) => {
            return Err(ParserError::Tokenizer(e));
        },
    };

    let mut bytes: Vec<u8> = Vec::new();
    let mut mask: Vec<bool> = Vec::new();
    let mut capture_groups: Vec<CaptureGroup> = Vec::new();
    let mut current_capture_group_start: Option<usize> = None;

    let n = tokens.len();
    let mut idx: usize = 0;
    while idx < n
        invariant
            tokenizer::spec_tokenize(input.spec_bytes(), 0) == Ok::<Seq<Token>, TokenizationError>(
                tokens@,
            ),
            n == tokens@.len(),
            idx <= n,
            parse_tokens_prefix(tokens@, idx as int) matches Ok(st) && ({
                &&& bytes@ == st.bytes
                &&& mask@ == st.mask
                &&& capture_groups@.len() == st.groups.len()
                &&& forall|i: int|
                    0 <= i < st.groups.len() ==> (#[trigger] capture_groups@[i]).start
                        == st.groups[i].0 && capture_groups@[i].end == st.groups[i].1
                &&& match (current_capture_group_start, st.open_group) {
                    (Some(a), Some(b)) => a == b,
                    (None, None) => true,
                    _ => false,
                }
            }),
        decreases n - idx,
    {
        proof {
            lemma_parse_prefix_wf(tokens@, idx as int);
        }
        let token = &tokens[idx];
        match token {
            Token::ByteValue(b) => {
                bytes.push(*b);
                mask.push(true);
            },
            Token::ByteWildcard => {
                bytes.push(0);
                mask.push(false);
            },
            Token::CaptureGroupOpen => {
                match current_capture_group_start {
                    None => {
                        current_capture_group_start = Some(bytes.len());
                    },
                    Some(_) => {
                        proof {
                            assert(parse_tokens_prefix(tokens@, idx + 1) == Err::<
                                SpecParseState,
                                ParserError,
                            >(ParserError::CaptureGroupAlreadyOpened));
                            lemma_parse_prefix_error_persists(tokens@, idx + 1, n as int);
                        }
                        return Err(ParserError::CaptureGroupAlreadyOpened);
                    },
                }
            },
            Token::CaptureGroupClose => {
                match current_capture_group_start {
                    Some(start) => {
                        capture_groups.push(CaptureGroup { start, end: bytes.len() });
                        current_capture_group_start = None;
                    },
                    None => {
                        proof {
                            assert(parse_tokens_prefix(tokens@, idx + 1) == Err::<
                                SpecParseState,
                                ParserError,
                            >(ParserError::CaptureGroupNotOpened));
                            lemma_parse_prefix_error_persists(tokens@, idx + 1, n as int);
                        }
                        return Err(ParserError::CaptureGroupNotOpened);
                    },
                }
            },
        }
        idx = idx + 1;
    }

    if current_capture_group_start.is_some() {
        return Err(ParserError::CaptureGroupNotClosed);
    }

    // Reject a pattern in which every byte is wildcarded: it would match
    // every offset of every buffer.
    let mut any_matched = false;
    let mut j: usize = 0;
    while j < mask.len()
        invariant
            j <= mask@.len(),
            any_matched == exists|t: int| 0 <= t < j && #[trigger] mask@[t] == true,
        decreases mask@.len() - j,
    {
        if mask[j] {
            any_matched = true;
        }
        j = j + 1;
    }
    proof {
        if any_matched {
            assert(!all_mask_clear(mask@));
        } else {
            assert(all_mask_clear(mask@));
        }
    }
    if !any_matched {
        return Err(ParserError::NoMatchableBits);
    }

    proof {
        lemma_parse_prefix_wf(tokens@, n as int);
    }
    let length = bytes.len();
    Ok(Pattern { bytes, mask, length, capture_groups, offset: None })
}

} // verus!
