use crate::grammar::{
    is_identifier_head_byte, is_identifier_tail_byte, keyword_of, DIGIT_0, DIGIT_9, LOWER_A,
    LOWER_Z, UNDERSCORE, UPPER_A, UPPER_Z,
};
use crate::lexer::{Lexer, LexerView};
use crate::types::Token;
use vstd::prelude::*;
use vstd::slice::slice_subrange;

verus! {

pub const LOWER_C: u8 = 'c' as u8;

pub const LOWER_E: u8 = 'e' as u8;

pub const LOWER_F: u8 = 'f' as u8;

pub const LOWER_I: u8 = 'i' as u8;

pub const LOWER_L: u8 = 'l' as u8;

pub const LOWER_M: u8 = 'm' as u8;

pub const LOWER_N: u8 = 'n' as u8;

pub const LOWER_O: u8 = 'o' as u8;

pub const LOWER_R: u8 = 'r' as u8;

pub const LOWER_S: u8 = 's' as u8;

pub const LOWER_T: u8 = 't' as u8;

pub const LOWER_U: u8 = 'u' as u8;

pub const LOWER_X: u8 = 'x' as u8;

pub const LOWER_Y: u8 = 'y' as u8;

/// The byte at `index`, if there is one.
#[inline(always)]
pub fn const_index(s: &[u8], index: usize) -> (byte: Option<u8>)
    ensures
        byte == if index < s@.len() {
            Some(s@[index as int])
        } else {
            None
        },
{
    if index >= s.len() {
        None
    } else {
        Some(s[index])
    }
}

/// The bytes from `start` up to `end`, if those bounds lie in `s` in that order.
#[inline(always)]
pub fn const_subslice(s: &[u8], start: usize, end: usize) -> (part: Option<&[u8]>)
    ensures
        match part {
            Some(bytes) => start <= end <= s@.len() && bytes@ == s@.subrange(
                start as int,
                end as int,
            ),
            None => !(start <= end <= s@.len()),
        },
{
    if start > end || end > s.len() {
        None
    } else {
        Some(slice_subrange(s, start, end))
    }
}

/// Classifies the current lexeme `s`: the reserved word that it spells, or
/// `LitIdentifier` where it spells none, found by [`keyword_token`]. Where the
/// result is `LitIdentifier`, the lexeme becomes the pending literal.
pub fn check_identifier_actual_token(lexer: &mut Lexer<'_>, s: &[u8]) -> (token: Token)
    requires
        old(lexer).wf(),
        s@.len() >= 1,
        s@ == old(lexer)@.lexeme(),
    ensures
        token == keyword_of(s@),
        final(lexer).wf(),
        final(lexer)@ == if token is LitIdentifier {
            LexerView { literal: Some((old(lexer)@.start, old(lexer)@.index)), ..old(lexer)@ }
        } else {
            old(lexer)@
        },
{
    let r = keyword_token(s);
    if r.is_identifier_extractable() {
        lexer.literal = Some((lexer.start, lexer.index));
    }
    r
}

/// The reserved word that `s` spells, or `LitIdentifier` where it spells none.
/// The bytes are looked up in a trie: the first bytes pick the only reserved
/// words that can still match, and the rest is compared as a whole. The
/// lookup takes any bytes, whether a lexer has scanned them or not.
pub fn keyword_token(s: &[u8]) -> (token: Token)
    requires
        s@.len() >= 1,
    ensures
        token == keyword_of(s@),
{
    match s[0] {
        // let
        LOWER_L => leaf(s, 1, Token::KwLet),
        // fn, false
        LOWER_F => match const_index(s, 1) {
            Some(LOWER_N) => leaf(s, 2, Token::KwFn),
            Some(LOWER_A) => leaf(s, 2, Token::KwFalse),
            _ => Token::LitIdentifier,
        },
        // return, runtime
        LOWER_R => match const_index(s, 1) {
            Some(LOWER_E) => leaf(s, 2, Token::KwReturn),
            Some(LOWER_U) => leaf(s, 2, Token::KwRuntime),
            _ => Token::LitIdentifier,
        },
        // extern, enum
        LOWER_E => match const_index(s, 1) {
            Some(LOWER_X) => leaf(s, 2, Token::KwExtern),
            Some(LOWER_N) => leaf(s, 2, Token::KwAdtEnum),
            _ => Token::LitIdentifier,
        },
        // const, compiletime, cast
        LOWER_C => match const_index(s, 1) {
            Some(LOWER_O) => match const_index(s, 2) {
                Some(LOWER_N) => leaf(s, 3, Token::KwConst),
                Some(LOWER_M) => leaf(s, 3, Token::KwCompiletime),
                _ => Token::LitIdentifier,
            },
            Some(LOWER_A) => leaf(s, 2, Token::KwCast),
            _ => Token::LitIdentifier,
        },
        // mut
        LOWER_M => leaf(s, 1, Token::KwMut),
        // anymut
        LOWER_A => leaf(s, 1, Token::KwAnymut),
        // static, struct
        LOWER_S => match const_index(s, 1) {
            Some(LOWER_T) => match const_index(s, 2) {
                Some(LOWER_A) => leaf(s, 3, Token::KwStatic),
                Some(LOWER_R) => leaf(s, 3, Token::KwAdtStruct),
                _ => Token::LitIdentifier,
            },
            _ => Token::LitIdentifier,
        },
        // type, true
        LOWER_T => match const_index(s, 1) {
            Some(LOWER_Y) => leaf(s, 2, Token::KwType),
            Some(LOWER_R) => leaf(s, 2, Token::KwTrue),
            _ => Token::LitIdentifier,
        },
        // union, uninit
        LOWER_U => match const_index(s, 1) {
            Some(LOWER_N) => match const_index(s, 2) {
                Some(LOWER_I) => match const_index(s, 3) {
                    Some(LOWER_N) => leaf(s, 4, Token::LitUninit),
                    Some(LOWER_O) => leaf(s, 4, Token::KwAdtUnion),
                    _ => Token::LitIdentifier,
                },
                _ => Token::LitIdentifier,
            },
            _ => Token::LitIdentifier,
        },
        _ => Token::LitIdentifier,
    }
}

/// A leaf of the trie: the first `matched` bytes of `s` are those of the
/// reserved word `word`, and the rest decides.
fn leaf(s: &[u8], matched: usize, word: Token) -> (token: Token)
    requires
        word.is_reserved_word(),
        matched <= s@.len(),
        matched <= word.spelling().len(),
        forall|k: int| 0 <= k < matched ==> s@[k] == word.spelling()[k],
    ensures
        token == if s@ == word.spelling() {
            word
        } else {
            Token::LitIdentifier
        },
{
    proof {
        lemma_split(s@, word.spelling(), matched as int);
    }
    identifier_check_rest(s, matched, keyword_tail(word, matched), word)
}

/// Two sequences that agree before `k` are equal exactly if they are equal
/// from `k` on.
proof fn lemma_split(a: Seq<u8>, b: Seq<u8>, k: int)
    requires
        0 <= k <= a.len(),
        k <= b.len(),
        forall|i: int| 0 <= i < k ==> a[i] == b[i],
    ensures
        a == b <==> a.subrange(k, a.len() as int) == b.subrange(k, b.len() as int),
{
    let a_rest = a.subrange(k, a.len() as int);
    let b_rest = b.subrange(k, b.len() as int);
    if a_rest == b_rest {
        assert(a.len() - k == b.len() - k) by {
            assert(a_rest.len() == a.len() - k);
            assert(b_rest.len() == b.len() - k);
        }
        assert forall|i: int| 0 <= i < a.len() implies a[i] == b[i] by {
            if i >= k {
                assert(a_rest[i - k] == b_rest[i - k]);
            }
        }
        assert(a =~= b);
    }
}

/// The spelling of `token` from its offset `start` on.
fn keyword_tail(token: Token, start: usize) -> (tail: &'static [u8])
    requires
        start <= token.spelling().len(),
    ensures
        tail@ == token.spelling().subrange(start as int, token.spelling().len() as int),
{
    let bytes = token.source_repr().as_bytes();
    slice_subrange(bytes, start, bytes.len())
}

/// Whether the two slices hold the same bytes.
#[inline]
pub fn const_slice_eq(s1: &[u8], s2: &[u8]) -> (equal: bool)
    ensures
        equal == (s1@ == s2@),
{
    if s1.len() != s2.len() {
        return false;
    }
    let mut index: usize = 0;
    while index < s1.len()
        invariant
            s1@.len() == s2@.len(),
            index <= s1@.len(),
            forall|k: int| 0 <= k < index ==> s1@[k] == s2@[k],
        decreases s1@.len() - index,
    {
        if s1[index] != s2[index] {
            return false;
        }
        index += 1;
    }
    assert(s1@ =~= s2@);
    true
}

/// `token` where the bytes of `s` from `start` on are exactly `rest`, and
/// `LitIdentifier` otherwise.
#[inline]
pub fn identifier_check_rest(s: &[u8], start: usize, rest: &'static [u8], token: Token) -> (found:
    Token)
    ensures
        found == if start <= s@.len() && s@.subrange(start as int, s@.len() as int) == rest@ {
            token
        } else {
            Token::LitIdentifier
        },
{
    let Some(ss) = const_subslice(s, start, s.len()) else {
        return Token::LitIdentifier;
    };
    if const_slice_eq(ss, rest) {
        token
    } else {
        Token::LitIdentifier
    }
}

#[inline]
pub fn is_valid_identifier_tail(byte: u8) -> (valid: bool)
    ensures
        valid == is_identifier_tail_byte(byte),
{
    (LOWER_A <= byte && byte <= LOWER_Z) || (UPPER_A <= byte && byte <= UPPER_Z) || byte
        == UNDERSCORE || (DIGIT_0 <= byte && byte <= DIGIT_9)
}

#[inline]
pub fn is_valid_identifier_head(byte: u8) -> (valid: bool)
    ensures
        valid == is_identifier_head_byte(byte),
{
    (LOWER_A <= byte && byte <= LOWER_Z) || (UPPER_A <= byte && byte <= UPPER_Z) || byte
        == UNDERSCORE
}

} // verus!
