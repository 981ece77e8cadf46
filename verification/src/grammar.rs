//! The lexical grammar, as mathematics.
//!
//! Everything here is a specification over a source text seen as a sequence of
//! bytes and over offsets into it. The executable lexer is proved to compute
//! exactly these functions.

use crate::lexer::{LexerError, UnsupportedFeature};
use crate::types::Token;
use vstd::prelude::*;

verus! {

pub const TAB: u8 = '\t' as u8;

pub const NEWLINE: u8 = '\n' as u8;

pub const CARRIAGE_RETURN: u8 = '\r' as u8;

pub const SPACE: u8 = ' ' as u8;

pub const BANG: u8 = '!' as u8;

pub const QUOTE: u8 = '"' as u8;

pub const PERCENT: u8 = '%' as u8;

pub const AMPERSAND: u8 = '&' as u8;

pub const APOSTROPHE: u8 = '\'' as u8;

pub const LPAREN: u8 = '(' as u8;

pub const RPAREN: u8 = ')' as u8;

pub const STAR: u8 = '*' as u8;

pub const PLUS: u8 = '+' as u8;

pub const COMMA: u8 = ',' as u8;

pub const MINUS: u8 = '-' as u8;

pub const DOT: u8 = '.' as u8;

pub const SLASH: u8 = '/' as u8;

pub const DIGIT_0: u8 = '0' as u8;

pub const DIGIT_9: u8 = '9' as u8;

pub const COLON: u8 = ':' as u8;

pub const SEMICOLON: u8 = ';' as u8;

pub const LESS: u8 = '<' as u8;

pub const EQUALS: u8 = '=' as u8;

pub const GREATER: u8 = '>' as u8;

pub const UPPER_A: u8 = 'A' as u8;

pub const UPPER_Z: u8 = 'Z' as u8;

pub const LBRACKET: u8 = '[' as u8;

pub const BACKSLASH: u8 = '\\' as u8;

pub const RBRACKET: u8 = ']' as u8;

pub const CARET: u8 = '^' as u8;

pub const UNDERSCORE: u8 = '_' as u8;

pub const LOWER_A: u8 = 'a' as u8;

pub const LOWER_Z: u8 = 'z' as u8;

pub const LBRACE: u8 = '{' as u8;

pub const PIPE: u8 = '|' as u8;

pub const RBRACE: u8 = '}' as u8;

/// Space, tab, carriage return and newline.
pub open spec fn is_whitespace_byte(b: u8) -> bool {
    b == SPACE || b == TAB || b == CARRIAGE_RETURN || b == NEWLINE
}

/// The decimal digits.
pub open spec fn is_digit_byte(b: u8) -> bool {
    DIGIT_0 <= b <= DIGIT_9
}

/// A byte that can start a name: an ASCII letter or the underscore.
pub open spec fn is_identifier_head_byte(b: u8) -> bool {
    LOWER_A <= b <= LOWER_Z || UPPER_A <= b <= UPPER_Z || b == UNDERSCORE
}

/// A byte that can continue a name: an ASCII letter, a digit or the underscore.
pub open spec fn is_identifier_tail_byte(b: u8) -> bool {
    is_identifier_head_byte(b) || is_digit_byte(b)
}

/// The bytes that may follow a backslash inside a string or character literal.
pub open spec fn is_escape_byte(b: u8) -> bool {
    b == QUOTE || b == APOSTROPHE || b == 't' as u8 || b == 'n' as u8 || b == 'r' as u8 || b
        == DIGIT_0 || b == BACKSLASH
}

/// The byte that introduces a byte escape, `\x`.
pub open spec fn is_byte_escape_marker(b: u8) -> bool {
    b == 'x' as u8
}

/// The kinds of byte of which the grammar consumes whole runs.
pub enum ByteClass {
    /// Decimal digits.
    Digit,
    /// Bytes that continue a name.
    IdentifierTail,
    /// Everything but the newline: the body of a line comment.
    CommentBody,
}

pub open spec fn in_class(class: ByteClass, b: u8) -> bool {
    match class {
        ByteClass::Digit => is_digit_byte(b),
        ByteClass::IdentifierTail => is_identifier_tail_byte(b),
        ByteClass::CommentBody => b != NEWLINE,
    }
}

/// The end of the longest run of bytes of `class` that starts at `i`: the first
/// offset from `i` on whose byte is not of the class, or the length of the
/// source where there is none.
pub open spec fn run_end(src: Seq<u8>, i: int, class: ByteClass) -> int
    decreases src.len() - i,
{
    if 0 <= i < src.len() && in_class(class, src[i]) {
        run_end(src, i + 1, class)
    } else {
        i
    }
}

/// Whether the byte at offset `i` exists and equals `b`.
pub open spec fn byte_is(src: Seq<u8>, i: int, b: u8) -> bool {
    0 <= i < src.len() && src[i] == b
}

/// How many bytes of `expected`, from its offset `k` on, stand in the source
/// from offset `i` on before the first difference or the end of either.
pub open spec fn match_len(src: Seq<u8>, i: int, expected: Seq<u8>, k: int) -> int
    decreases expected.len() - k,
{
    if 0 <= i < src.len() && 0 <= k < expected.len() && src[i] == expected[k] {
        1 + match_len(src, i + 1, expected, k + 1)
    } else {
        0
    }
}

/// Whether a line comment, `//`, starts at offset `i`.
pub open spec fn starts_comment(src: Seq<u8>, i: int) -> bool {
    byte_is(src, i, SLASH) && byte_is(src, i + 1, SLASH)
}

/// Where the next token starts: the first offset from `i` on that is neither
/// whitespace nor inside a line comment, or the length of the source. A line
/// comment runs up to, not including, the next newline.
pub open spec fn skip_end(src: Seq<u8>, i: int) -> int
    decreases src.len() - i,
{
    if i < 0 || i >= src.len() {
        i
    } else if is_whitespace_byte(src[i]) {
        skip_end(src, i + 1)
    } else if starts_comment(src, i) {
        proof {
            lemma_run_end_bounds(src, i + 2, ByteClass::CommentBody);
        }
        skip_end(src, run_end(src, i + 2, ByteClass::CommentBody))
    } else {
        i
    }
}

/// The line of offset `i`, counted from 1: one more than the number of newlines
/// before `i`.
pub open spec fn line_at(src: Seq<u8>, i: int) -> int
    decreases i,
{
    if i <= 0 {
        1
    } else if byte_is(src, i - 1, NEWLINE) {
        line_at(src, i - 1) + 1
    } else {
        line_at(src, i - 1)
    }
}

/// The column of offset `i`: 0 before the first byte, 1 right after a newline,
/// and one more for every other byte.
pub open spec fn column_at(src: Seq<u8>, i: int) -> int
    decreases i,
{
    if i <= 0 {
        0
    } else if byte_is(src, i - 1, NEWLINE) {
        1
    } else {
        column_at(src, i - 1) + 1
    }
}

/// What scanning one token yields: the token or the error, the offset of the
/// first byte that was not consumed, and the bounds of the literal, if the
/// token carries one.
pub struct Scan {
    pub result: Result<Token, LexerError>,
    pub end: int,
    pub literal: Option<(int, int)>,
}

/// A token without a literal that ends before `end`.
pub open spec fn accept(token: Token, end: int) -> Scan {
    Scan { result: Ok(token), end, literal: None }
}

/// A token whose literal is the bytes from `lo` up to `hi`.
pub open spec fn accept_literal(token: Token, lo: int, hi: int, end: int) -> Scan {
    Scan { result: Ok(token), end, literal: Some((lo, hi)) }
}

/// A failure that leaves the cursor at `end`.
pub open spec fn reject(error: LexerError, end: int) -> Scan {
    Scan { result: Err(error), end, literal: None }
}

/// An operator at offset `i` that may be extended by `=`.
pub open spec fn scan_assignable(src: Seq<u8>, i: int, plain: Token, assign: Token) -> Scan {
    if byte_is(src, i + 1, EQUALS) {
        accept(assign, i + 2)
    } else {
        accept(plain, i + 1)
    }
}

/// `<` or `>` at offset `i`: alone, followed by `=`, doubled to a shift, or
/// doubled and followed by `=`.
pub open spec fn scan_angle(
    src: Seq<u8>,
    i: int,
    plain: Token,
    or_equal: Token,
    shift: Token,
    shift_assign: Token,
) -> Scan {
    if byte_is(src, i + 1, EQUALS) {
        accept(or_equal, i + 2)
    } else if byte_is(src, i + 1, src[i]) {
        scan_assignable(src, i + 1, shift, shift_assign)
    } else {
        accept(plain, i + 1)
    }
}

/// The reserved word that `name` spells, or `LitIdentifier` if it spells none.
pub open spec fn keyword_of(name: Seq<u8>) -> Token {
    if name == Token::KwLet.spelling() {
        Token::KwLet
    } else if name == Token::KwFn.spelling() {
        Token::KwFn
    } else if name == Token::KwReturn.spelling() {
        Token::KwReturn
    } else if name == Token::KwExtern.spelling() {
        Token::KwExtern
    } else if name == Token::KwConst.spelling() {
        Token::KwConst
    } else if name == Token::KwMut.spelling() {
        Token::KwMut
    } else if name == Token::KwAnymut.spelling() {
        Token::KwAnymut
    } else if name == Token::KwCompiletime.spelling() {
        Token::KwCompiletime
    } else if name == Token::KwRuntime.spelling() {
        Token::KwRuntime
    } else if name == Token::KwStatic.spelling() {
        Token::KwStatic
    } else if name == Token::KwType.spelling() {
        Token::KwType
    } else if name == Token::KwCast.spelling() {
        Token::KwCast
    } else if name == Token::KwAdtStruct.spelling() {
        Token::KwAdtStruct
    } else if name == Token::KwAdtEnum.spelling() {
        Token::KwAdtEnum
    } else if name == Token::KwAdtUnion.spelling() {
        Token::KwAdtUnion
    } else if name == Token::KwTrue.spelling() {
        Token::KwTrue
    } else if name == Token::KwFalse.spelling() {
        Token::KwFalse
    } else if name == Token::LitUninit.spelling() {
        Token::LitUninit
    } else {
        Token::LitIdentifier
    }
}

/// A name or reserved word whose first byte is at offset `i`: the longest run
/// of name bytes, reclassified where it spells a reserved word. Only a name
/// carries a literal, the whole lexeme.
pub open spec fn scan_identifier(src: Seq<u8>, i: int) -> Scan {
    let end = run_end(src, i + 1, ByteClass::IdentifierTail);
    let token = keyword_of(src.subrange(i, end));
    if token is LitIdentifier {
        accept_literal(token, i, end, end)
    } else {
        accept(token, end)
    }
}

/// What follows the dot of a number that started at offset `i`, the dot being
/// at `dot`.
pub open spec fn scan_fraction(src: Seq<u8>, i: int, dot: int) -> Scan {
    let after = dot + 1;
    if after >= src.len() {
        reject(LexerError::UnexpectedEofWhile(Token::LitFloat), after)
    } else if is_digit_byte(src[after]) {
        let end = run_end(src, after, ByteClass::Digit);
        accept_literal(Token::LitFloat, i, end, end)
    } else if is_whitespace_byte(src[after]) {
        reject(LexerError::NotYetSupported(UnsupportedFeature::WhitespaceAfterIntegerDot), after)
    } else if is_identifier_head_byte(src[after]) {
        reject(LexerError::NotYetSupported(UnsupportedFeature::MethodCallOnInteger), after)
    } else {
        reject(LexerError::UnexpectedEofWhile(Token::LitFloat), after)
    }
}

/// A number whose first digit is at offset `i`: the longest run of digits, an
/// integer unless a dot follows it. The literal is the whole lexeme.
pub open spec fn scan_number(src: Seq<u8>, i: int) -> Scan {
    let end = run_end(src, i + 1, ByteClass::Digit);
    if byte_is(src, end, DOT) {
        scan_fraction(src, i, end)
    } else {
        accept_literal(Token::LitInteger, i, end, end)
    }
}

/// The offset of the next double quote from `k` on that no backslash escapes,
/// or the length of the source where there is none. A backslash takes the byte
/// after it with it, whatever it is.
pub open spec fn closing_quote(src: Seq<u8>, k: int) -> int
    decreases src.len() - k,
{
    if k < 0 || k >= src.len() {
        src.len() as int
    } else if src[k] == QUOTE {
        k
    } else if src[k] == BACKSLASH {
        if k + 1 >= src.len() {
            src.len() as int
        } else {
            closing_quote(src, k + 2)
        }
    } else {
        closing_quote(src, k + 1)
    }
}

/// After an invalid escape in a string, the bytes from `k` on: the lexer reads
/// on past the closing quote and reports the escape, or the end of input where
/// the string is never closed.
pub open spec fn scan_string_recovery(src: Seq<u8>, k: int) -> Scan {
    let close = closing_quote(src, k);
    if close >= src.len() {
        reject(LexerError::UnexpectedEofWhile(Token::LitStr), src.len() as int)
    } else {
        reject(LexerError::InvalidEscapeSequence, close + 1)
    }
}

/// The rest of a string whose opening quote is at offset `open`, read from
/// offset `j` on. The literal is what stands between the quotes, escapes
/// unresolved.
pub open spec fn scan_string_body(src: Seq<u8>, open: int, j: int) -> Scan
    decreases src.len() - j,
{
    if j < 0 || j >= src.len() {
        reject(LexerError::UnexpectedEofWhile(Token::LitStr), src.len() as int)
    } else if src[j] == QUOTE {
        accept_literal(Token::LitStr, open + 1, j, j + 1)
    } else if src[j] == BACKSLASH {
        if j + 1 >= src.len() {
            reject(LexerError::UnexpectedEofWhile(Token::LitStr), src.len() as int)
        } else if is_escape_byte(src[j + 1]) {
            scan_string_body(src, open, j + 2)
        } else if is_byte_escape_marker(src[j + 1]) {
            reject(LexerError::NotYetSupported(UnsupportedFeature::ByteEscape), j + 2)
        } else {
            scan_string_recovery(src, j + 2)
        }
    } else {
        scan_string_body(src, open, j + 1)
    }
}

/// A string literal whose opening quote is at offset `i`.
pub open spec fn scan_string(src: Seq<u8>, i: int) -> Scan {
    scan_string_body(src, i, i + 1)
}

/// The closing quote of a character literal that opened at offset `open` and
/// whose body ends before `body_end`.
pub open spec fn scan_char_close(src: Seq<u8>, open: int, body_end: int) -> Scan {
    if body_end >= src.len() {
        reject(LexerError::UnexpectedEofWhile(Token::LitChar), src.len() as int)
    } else if src[body_end] == APOSTROPHE {
        accept_literal(Token::LitChar, open + 1, body_end, body_end + 1)
    } else {
        reject(LexerError::InvalidCharacter, body_end + 1)
    }
}

/// A character literal whose opening quote is at offset `i`: one byte or one
/// two-byte escape, then the closing quote. After an invalid escape the lexer
/// reads one byte more and tells a closed literal from an unclosed one.
pub open spec fn scan_char(src: Seq<u8>, i: int) -> Scan {
    let body = i + 1;
    if body >= src.len() {
        reject(LexerError::UnexpectedEofWhile(Token::LitChar), src.len() as int)
    } else if src[body] != BACKSLASH {
        scan_char_close(src, i, body + 1)
    } else if body + 1 >= src.len() {
        reject(LexerError::UnexpectedEofWhile(Token::LitChar), src.len() as int)
    } else if is_escape_byte(src[body + 1]) {
        scan_char_close(src, i, body + 2)
    } else if is_byte_escape_marker(src[body + 1]) {
        reject(LexerError::NotYetSupported(UnsupportedFeature::ByteEscape), body)
    } else if body + 2 >= src.len() {
        reject(LexerError::UnexpectedEofWhile(Token::LitChar), src.len() as int)
    } else if src[body + 2] == APOSTROPHE {
        reject(LexerError::InvalidEscapeSequence, body + 3)
    } else {
        reject(LexerError::UnclosedCharLiteral, body + 3)
    }
}

/// The token whose first byte is at offset `i`, which must exist.
pub open spec fn scan_token(src: Seq<u8>, i: int) -> Scan
    recommends
        0 <= i < src.len(),
{
    let first = src[i];
    if first == DOT {
        accept(Token::PuncDot, i + 1)
    } else if first == COMMA {
        accept(Token::PuncComma, i + 1)
    } else if first == SEMICOLON {
        accept(Token::PuncSemi, i + 1)
    } else if first == COLON {
        accept(Token::PuncColon, i + 1)
    } else if first == PLUS {
        scan_assignable(src, i, Token::PuncPlus, Token::PuncPlusEq)
    } else if first == STAR {
        scan_assignable(src, i, Token::PuncStar, Token::PuncStarEq)
    } else if first == SLASH {
        scan_assignable(src, i, Token::PuncSlash, Token::PuncSlashEq)
    } else if first == MINUS {
        if byte_is(src, i + 1, GREATER) {
            accept(Token::PuncArrowRight, i + 2)
        } else {
            scan_assignable(src, i, Token::PuncMinus, Token::PuncMinusEq)
        }
    } else if first == EQUALS {
        scan_assignable(src, i, Token::PuncEq, Token::PuncEqEq)
    } else if first == BANG {
        scan_assignable(src, i, Token::PuncBang, Token::PuncBangEq)
    } else if first == LESS {
        scan_angle(src, i, Token::PuncLt, Token::PuncLtEq, Token::PuncShl, Token::PuncShlEq)
    } else if first == GREATER {
        scan_angle(src, i, Token::PuncGt, Token::PuncGtEq, Token::PuncShr, Token::PuncShrEq)
    } else if first == LPAREN {
        accept(Token::IndentLParen, i + 1)
    } else if first == RPAREN {
        accept(Token::IndentRParen, i + 1)
    } else if first == LBRACE {
        accept(Token::IndentLBrace, i + 1)
    } else if first == RBRACE {
        accept(Token::IndentRBrace, i + 1)
    } else if first == LBRACKET {
        accept(Token::IndentLBracket, i + 1)
    } else if first == RBRACKET {
        accept(Token::IndentRBracket, i + 1)
    } else if first == QUOTE {
        scan_string(src, i)
    } else if first == APOSTROPHE {
        scan_char(src, i)
    } else if first == PERCENT {
        scan_assignable(src, i, Token::PuncModulo, Token::PuncModuloEq)
    } else if first == AMPERSAND {
        scan_assignable(src, i, Token::PuncAnd, Token::PuncAndEq)
    } else if first == PIPE {
        scan_assignable(src, i, Token::PuncOr, Token::PuncOrEq)
    } else if first == CARET {
        scan_assignable(src, i, Token::PuncXor, Token::PuncXorEq)
    } else if is_digit_byte(first) {
        scan_number(src, i)
    } else if is_identifier_head_byte(first) {
        scan_identifier(src, i)
    } else {
        reject(LexerError::InvalidCharacter, i + 1)
    }
}

/// The bytes that match never outnumber what is left of `expected`, and they
/// are all of it exactly where the rest of `expected` stands in the source
/// from offset `i` on.
pub proof fn lemma_match_len(src: Seq<u8>, i: int, expected: Seq<u8>, k: int)
    requires
        0 <= i <= src.len(),
        0 <= k <= expected.len(),
    ensures
        0 <= match_len(src, i, expected, k) <= expected.len() - k,
        i + match_len(src, i, expected, k) <= src.len(),
        match_len(src, i, expected, k) == expected.len() - k <==> i + (expected.len() - k)
            <= src.len() && src.subrange(i, i + (expected.len() - k)) == expected.subrange(
            k,
            expected.len() as int,
        ),
    decreases expected.len() - k,
{
    let rest = expected.len() - k;
    if i < src.len() && k < expected.len() && src[i] == expected[k] {
        lemma_match_len(src, i + 1, expected, k + 1);
        if i + rest <= src.len() {
            let here = src.subrange(i, i + rest);
            let want = expected.subrange(k, expected.len() as int);
            let here_tail = src.subrange(i + 1, i + rest);
            let want_tail = expected.subrange(k + 1, expected.len() as int);
            if here == want {
                assert forall|j: int| 0 <= j < rest - 1 implies here_tail[j] == want_tail[j] by {
                    assert(here[j + 1] == want[j + 1]);
                }
                assert(here_tail =~= want_tail);
            }
            if here_tail == want_tail {
                assert forall|j: int| 0 <= j < rest implies here[j] == want[j] by {
                    if j > 0 {
                        assert(here_tail[j - 1] == want_tail[j - 1]);
                    }
                }
                assert(here =~= want);
            }
        }
    } else if rest == 0 {
        assert(src.subrange(i, i) =~= expected.subrange(k, expected.len() as int));
    } else if i + rest <= src.len() {
        let here = src.subrange(i, i + rest);
        let want = expected.subrange(k, expected.len() as int);
        assert(here[0] == src[i] && want[0] == expected[k]);
    }
}

/// A run ends at or after its start and within the source, every byte in it is
/// of the class, and the byte after it, if there is one, is not.
pub proof fn lemma_run_end_bounds(src: Seq<u8>, i: int, class: ByteClass)
    requires
        0 <= i <= src.len(),
    ensures
        i <= run_end(src, i, class) <= src.len(),
        forall|k: int| i <= k < run_end(src, i, class) ==> in_class(class, #[trigger] src[k]),
        run_end(src, i, class) < src.len() ==> !in_class(class, src[run_end(src, i, class)]),
    decreases src.len() - i,
{
    if i < src.len() && in_class(class, src[i]) {
        lemma_run_end_bounds(src, i + 1, class);
    }
}

/// Skipping ends at or after its start and within the source.
pub proof fn lemma_skip_end_bounds(src: Seq<u8>, i: int)
    requires
        0 <= i <= src.len(),
    ensures
        i <= skip_end(src, i) <= src.len(),
    decreases src.len() - i,
{
    if i < src.len() {
        if is_whitespace_byte(src[i]) {
            lemma_skip_end_bounds(src, i + 1);
        } else if starts_comment(src, i) {
            lemma_run_end_bounds(src, i + 2, ByteClass::CommentBody);
            lemma_skip_end_bounds(src, run_end(src, i + 2, ByteClass::CommentBody));
        }
    }
}

/// From where skipping ends there is nothing left to skip.
pub proof fn lemma_skip_end_is_fixed(src: Seq<u8>, i: int)
    requires
        0 <= i <= src.len(),
    ensures
        skip_end(src, skip_end(src, i)) == skip_end(src, i),
    decreases src.len() - i,
{
    if i < src.len() {
        if is_whitespace_byte(src[i]) {
            lemma_skip_end_is_fixed(src, i + 1);
        } else if starts_comment(src, i) {
            lemma_run_end_bounds(src, i + 2, ByteClass::CommentBody);
            lemma_skip_end_is_fixed(src, run_end(src, i + 2, ByteClass::CommentBody));
        }
    }
}

/// The column never exceeds the offset, and the line never exceeds it by more
/// than one.
pub proof fn lemma_position_bounds(src: Seq<u8>, i: int)
    requires
        0 <= i,
    ensures
        1 <= line_at(src, i) <= i + 1,
        0 <= column_at(src, i) <= i,
        i > 0 ==> column_at(src, i) >= 1,
    decreases i,
{
    if i > 0 {
        lemma_position_bounds(src, i - 1);
    }
}

} // verus!
