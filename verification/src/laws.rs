//! What holds of the lexer on every source, proved from the grammar.

use crate::grammar::{
    accept_literal, closing_quote, in_class, is_digit_byte, is_escape_byte,
    is_identifier_head_byte,
    is_identifier_tail_byte, is_whitespace_byte, keyword_of, lemma_run_end_bounds,
    lemma_skip_end_bounds, lemma_skip_end_is_fixed, run_end, scan_string_body, scan_token,
    skip_end, starts_comment, byte_is, ByteClass, Scan, BACKSLASH, DOT, QUOTE, SPACE,
};
use crate::lexer::{LexerError, LexerView};
use crate::test_util::rendered;
use crate::types::Token;
use vstd::prelude::*;

verus! {

/// What every scan of a string literal has in common, from any offset in its
/// body on.
proof fn lemma_string_body_shape(src: Seq<u8>, open: int, j: int)
    requires
        0 <= open < j <= src.len(),
    ensures
        ({
            let scan = scan_string_body(src, open, j);
            &&& j <= scan.end <= src.len()
            &&& match scan.result {
                Ok(token) => token == Token::LitStr && j < scan.end && scan.literal == Some(
                    (open + 1, scan.end - 1),
                ),
                Err(error) => scan.literal is None && !(error is Eof) && !(error
                    is NoLiteralToExtract),
            }
        }),
    decreases src.len() - j,
{
    if j < src.len() && src[j] != QUOTE {
        if src[j] == BACKSLASH {
            if j + 1 < src.len() {
                lemma_string_body_shape(src, open, j + 2);
                lemma_closing_quote_bounds(src, j + 2);
            }
        } else {
            lemma_string_body_shape(src, open, j + 1);
        }
    }
}

/// The closing quote that recovery looks for lies at or after the offset it
/// starts from.
proof fn lemma_closing_quote_bounds(src: Seq<u8>, k: int)
    requires
        0 <= k <= src.len(),
    ensures
        k <= closing_quote(src, k) <= src.len(),
        closing_quote(src, k) < src.len() ==> src[closing_quote(src, k)] == QUOTE,
    decreases src.len() - k,
{
    if k < src.len() && src[k] != QUOTE {
        if src[k] == BACKSLASH {
            if k + 1 < src.len() {
                lemma_closing_quote_bounds(src, k + 2);
            }
        } else {
            lemma_closing_quote_bounds(src, k + 1);
        }
    }
}

/// Every scan consumes at least the token's first byte and stays within the
/// source. It yields a literal exactly with the five tokens that carry one:
/// the whole lexeme of a name or number, and what stands between the quotes
/// of a string or character. No scan reports the end of the stream or a
/// missing literal.
pub proof fn lemma_scan_shape(src: Seq<u8>, i: int)
    requires
        0 <= i < src.len(),
    ensures
        ({
            let scan = scan_token(src, i);
            &&& i < scan.end <= src.len()
            &&& match scan.result {
                Ok(token) => scan.literal == if token is LitStr || token is LitChar {
                    Some((i + 1, scan.end - 1))
                } else if token.carries_literal() {
                    Some((i, scan.end))
                } else {
                    None
                },
                Err(error) => scan.literal is None && !(error is Eof) && !(error
                    is NoLiteralToExtract),
            }
            &&& scan.literal matches Some((lo, hi)) ==> i <= lo <= hi <= scan.end
        }),
{
    let first = src[i];
    if first == QUOTE {
        lemma_string_body_shape(src, i, i + 1);
    } else if is_digit_byte(first) {
        lemma_run_end_bounds(src, i + 1, ByteClass::Digit);
        let dot = run_end(src, i + 1, ByteClass::Digit);
        if dot + 1 < src.len() {
            lemma_run_end_bounds(src, dot + 1, ByteClass::Digit);
        }
    } else if is_identifier_head_byte(first) {
        lemma_run_end_bounds(src, i + 1, ByteClass::IdentifierTail);
    }
}

/// Where skipping ends before the end of the source, a token starts: the
/// byte there is no whitespace and starts no comment.
pub proof fn lemma_skip_end_lands_on_a_token(src: Seq<u8>, i: int)
    requires
        0 <= i <= src.len(),
    ensures
        skip_end(src, i) < src.len() ==> !is_whitespace_byte(src[skip_end(src, i)])
            && !starts_comment(src, skip_end(src, i)),
    decreases src.len() - i,
{
    if i < src.len() {
        if is_whitespace_byte(src[i]) {
            lemma_skip_end_lands_on_a_token(src, i + 1);
        } else if starts_comment(src, i) {
            lemma_run_end_bounds(src, i + 2, ByteClass::CommentBody);
            lemma_skip_end_lands_on_a_token(src, run_end(src, i + 2, ByteClass::CommentBody));
        }
    }
}

/// The lexeme of a name is the longest run of name bytes from a letter or an
/// underscore on, and it spells no reserved word; the lexeme of a reserved
/// word is its spelling, and no name byte follows it.
pub proof fn lemma_name_lexeme(src: Seq<u8>, i: int)
    requires
        0 <= i < src.len(),
        is_identifier_head_byte(src[i]),
    ensures
        ({
            let scan = scan_token(src, i);
            let lexeme = src.subrange(i, scan.end);
            &&& scan.result matches Ok(token) && {
                &&& token is LitIdentifier || token.is_reserved_word()
                &&& token.is_reserved_word() ==> lexeme == token.spelling()
                &&& token is LitIdentifier ==> forall|word: Token|
                    word.is_reserved_word() ==> lexeme != #[trigger] word.spelling()
            }
            &&& i < scan.end <= src.len()
            &&& forall|k: int| i <= k < scan.end ==> is_identifier_tail_byte(#[trigger] src[k])
            &&& scan.end < src.len() ==> !is_identifier_tail_byte(src[scan.end])
        }),
{
    lemma_run_end_bounds(src, i + 1, ByteClass::IdentifierTail);
    let end = run_end(src, i + 1, ByteClass::IdentifierTail);
    let lexeme = src.subrange(i, end);
    let token = keyword_of(lexeme);
    assert(lexeme[0] == src[i]);
    if token is LitIdentifier {
        assert forall|word: Token| word.is_reserved_word() implies lexeme
            != #[trigger] word.spelling() by {
            lemma_reserved_words(lexeme, word);
        }
    } else {
        lemma_reserved_words(lexeme, token);
    }
}

/// The lexeme of an integer is the longest run of digits, and no dot follows
/// it. The lexeme of a float is the longest run of digits, a dot, and the
/// longest run of digits behind it, which holds at least one.
pub proof fn lemma_number_lexeme(src: Seq<u8>, i: int)
    requires
        0 <= i < src.len(),
        is_digit_byte(src[i]),
    ensures
        ({
            let scan = scan_token(src, i);
            let digits = run_end(src, i, ByteClass::Digit);
            &&& i < digits <= src.len()
            &&& forall|k: int| i <= k < digits ==> is_digit_byte(#[trigger] src[k])
            &&& scan.result matches Ok(token) ==> token is LitInteger || token is LitFloat
            &&& scan.result == Ok::<_, LexerError>(Token::LitInteger) <==> !byte_is(
                src,
                digits,
                DOT,
            )
            &&& scan.result == Ok::<_, LexerError>(Token::LitInteger) ==> scan.end == digits
            &&& scan.result == Ok::<_, LexerError>(Token::LitFloat) <==> byte_is(src, digits, DOT)
                && digits + 1 < src.len() && is_digit_byte(src[digits + 1])
            &&& scan.result == Ok::<_, LexerError>(Token::LitFloat) ==> {
                &&& digits + 1 < scan.end <= src.len()
                &&& scan.end == run_end(src, digits + 1, ByteClass::Digit)
                &&& forall|k: int| digits < k < scan.end ==> is_digit_byte(#[trigger] src[k])
                &&& scan.end < src.len() ==> !is_digit_byte(src[scan.end])
            }
        }),
{
    lemma_run_end_bounds(src, i + 1, ByteClass::Digit);
    let digits = run_end(src, i + 1, ByteClass::Digit);
    assert(run_end(src, i, ByteClass::Digit) == digits);
    if digits + 1 < src.len() {
        lemma_run_end_bounds(src, digits + 1, ByteClass::Digit);
    }
}

/// A request keeps the invariant of the lexer and never moves the cursor
/// back. Unless it reports the end of the stream, it consumes at least one
/// byte, and the bytes it consumed are the current token.
pub proof fn lemma_next_state_is_wf(v: LexerView)
    requires
        v.wf(),
    ensures
        v.next_state().wf(),
        v.index <= v.next_state().index,
        v.next_result() != Err::<Token, _>(LexerError::Eof) ==> v.index <= v.next_state().start
            < v.next_state().index,
{
    lemma_skip_end_bounds(v.source, v.index);
    let begin = skip_end(v.source, v.index);
    if begin < v.source.len() {
        lemma_scan_shape(v.source, begin);
    }
}

/// The end of the stream is reported exactly where nothing but whitespace
/// and comments is left, and then the cursor stands at the end of the source.
pub proof fn lemma_eof_means_nothing_left(v: LexerView)
    requires
        v.wf(),
    ensures
        v.next_result() == Err::<Token, _>(LexerError::Eof) <==> skip_end(v.source, v.index)
            == v.source.len(),
        v.next_result() == Err::<Token, _>(LexerError::Eof) ==> v.next_state().index
            == v.source.len(),
{
    lemma_skip_end_bounds(v.source, v.index);
    let begin = skip_end(v.source, v.index);
    if begin < v.source.len() {
        lemma_scan_shape(v.source, begin);
    }
}

/// The end of the stream is final: once a request has returned `Eof`, the
/// next request returns `Eof` again and leaves the lexer as it is, the cursor
/// where it was.
pub proof fn lemma_eof_is_idempotent(v: LexerView)
    requires
        v.wf(),
        v.next_result() == Err::<Token, _>(LexerError::Eof),
    ensures
        v.next_state().next_result() == Err::<Token, _>(LexerError::Eof),
        v.next_state().next_state() == v.next_state(),
        v.next_state().next_state().index == v.next_state().index,
{
    lemma_eof_means_nothing_left(v);
    lemma_skip_end_is_fixed(v.source, v.index);
}

/// The sequence of tokens is fused. Once it has returned no token, whether at
/// the end of the stream or at an error, it has ended: every later call
/// returns no token and leaves the lexer as it is. Until then it returns the
/// tokens of the requests, one by one.
pub proof fn lemma_sequence_stays_ended(v: LexerView)
    requires
        v.wf(),
    ensures
        v.sequence_state().wf(),
        v.sequence_item() is None <==> v.sequence_state().ended,
        v.sequence_state().ended ==> {
            &&& v.sequence_state().sequence_item() is None
            &&& v.sequence_state().sequence_state() == v.sequence_state()
        },
        !v.ended ==> v.sequence_item() == match v.next_result() {
            Ok(token) => Some(token),
            Err(_) => None::<Token>,
        },
{
    lemma_next_state_is_wf(v);
}

/// A literal is taken once. After a token that carries a literal, the first
/// extraction returns its bytes: the lexeme of a name or number, and what
/// stands between the quotes of a string or character. A second extraction
/// fails with `NoLiteralToExtract`, and so does the first after any other
/// token.
pub proof fn lemma_literal_is_taken_once(v: LexerView, token: Token)
    requires
        v.wf(),
        v.next_result() == Ok::<_, LexerError>(token),
    ensures
        ({
            let after = v.next_state();
            &&& token.carries_literal() ==> after.extraction() == Ok::<_, LexerError>(
                if token is LitStr || token is LitChar {
                    after.source.subrange(after.start + 1, after.index - 1)
                } else {
                    after.lexeme()
                },
            )
            &&& !token.carries_literal() ==> after.extraction() == Err::<Seq<u8>, _>(
                LexerError::NoLiteralToExtract,
            )
            &&& after.without_literal().extraction() == Err::<Seq<u8>, _>(
                LexerError::NoLiteralToExtract,
            )
        }),
{
    lemma_skip_end_bounds(v.source, v.index);
    lemma_scan_shape(v.source, skip_end(v.source, v.index));
}

/// Whether the bytes of `word` stand in the source from offset `i` on.
pub open spec fn spelled_at(src: Seq<u8>, i: int, word: Seq<u8>) -> bool {
    0 <= i && i + word.len() <= src.len() && src.subrange(i, i + word.len()) == word
}

/// Maximal munch. Where the spelling of an operator, separator or bracket
/// stands at the start of a token, the lexer returns such a token whose
/// spelling stands there too and is at least as long, and consumes exactly
/// that spelling. So of `<`, `<<` and `<<=` it takes the longest that the
/// source holds, never a shorter one with bytes of the longer left over.
pub proof fn lemma_maximal_munch(src: Seq<u8>, i: int, candidate: Token)
    requires
        0 <= i < src.len(),
        candidate.is_punctuation() || candidate.is_bracket(),
        spelled_at(src, i, candidate.spelling()),
    ensures
        ({
            let scan = scan_token(src, i);
            &&& scan.literal is None
            &&& scan.result matches Ok(found) && {
                &&& found.is_punctuation() || found.is_bracket()
                &&& spelled_at(src, i, found.spelling())
                &&& found.spelling().len() >= candidate.spelling().len()
                &&& scan.end == i + found.spelling().len()
            }
        }),
{
    let word = candidate.spelling();
    let there = src.subrange(i, i + word.len());
    assert(there[0] == src[i]);
    if word.len() >= 2 {
        assert(there[1] == src[i + 1]);
    }
    if word.len() >= 3 {
        assert(there[2] == src[i + 2]);
    }
    let scan = scan_token(src, i);
    let found = scan.result->Ok_0;
    assert(src.subrange(i, i + found.spelling().len()) =~= found.spelling());
}

/// Maximal munch, of a request. Where the spelling of an operator, separator
/// or bracket stands where the next token starts, the request returns the
/// longest such token whose spelling stands there, and the bytes it consumed
/// are that spelling.
pub proof fn lemma_request_takes_the_longest(v: LexerView, candidate: Token)
    requires
        v.wf(),
        candidate.is_punctuation() || candidate.is_bracket(),
        spelled_at(v.source, skip_end(v.source, v.index), candidate.spelling()),
    ensures
        v.next_result() matches Ok(found) && {
            &&& found.is_punctuation() || found.is_bracket()
            &&& found.spelling().len() >= candidate.spelling().len()
            &&& v.next_state().start == skip_end(v.source, v.index)
            &&& v.next_state().lexeme() == found.spelling()
        },
{
    lemma_skip_end_bounds(v.source, v.index);
    lemma_maximal_munch(v.source, skip_end(v.source, v.index), candidate);
}

/// A string without quote and backslash in its body is closed by the first
/// quote after it, and its literal is the body.
pub proof fn lemma_plain_string_body(src: Seq<u8>, open: int, j: int, close: int)
    requires
        0 <= open < j <= close < src.len(),
        src[close] == QUOTE,
        forall|k: int| j <= k < close ==> src[k] != QUOTE && src[k] != BACKSLASH,
    ensures
        scan_string_body(src, open, j) == accept_literal(
            Token::LitStr,
            open + 1,
            close,
            close + 1,
        ),
    decreases close - j,
{
    if j < close {
        lemma_plain_string_body(src, open, j + 1, close);
    }
}

/// Whether the bytes from offset `j` up to `close` are the body of a string, or
/// the rest of one: bytes other than quote and backslash, and backslashes
/// each followed by an escape byte.
pub open spec fn is_string_body(src: Seq<u8>, j: int, close: int) -> bool
    decreases close - j,
{
    if j >= close {
        j == close
    } else if src[j] == QUOTE {
        false
    } else if src[j] == BACKSLASH {
        j + 1 < close && is_escape_byte(src[j + 1]) && is_string_body(src, j + 2, close)
    } else {
        is_string_body(src, j + 1, close)
    }
}

/// The strings that the lexer accepts. A string that opens at `open` is
/// accepted with its closing quote at `close` exactly if a quote stands at
/// `close` and what stands between the two quotes is the body of a string.
/// The literal is then that body, escapes unresolved.
pub proof fn lemma_string_literals(src: Seq<u8>, open: int, j: int, close: int)
    requires
        0 <= open < j <= src.len(),
    ensures
        (j <= close < src.len() && src[close] == QUOTE && is_string_body(src, j, close))
            <==> scan_string_body(src, open, j) == accept_literal(
            Token::LitStr,
            open + 1,
            close,
            close + 1,
        ),
    decreases src.len() - j,
{
    if j < src.len() && src[j] != QUOTE {
        if src[j] == BACKSLASH {
            if j + 1 < src.len() {
                if is_escape_byte(src[j + 1]) {
                    lemma_string_literals(src, open, j + 2, close);
                } else {
                    lemma_closing_quote_bounds(src, j + 2);
                }
            }
        } else {
            lemma_string_literals(src, open, j + 1, close);
        }
    }
}

/// The bytes of `body` between two double quotes.
pub open spec fn quoted(body: Seq<u8>) -> Seq<u8> {
    seq![QUOTE] + body + seq![QUOTE]
}

/// Round trip of a string literal. Where `body` holds no double quote and no
/// backslash, lexing `body` between two double quotes yields one `LitStr`
/// whose literal is `body`, byte for byte, and leaves the cursor at the end.
pub proof fn lemma_string_round_trip(body: Seq<u8>)
    requires
        forall|k: int| 0 <= k < body.len() ==> body[k] != QUOTE && body[k] != BACKSLASH,
    ensures
        ({
            let v = LexerView::initial(quoted(body));
            &&& v.next_result() == Ok::<_, LexerError>(Token::LitStr)
            &&& v.next_state().extraction() == Ok::<_, LexerError>(body)
            &&& v.next_state().start == 0
            &&& v.next_state().index == quoted(body).len() == body.len() + 2
            &&& v.next_state().literal == Some((1int, body.len() as int + 1))
        }),
{
    let src = quoted(body);
    let close = body.len() as int + 1;
    assert(src[0] == QUOTE);
    assert(src[close] == QUOTE);
    assert forall|k: int| 1 <= k < close implies src[k] != QUOTE && src[k] != BACKSLASH by {
        assert(src[k] == body[k - 1]);
    }
    lemma_plain_string_body(src, 0, 1, close);
    assert(src.subrange(1, close) =~= body);
}

/// The bytes that start no token and are no whitespace.
pub open spec fn is_invalid_byte(b: u8) -> bool {
    ||| b < 0x20 && !is_whitespace_byte(b)
    ||| b >= 0x7f
    ||| b == '#' as u8
    ||| b == '$' as u8
    ||| b == '?' as u8
    ||| b == '@' as u8
    ||| b == '\\' as u8
    ||| b == '`' as u8
    ||| b == '~' as u8
}

/// An invalid byte at the start of a token is consumed alone and reported as
/// `InvalidCharacter`; every other byte that is no whitespace starts a token
/// or a comment and is never reported so by itself.
pub proof fn lemma_invalid_byte(src: Seq<u8>, i: int)
    requires
        0 <= i < src.len(),
        is_invalid_byte(src[i]),
    ensures
        skip_end(src, i) == i,
        scan_token(src, i) == (Scan {
            result: Err(LexerError::InvalidCharacter),
            end: i + 1,
            literal: None,
        }),
{
}

/// An invalid byte lexed alone: the control bytes but tab, carriage return
/// and newline, DEL and every byte above it, and the seven stray ASCII signs.
/// The request fails with `InvalidCharacter` and consumes the byte.
pub proof fn lemma_invalid_byte_standalone(b: u8)
    requires
        is_invalid_byte(b),
    ensures
        ({
            let v = LexerView::initial(seq![b]);
            &&& v.next_result() == Err::<Token, _>(LexerError::InvalidCharacter)
            &&& v.next_state().index == 1
            &&& v.next_state().literal is None
        }),
{
    lemma_invalid_byte(seq![b], 0);
}

/// Whether a first byte is invalid decides: a token's first byte that is not
/// invalid never yields `InvalidCharacter` by itself, but for what a character
/// literal holds.
pub proof fn lemma_valid_first_byte(src: Seq<u8>, i: int)
    requires
        0 <= i < src.len(),
        !is_invalid_byte(src[i]),
        !is_whitespace_byte(src[i]),
        scan_token(src, i).result == Err::<Token, _>(LexerError::InvalidCharacter),
    ensures
        src[i] == '\'' as u8,
{
    if src[i] == QUOTE {
        lemma_string_never_invalid_character(src, i, i + 1);
    }
}

/// A string literal never fails with `InvalidCharacter`.
proof fn lemma_string_never_invalid_character(src: Seq<u8>, open: int, j: int)
    requires
        0 <= open < j <= src.len(),
    ensures
        scan_string_body(src, open, j).result != Err::<Token, _>(LexerError::InvalidCharacter),
    decreases src.len() - j,
{
    if j < src.len() && src[j] != QUOTE {
        if src[j] == BACKSLASH {
            if j + 1 < src.len() {
                lemma_string_never_invalid_character(src, open, j + 2);
            }
        } else {
            lemma_string_never_invalid_character(src, open, j + 1);
        }
    }
}

/// Every reserved word is found by its spelling, and by no other name.
pub proof fn lemma_reserved_words(name: Seq<u8>, word: Token)
    requires
        word.is_reserved_word(),
    ensures
        keyword_of(name) == word <==> name == word.spelling(),
        keyword_of(name) is LitIdentifier || keyword_of(name).is_reserved_word(),
{
    let spelling = word.spelling();
    assert(spelling.len() >= 2);
    if name == spelling {
        assert(name[0] == spelling[0]);
        assert(name[1] == spelling[1]);
        if spelling.len() > 2 {
            assert(name[2] == spelling[2]);
        }
    }
}

/// The bytes of a word that stands in the source are those of the source.
proof fn lemma_spelled_bytes(src: Seq<u8>, i: int, word: Seq<u8>)
    requires
        spelled_at(src, i, word),
    ensures
        forall|k: int| 0 <= k < word.len() ==> src[i + k] == #[trigger] word[k],
{
    assert forall|k: int| 0 <= k < word.len() implies src[i + k] == #[trigger] word[k] by {
        assert(src.subrange(i, i + word.len())[k] == src[i + k]);
    }
}

/// A run of bytes of one class that is bounded by another byte, or by the end
/// of the source, ends there.
proof fn lemma_run_ends_at(src: Seq<u8>, i: int, end: int, class: ByteClass)
    requires
        0 <= i <= end <= src.len(),
        forall|k: int| i <= k < end ==> in_class(class, #[trigger] src[k]),
        end < src.len() ==> !in_class(class, src[end]),
    ensures
        run_end(src, i, class) == end,
    decreases end - i,
{
    if i < end {
        lemma_run_ends_at(src, i + 1, end, class);
    }
}

/// A reserved word and the sample name are made of name bytes.
proof fn lemma_words_are_names(token: Token)
    requires
        token.is_reserved_word() || token is LitIdentifier,
    ensures
        forall|k: int|
            0 <= k < token.spelling().len() ==> is_identifier_tail_byte(
                #[trigger] token.spelling()[k],
            ),
        token.spelling().len() >= 2,
        is_identifier_head_byte(token.spelling()[0]),
        keyword_of(token.spelling()) == token,
{
    let word = token.spelling();
    assert forall|k: int| 0 <= k < word.len() implies is_identifier_tail_byte(
        #[trigger] word[k],
    ) by {
        if k < 4 {
        } else if k < 8 {
        } else {
        }
    }
    if token.is_reserved_word() {
        lemma_reserved_words(word, token);
    } else {
        assert(word[0] == 'i' as u8);
    }
}

/// The text of a token lexes back to the token. Where the spelling of a
/// token and a space stand at offset `i`, a token starts at `i`, the scan
/// yields that token and consumes exactly its spelling.
pub proof fn lemma_spelling_lexes_back(src: Seq<u8>, i: int, token: Token)
    requires
        spelled_at(src, i, token.spelling().push(SPACE)),
    ensures
        skip_end(src, i) == i,
        scan_token(src, i).result == Ok::<_, LexerError>(token),
        scan_token(src, i).end == i + token.spelling().len(),
{
    let word = token.spelling();
    let text = word.push(SPACE);
    let end = i + word.len();
    lemma_spelled_bytes(src, i, text);
    assert(src[end] == SPACE) by {
        assert(text[word.len() as int] == SPACE);
    }
    assert forall|k: int| 0 <= k < word.len() implies src[i + k] == #[trigger] word[k] by {
        assert(text[k] == word[k]);
    }
    assert(src[i] == word[0]);
    if token.is_reserved_word() || token is LitIdentifier {
        lemma_words_are_names(token);
        assert forall|k: int| i + 1 <= k < end implies in_class(
            ByteClass::IdentifierTail,
            #[trigger] src[k],
        ) by {
            assert(src[i + (k - i)] == word[k - i]);
        }
        lemma_run_ends_at(src, i + 1, end, ByteClass::IdentifierTail);
        assert(src.subrange(i, end) =~= word);
    } else if token.carries_literal() {
        assert(word.len() <= 3);
        if word.len() >= 2 {
            assert(src[i + 1] == word[1]);
        }
        if word.len() >= 3 {
            assert(src[i + 2] == word[2]);
        }
        if token is LitInteger {
            lemma_run_ends_at(src, i + 1, i + 1, ByteClass::Digit);
        } else if token is LitFloat {
            lemma_run_ends_at(src, i + 1, i + 1, ByteClass::Digit);
            lemma_run_ends_at(src, i + 2, i + 3, ByteClass::Digit);
        }
    } else {
        assert(word.len() <= 3);
        if word.len() >= 2 {
            assert(src[i + 1] == word[1]);
        }
        if word.len() >= 3 {
            assert(src[i + 2] == word[2]);
        }
    }
}

/// The text of a sequence of tokens, token by token from the first.
pub proof fn lemma_rendered_from_the_front(tokens: Seq<Token>)
    requires
        tokens.len() > 0,
    ensures
        rendered(tokens) == tokens[0].spelling().push(SPACE) + rendered(tokens.drop_first()),
    decreases tokens.len(),
{
    let first = tokens[0].spelling().push(SPACE);
    if tokens.len() == 1 {
        assert(tokens.drop_last() =~= Seq::empty());
        assert(tokens.drop_first() =~= Seq::empty());
        assert(rendered(tokens) =~= first + rendered(tokens.drop_first()));
    } else {
        let inner = tokens.drop_last();
        lemma_rendered_from_the_front(inner);
        assert(inner.drop_first() =~= tokens.drop_first().drop_last());
        assert(inner[0] == tokens[0]);
        assert(tokens.drop_first().last() == tokens.last());
        assert(rendered(tokens) =~= first + rendered(tokens.drop_first()));
    }
}

/// Rendering and lexing are inverse. Where the text of a sequence of tokens
/// is what is left of the source once whitespace and comments are skipped,
/// reading to the end returns exactly those tokens, in order, and ends with
/// `Eof`.
pub proof fn lemma_rendered_source_lexes_back(v: LexerView, tokens: Seq<Token>)
    requires
        v.wf(),
        v.source.subrange(skip_end(v.source, v.index), v.source.len() as int) == rendered(
            tokens,
        ),
    ensures
        v.run().read == tokens,
        v.run().stopped_by == LexerError::Eof,
    decreases tokens.len(),
{
    let src = v.source;
    let begin = skip_end(src, v.index);
    lemma_skip_end_bounds(src, v.index);
    let rest_of_source = src.subrange(begin, src.len() as int);
    if tokens.len() == 0 {
        assert(rest_of_source.len() == 0);
        assert(v.run().read =~= tokens);
    } else {
        let token = tokens[0];
        let text = token.spelling().push(SPACE);
        let rest = tokens.drop_first();
        lemma_rendered_from_the_front(tokens);
        assert(rest_of_source.len() == text.len() + rendered(rest).len());
        assert(src.subrange(begin, begin + text.len()) =~= text) by {
            assert forall|k: int| 0 <= k < text.len() implies src[begin + k] == text[k] by {
                assert(rest_of_source[k] == src[begin + k]);
            }
        }
        lemma_spelling_lexes_back(src, begin, token);
        lemma_next_state_is_wf(v);
        let after = v.next_state().without_literal();
        let end = begin + token.spelling().len();
        assert(after.index == end);
        assert(src[end] == SPACE) by {
            assert(rest_of_source[token.spelling().len() as int] == src[end]);
            assert(text[token.spelling().len() as int] == SPACE);
        }
        let next = end + 1;
        assert(src.subrange(next, src.len() as int) =~= rendered(rest)) by {
            assert forall|k: int| 0 <= k < rendered(rest).len() implies src[next + k]
                == rendered(rest)[k] by {
                assert(rest_of_source[text.len() + k] == src[begin + text.len() + k]);
            }
        }
        assert(skip_end(src, end) == skip_end(src, next));
        if rest.len() == 0 {
            assert(next == src.len());
        } else {
            lemma_rendered_from_the_front(rest);
            let head = rest[0].spelling().push(SPACE);
            assert(src.subrange(next, next + head.len()) =~= head) by {
                assert forall|k: int| 0 <= k < head.len() implies src[next + k] == head[k] by {
                    assert(src.subrange(next, src.len() as int)[k] == src[next + k]);
                }
            }
            lemma_spelling_lexes_back(src, next, rest[0]);
        }
        lemma_rendered_source_lexes_back(after, rest);
        assert(v.run().read =~= tokens);
    }
}

/// A rendered token sequence, lexed from its start, gives the sequence back.
pub proof fn lemma_render_then_lex(tokens: Seq<Token>)
    ensures
        LexerView::initial(rendered(tokens)).run().read == tokens,
        LexerView::initial(rendered(tokens)).run().stopped_by == LexerError::Eof,
{
    let src = rendered(tokens);
    let v = LexerView::initial(src);
    if tokens.len() == 0 {
        assert(src.subrange(skip_end(src, 0), src.len() as int) =~= src);
    } else {
        lemma_rendered_from_the_front(tokens);
        let head = tokens[0].spelling().push(SPACE);
        assert(src.subrange(0, head.len() as int) =~= head);
        lemma_spelling_lexes_back(src, 0, tokens[0]);
        assert(src.subrange(0, src.len() as int) =~= src);
    }
    lemma_rendered_source_lexes_back(v, tokens);
}

} // verus!
