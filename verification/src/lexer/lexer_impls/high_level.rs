use crate::grammar::{
    byte_is, closing_quote, is_escape_byte, run_end, scan_char, scan_fraction, scan_identifier,
    scan_number, scan_string, scan_string_body, scan_string_recovery, skip_end, ByteClass,
    APOSTROPHE, BACKSLASH, DIGIT_0, DOT, QUOTE,
};
use crate::lexer::lexer_impls::identifiers::{
    check_identifier_actual_token, is_valid_identifier_head, is_valid_identifier_tail, LOWER_N,
    LOWER_R, LOWER_T, LOWER_X,
};
use crate::lexer::lexer_impls::numbers::is_valid_digit;
use crate::lexer::lexer_impls::skip_whitespace::{is_whitespace, skip_whitespace_impl};
use crate::lexer::{Lexer, LexerError, LexerResult, UnsupportedFeature};
use crate::types::Token;
use vstd::prelude::*;

verus! {

/// Whether `byte` may follow a backslash in a string or character literal.
fn is_escape(byte: u8) -> (valid: bool)
    ensures
        valid == is_escape_byte(byte),
{
    byte == QUOTE || byte == APOSTROPHE || byte == LOWER_T || byte == LOWER_N || byte == LOWER_R
        || byte == BACKSLASH || byte == DIGIT_0
}

/// The sub-lexers, one for each kind of token that is more than punctuation.
/// Each is entered with the token's first byte consumed and nothing more.
impl<'source> Lexer<'source> {
    /// Consumes whitespace and line comments up to the next token or the end
    /// of the source.
    #[inline]
    pub fn skip_whitespace(&mut self)
        requires
            old(self).wf(),
        ensures
            final(self).wf(),
            final(self)@ == old(self)@.at(skip_end(old(self)@.source, old(self)@.index)),
    {
        skip_whitespace_impl(self);
    }

    /// Scans the rest of a name or reserved word. A name leaves its lexeme as
    /// the pending literal.
    pub fn lex_identifier(&mut self) -> (token: Token)
        requires
            old(self).wf(),
            old(self)@.index == old(self)@.start + 1,
        ensures
            final(self).wf(),
            Ok::<Token, LexerError>(token) == scan_identifier(
                old(self)@.source,
                old(self)@.start,
            ).result,
            final(self)@ == old(self)@.after(
                scan_identifier(old(self)@.source, old(self)@.start),
            ),
    {
        while !self.is_at_end()
            invariant
                self.wf(),
                self@ == old(self)@.at(self@.index),
                old(self)@.index <= self@.index,
                run_end(self@.source, self@.index, ByteClass::IdentifierTail) == run_end(
                    self@.source,
                    old(self)@.index,
                    ByteClass::IdentifierTail,
                ),
            ensures
                self.wf(),
                self@ == old(self)@.at(self@.index),
                self@.index == run_end(
                    self@.source,
                    old(self)@.index,
                    ByteClass::IdentifierTail,
                ),
            decreases self@.source.len() - self@.index,
        {
            let byte = self.peek_unchecked();
            if is_valid_identifier_tail(byte) {
                self.advance_unchecked();
            } else {
                break;
            }
        }
        let slice = self.slice_here();
        check_identifier_actual_token(self, slice)
    }

    /// Scans the rest of a string literal. On success the bytes between the
    /// quotes are the pending literal and the closing quote is consumed.
    #[inline]
    pub fn lex_quoted_string(&mut self) -> (result: LexerResult<Token>)
        requires
            old(self).wf(),
            old(self)@.index == old(self)@.start + 1,
        ensures
            final(self).wf(),
            result == scan_string(old(self)@.source, old(self)@.start).result,
            final(self)@ == old(self)@.after(scan_string(old(self)@.source, old(self)@.start)),
    {
        if self.is_at_end() {
            return Err(LexerError::UnexpectedEofWhile(Token::LitStr));
        }
        while !self.is_at_end()
            invariant
                self.wf(),
                self@ == old(self)@.at(self@.index),
                old(self)@.index <= self@.index,
                scan_string_body(self@.source, self@.start, self@.index) == scan_string(
                    self@.source,
                    self@.start,
                ),
            ensures
                self.wf(),
                self@ == old(self)@.at(self@.index),
                old(self)@.index <= self@.index,
                scan_string_body(self@.source, self@.start, self@.index) == scan_string(
                    self@.source,
                    self@.start,
                ),
                self@.index < self@.source.len() ==> self@.source[self@.index] == QUOTE,
            decreases self@.source.len() - self@.index,
        {
            let byte = self.advance_unchecked();
            if byte == QUOTE {
                self.backtrack_unchecked();
                break;
            } else if byte == BACKSLASH {
                let Some(escaped) = self.advance() else {
                    return Err(LexerError::UnexpectedEofWhile(Token::LitStr));
                };
                if is_escape(escaped) {
                    // a valid escape: both bytes belong to the literal
                } else if escaped == LOWER_X {
                    return Err(LexerError::NotYetSupported(UnsupportedFeature::ByteEscape));
                } else {
                    // an invalid escape: read on to the closing quote, so that the
                    // next token starts behind the string
                    let ghost resume = self@.index;
                    while !self.is_at_end()
                        invariant
                            self.wf(),
                            self@ == old(self)@.at(self@.index),
                            old(self)@.index < self@.index,
                            closing_quote(self@.source, self@.index) == closing_quote(
                                self@.source,
                                resume,
                            ),
                            scan_string(self@.source, self@.start) == scan_string_recovery(
                                self@.source,
                                resume,
                            ),
                        ensures
                            self.wf(),
                            self@ == old(self)@.at(self@.index),
                            old(self)@.index < self@.index,
                            self@.index == closing_quote(self@.source, resume),
                        decreases self@.source.len() - self@.index,
                    {
                        let byte = self.advance_unchecked();
                        if byte == QUOTE {
                            self.backtrack_unchecked();
                            break;
                        } else if byte == BACKSLASH {
                            let Some(_) = self.advance() else {
                                return Err(LexerError::UnexpectedEofWhile(Token::LitStr));
                            };
                        }
                    }
                    if self.is_at_end() {
                        return Err(LexerError::UnexpectedEofWhile(Token::LitStr));
                    }
                    // the loop ended before the end of the source, so at the quote
                    self.advance_unchecked();
                    return Err(LexerError::InvalidEscapeSequence);
                }
            }
        }
        if self.is_at_end() {
            return Err(LexerError::UnexpectedEofWhile(Token::LitStr));
        }
        // the cursor is at the closing quote
        self.literal = Some((self.start + 1, self.index));
        self.advance_unchecked();
        Ok(Token::LitStr)
    }

    /// Scans the rest of a character literal. On success the byte or escape
    /// between the quotes is the pending literal and the closing quote is
    /// consumed.
    #[inline]
    pub fn lex_character_literal(&mut self) -> (result: LexerResult<Token>)
        requires
            old(self).wf(),
            old(self)@.index == old(self)@.start + 1,
        ensures
            final(self).wf(),
            result == scan_char(old(self)@.source, old(self)@.start).result,
            final(self)@ == old(self)@.after(scan_char(old(self)@.source, old(self)@.start)),
    {
        if self.is_at_end() {
            return Err(LexerError::UnexpectedEofWhile(Token::LitChar));
        }
        let byte = self.peek_unchecked();
        if byte == BACKSLASH {
            let Some(escaped) = self.peek_next() else {
                self.advance_unchecked();
                return Err(LexerError::UnexpectedEofWhile(Token::LitChar));
            };
            if is_escape(escaped) {
                // a valid escape: both bytes are the literal
                self.advance_unchecked();
                self.advance_unchecked();
            } else if escaped == LOWER_X {
                return Err(LexerError::NotYetSupported(UnsupportedFeature::ByteEscape));
            } else {
                // an invalid escape: the byte behind it tells whether the
                // literal was closed
                self.advance_unchecked();
                self.advance_unchecked();
                if self.is_at_end() {
                    return Err(LexerError::UnexpectedEofWhile(Token::LitChar));
                }
                let closing = self.advance_unchecked();
                if closing != APOSTROPHE {
                    return Err(LexerError::UnclosedCharLiteral);
                }
                return Err(LexerError::InvalidEscapeSequence);
            }
        } else {
            self.advance_unchecked();
        }
        if self.is_at_end() {
            return Err(LexerError::UnexpectedEofWhile(Token::LitChar));
        }
        if self.peek_unchecked() != APOSTROPHE {
            self.advance_unchecked();
            return Err(LexerError::InvalidCharacter);
        }
        // the cursor is at the closing quote
        self.literal = Some((self.start + 1, self.index));
        self.advance_unchecked();
        Ok(Token::LitChar)
    }

    /// Scans the rest of a number: an integer, or a float where a dot and a
    /// digit follow the first run of digits. On success the whole lexeme is
    /// the pending literal.
    #[inline]
    pub fn lex_ambiguous_number_literal(&mut self) -> (result: LexerResult<Token>)
        requires
            old(self).wf(),
            old(self)@.index == old(self)@.start + 1,
        ensures
            final(self).wf(),
            result == scan_number(old(self)@.source, old(self)@.start).result,
            final(self)@ == old(self)@.after(scan_number(old(self)@.source, old(self)@.start)),
    {
        while !self.is_at_end()
            invariant
                self.wf(),
                self@ == old(self)@.at(self@.index),
                old(self)@.index == old(self)@.start + 1,
                old(self)@.index <= self@.index,
                run_end(self@.source, self@.index, ByteClass::Digit) == run_end(
                    self@.source,
                    old(self)@.index,
                    ByteClass::Digit,
                ),
            ensures
                self.wf(),
                self@ == old(self)@.at(self@.index),
                self@.index == run_end(self@.source, old(self)@.index, ByteClass::Digit),
                !byte_is(self@.source, self@.index, DOT),
            decreases self@.source.len() - self@.index,
        {
            let byte = self.peek_unchecked();
            if is_valid_digit(byte) {
                self.advance_unchecked();
            } else if byte == DOT {
                self.advance_unchecked();
                return lex_dot_after_integer(self);
            } else {
                break;
            }
        }
        self.literal = Some((self.start, self.index));
        Ok(Token::LitInteger)
    }
}

/// Scans what follows the dot of a number, the dot being the byte consumed
/// last. Only a digit makes the number a float.
#[inline]
pub fn lex_dot_after_integer(lexer: &mut Lexer<'_>) -> (result: LexerResult<Token>)
    requires
        old(lexer).wf(),
        old(lexer)@.start < old(lexer)@.index,
    ensures
        final(lexer).wf(),
        result == scan_fraction(
            old(lexer)@.source,
            old(lexer)@.start,
            old(lexer)@.index - 1,
        ).result,
        final(lexer)@ == old(lexer)@.after(
            scan_fraction(old(lexer)@.source, old(lexer)@.start, old(lexer)@.index - 1),
        ),
{
    if lexer.is_at_end() {
        return Err(LexerError::UnexpectedEofWhile(Token::LitFloat));
    }
    let peeked = lexer.peek_unchecked();
    if is_valid_digit(peeked) {
        // the first digit of the fraction, then the digits after it, if any
        lexer.advance_unchecked();
        while !lexer.is_at_end()
            invariant
                lexer.wf(),
                lexer@ == old(lexer)@.at(lexer@.index),
                old(lexer)@.index < lexer@.index,
                run_end(lexer@.source, lexer@.index, ByteClass::Digit) == run_end(
                    lexer@.source,
                    old(lexer)@.index,
                    ByteClass::Digit,
                ),
            ensures
                lexer.wf(),
                lexer@ == old(lexer)@.at(lexer@.index),
                lexer@.index == run_end(lexer@.source, old(lexer)@.index, ByteClass::Digit),
            decreases lexer@.source.len() - lexer@.index,
        {
            let byte = lexer.peek_unchecked();
            if is_valid_digit(byte) {
                lexer.advance_unchecked();
            } else {
                break;
            }
        }
    } else if is_whitespace(peeked) {
        return Err(LexerError::NotYetSupported(UnsupportedFeature::WhitespaceAfterIntegerDot));
    } else if is_valid_identifier_head(peeked) {
        return Err(LexerError::NotYetSupported(UnsupportedFeature::MethodCallOnInteger));
    } else {
        return Err(LexerError::UnexpectedEofWhile(Token::LitFloat));
    }
    lexer.literal = Some((lexer.start, lexer.index));
    Ok(Token::LitFloat)
}

} // verus!
