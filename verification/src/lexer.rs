use crate::diagnostics::{debug_text, push_byte_list, push_decimal};
use crate::grammar::{
    column_at, lemma_position_bounds, lemma_skip_end_bounds, line_at, scan_token, skip_end, Scan, AMPERSAND, APOSTROPHE, BANG, CARET, COLON,
    COMMA, DOT, EQUALS, GREATER, LBRACE, LBRACKET, LESS, LPAREN, MINUS, PERCENT, PIPE, PLUS,
    QUOTE, RBRACE, RBRACKET, RPAREN, SEMICOLON, SLASH, STAR,
};
use crate::laws::{lemma_eof_means_nothing_left, lemma_next_state_is_wf, lemma_scan_shape};
use crate::lexer::lexer_impls::identifiers::is_valid_identifier_head;
use crate::lexer::lexer_impls::numbers::is_valid_digit;
use crate::source_code::SourceCode;
use crate::types::Token;
use vstd::prelude::*;
use vstd::slice::slice_subrange;
use vstd::string::StringExecFns;

pub mod lexer_impls;

verus! {

/// Grammar that the lexer recognises and does not handle yet.
#[derive(Debug, Clone, Copy, PartialEq, Eq, Hash, Structural)]
pub enum UnsupportedFeature {
    /// A byte escape, `\x..`, in a string or character literal.
    ByteEscape,
    /// Whitespace after the dot that follows an integer.
    WhitespaceAfterIntegerDot,
    /// A name after the dot that follows an integer, as in `10.abs()`.
    MethodCallOnInteger,
}

#[derive(Debug, Clone, Copy, PartialEq, Hash, Structural)]
#[non_exhaustive]
pub enum LexerError {
    /// The input ended inside a literal of the given category.
    UnexpectedEofWhile(Token),
    /// Valid grammar that is not implemented yet.
    NotYetSupported(UnsupportedFeature),
    /// A backslash was followed by a byte that forms no escape.
    InvalidEscapeSequence,
    /// A byte that cannot start or continue any token.
    InvalidCharacter,
    /// The invalid escape of a character literal was not followed by the closing quote.
    UnclosedCharLiteral,
    /// There is no literal to extract: the last token had none, or it was taken already.
    NoLiteralToExtract,
    /// No token is left. This ends the stream and is no fault of the source.
    Eof,
    /// An invariant of the lexer was broken.
    Internal,
}

pub type LexerResult<T> = Result<T, LexerError>;

/// What reading on to the first request that fails comes to.
#[derive(Debug, Clone, Copy, PartialEq)]
pub struct LexRun {
    /// How many tokens were read.
    pub tokens: usize,
    /// How many bytes their literals hold in all.
    pub literal_bytes: usize,
    /// The error of the request that failed: `Eof` where the source was read
    /// to its end.
    pub stopped_by: LexerError,
}

/// A run as the contracts see it: the tokens that were read, how many bytes
/// their literals hold in all, the error that ended it and the lexer it left.
pub struct LexRunView {
    pub read: Seq<Token>,
    pub literal_bytes: nat,
    pub stopped_by: LexerError,
    pub state: LexerView,
}

/// What reading on comes to while every token carries a literal.
#[derive(Debug, Clone, Copy, PartialEq)]
pub struct LiteralRun {
    /// How many bytes the literals hold in all.
    pub literal_bytes: usize,
    /// What ended the run: the first token that carries no literal, or the
    /// error of the first request that failed, `Eof` where the source was
    /// read to its end.
    pub stopped_by: LexerResult<Token>,
}

/// A [`LiteralRun`] as the contracts see it, with the lexer it left.
pub struct LiteralRunView {
    pub literal_bytes: nat,
    pub stopped_by: Result<Token, LexerError>,
    pub state: LexerView,
}

/// The lexer as the contracts see it.
pub struct LexerView {
    /// The bytes of the source.
    pub source: Seq<u8>,
    /// The offset of the current token's first byte.
    pub start: int,
    /// The offset of the next unread byte.
    pub index: int,
    /// The bounds of the pending literal, as offsets into the source.
    pub literal: Option<(int, int)>,
    /// The line of the cursor, counted from 1.
    pub line: int,
    /// The column of the cursor.
    pub column: int,
    /// Whether the sequence of tokens has ended: a request made through
    /// [`Lexer::next`] has failed. Only a new lexer starts the sequence again.
    pub ended: bool,
}

impl LexerView {
    /// The same lexer with its cursor at offset `index`.
    pub open spec fn at(self, index: int) -> LexerView {
        LexerView {
            index,
            line: line_at(self.source, index),
            column: column_at(self.source, index),
            ..self
        }
    }

    /// The lexer after the scan of a token that began at `self.start`: the
    /// cursor stands where the scan ended, and the literal of the scan, if it
    /// has one, is pending.
    pub open spec fn after(self, scan: Scan) -> LexerView {
        LexerView {
            literal: if scan.literal is Some {
                scan.literal
            } else {
                self.literal
            },
            ..self.at(scan.end)
        }
    }

    /// The lexer after the next token was requested: whitespace and comments
    /// are skipped; at the end of the source nothing else changes; otherwise
    /// the token starts where skipping ended, the cursor stands behind it and
    /// its literal, if it has one, is the pending one.
    pub open spec fn next_state(self) -> LexerView {
        let begin = skip_end(self.source, self.index);
        if begin >= self.source.len() {
            self.at(begin)
        } else {
            let scan = scan_token(self.source, begin);
            LexerView { start: begin, literal: scan.literal, ..self.at(scan.end) }
        }
    }

    /// What a request for the next token returns: `Eof` where only whitespace
    /// and comments are left, and otherwise what the scan of the token yields.
    pub open spec fn next_result(self) -> Result<Token, LexerError> {
        let begin = skip_end(self.source, self.index);
        if begin >= self.source.len() {
            Err(LexerError::Eof)
        } else {
            scan_token(self.source, begin).result
        }
    }

    /// The lexer after the next item of the sequence was asked for. An ended
    /// sequence stays as it is. Otherwise the next token is requested, and the
    /// sequence ends if that request fails, whatever the error.
    pub open spec fn sequence_state(self) -> LexerView {
        if self.ended {
            self
        } else {
            LexerView { ended: self.next_result() is Err, ..self.next_state() }
        }
    }

    /// The next item of the sequence: none once the sequence has ended, and
    /// otherwise the token of the next request, or none if that request fails.
    pub open spec fn sequence_item(self) -> Option<Token> {
        if self.ended {
            None
        } else {
            match self.next_result() {
                Ok(token) => Some(token),
                Err(_) => None,
            }
        }
    }

    /// How many bytes the pending literal holds, 0 where none is pending.
    pub open spec fn literal_len(self) -> nat {
        match self.literal {
            Some((lo, hi)) => if lo <= hi {
                (hi - lo) as nat
            } else {
                0
            },
            None => 0,
        }
    }

    /// The requests from here to the first that fails, each literal taken as
    /// soon as its token is read: the tokens in order, the lengths of their
    /// literals summed, and the failing request's error and state.
    pub open spec fn run(self) -> LexRunView
        decreases self.source.len() - self.index,
    {
        match self.next_result() {
            Ok(token) => if self.wf() {
                proof {
                    lemma_next_state_is_wf(self);
                }
                let rest = self.next_state().without_literal().run();
                LexRunView {
                    read: seq![token] + rest.read,
                    literal_bytes: rest.literal_bytes + self.next_state().literal_len(),
                    ..rest
                }
            } else {
                LexRunView {
                    read: Seq::empty(),
                    literal_bytes: 0,
                    stopped_by: LexerError::Internal,
                    state: self,
                }
            },
            Err(error) => LexRunView {
                read: Seq::empty(),
                literal_bytes: 0,
                stopped_by: error,
                state: self.next_state(),
            },
        }
    }

    /// The requests from here on as long as each returns a token that carries
    /// a literal, which is taken at once: the lengths of the literals summed,
    /// and what the first other request returned, with its state.
    pub open spec fn literal_run(self) -> LiteralRunView
        decreases self.source.len() - self.index,
    {
        if !self.wf() {
            LiteralRunView {
                literal_bytes: 0,
                stopped_by: Err(LexerError::Internal),
                state: self,
            }
        } else if self.next_result() matches Ok(token) && token.carries_literal() {
            proof {
                lemma_next_state_is_wf(self);
            }
            let rest = self.next_state().without_literal().literal_run();
            LiteralRunView {
                literal_bytes: rest.literal_bytes + self.next_state().literal_len(),
                ..rest
            }
        } else {
            LiteralRunView {
                literal_bytes: 0,
                stopped_by: self.next_result(),
                state: self.next_state(),
            }
        }
    }

    /// What an extraction returns: the bytes of the pending literal, or
    /// `NoLiteralToExtract` where none is pending.
    pub open spec fn extraction(self) -> Result<Seq<u8>, LexerError> {
        match self.literal {
            Some((lo, hi)) => Ok(self.source.subrange(lo, hi)),
            None => Err(LexerError::NoLiteralToExtract),
        }
    }

    /// The same lexer with no literal pending.
    pub open spec fn without_literal(self) -> LexerView {
        LexerView { literal: None, ..self }
    }

    /// A lexer that has read nothing of `source` yet.
    pub open spec fn initial(source: Seq<u8>) -> LexerView {
        LexerView {
            source,
            start: 0,
            index: 0,
            literal: None,
            line: 1,
            column: 0,
            ended: false,
        }
    }

    /// The bytes of the current token read so far.
    pub open spec fn lexeme(self) -> Seq<u8> {
        self.source.subrange(self.start, self.index)
    }

    /// Cursor and token start lie in the source, in order; line and column are
    /// those of the cursor; a pending literal lies within the current token.
    pub open spec fn wf(self) -> bool {
        &&& 0 <= self.start <= self.index <= self.source.len()
        &&& self.line == line_at(self.source, self.index)
        &&& self.column == column_at(self.source, self.index)
        &&& match self.literal {
            Some((lo, hi)) => self.start <= lo <= hi <= self.index,
            None => true,
        }
    }
}

#[derive(Debug, PartialEq, Eq, Hash)]
pub struct Lexer<'source> {
    source: SourceCode<'source>,
    start: usize,
    index: usize,
    literal: Option<(usize, usize)>,
    // the newlines before the cursor: one less than the line
    newlines: usize,
    column: usize,
    // whether a request through `next` has failed
    ended: bool,
}

/// A copy of a lexer stands where the lexer stands and has no literal pending:
/// a literal can be taken once, from the lexer that scanned it. An ended
/// sequence is ended in the copy too.
impl<'source> Clone for Lexer<'source> {
    fn clone(&self) -> (copy: Self)
        ensures
            copy@ == self@.without_literal(),
    {
        Lexer {
            source: self.source.clone(),
            start: self.start,
            index: self.index,
            literal: None,
            newlines: self.newlines,
            column: self.column,
            ended: self.ended,
        }
    }
}

impl<'source> View for Lexer<'source> {
    type V = LexerView;

    closed spec fn view(&self) -> LexerView {
        LexerView {
            source: self.source@,
            start: self.start as int,
            index: self.index as int,
            literal: match self.literal {
                Some((lo, hi)) => Some((lo as int, hi as int)),
                None => None,
            },
            line: self.newlines as int + 1,
            column: self.column as int,
            ended: self.ended,
        }
    }
}

impl<'source> Lexer<'source> {
    /// The invariant of the lexer, see [`LexerView::wf`].
    pub open spec fn wf(&self) -> bool {
        self@.wf()
    }

    /// A lexer at the start of `source`, on line 1 and in column 0, with no
    /// literal pending and its sequence of tokens not ended.
    #[inline]
    pub fn new(source: SourceCode<'source>) -> (lexer: Self)
        ensures
            lexer.wf(),
            lexer@ == LexerView::initial(source@),
    {
        Lexer {
            source,
            start: 0,
            index: 0,
            literal: None,
            newlines: 0,
            column: 0,
            ended: false,
        }
    }

    /// Reads the next token. Whitespace and line comments before it are
    /// skipped. `Err(Eof)` says that no token is left; every other error says
    /// what is wrong with the bytes consumed, which are those of the source
    /// from `start()` up to `index()`.
    ///
    /// The first two clauses after the invariant say all there is to say; the
    /// others spell out what follows from them. The cursor never moves back.
    /// `Eof` leaves it at the end of the source, every other outcome has
    /// consumed at least one byte. A literal is pending exactly after a token
    /// that carries one.
    pub fn lex_single_token(&mut self) -> (result: LexerResult<Token>)
        requires
            old(self).wf(),
        ensures
            final(self).wf(),
            final(self)@ == old(self)@.next_state(),
            result == old(self)@.next_result(),
            old(self)@.index <= final(self)@.index,
            match result {
                Ok(token) => {
                    &&& final(self)@.start < final(self)@.index
                    &&& final(self)@.literal is Some <==> token.carries_literal()
                },
                Err(LexerError::Eof) => {
                    &&& final(self)@.index == final(self)@.source.len()
                    &&& final(self)@.start == old(self)@.start
                    &&& final(self)@.literal == old(self)@.literal
                },
                Err(_) => {
                    &&& final(self)@.start < final(self)@.index
                    &&& final(self)@.literal is None
                },
            },
    {
        proof {
            lemma_next_state_is_wf(self@);
            lemma_eof_means_nothing_left(self@);
            lemma_skip_end_bounds(self@.source, self@.index);
            if skip_end(self@.source, self@.index) < self@.source.len() {
                lemma_scan_shape(self@.source, skip_end(self@.source, self@.index));
            }
        }
        self.skip_whitespace();
        if self.is_at_end() {
            return Err(LexerError::Eof);
        }
        self.start = self.index;
        self.literal = None;

        let next = self.advance_unchecked();
        let tok = match next {
            DOT => Token::PuncDot,
            COMMA => Token::PuncComma,
            SEMICOLON => Token::PuncSemi,
            COLON => Token::PuncColon,
            PLUS => match self.peek() {
                Some(EQUALS) => {
                    self.advance_unchecked();
                    Token::PuncPlusEq
                },
                _ => Token::PuncPlus,
            },
            STAR => match self.peek() {
                Some(EQUALS) => {
                    self.advance_unchecked();
                    Token::PuncStarEq
                },
                _ => Token::PuncStar,
            },
            SLASH => match self.peek() {
                Some(EQUALS) => {
                    self.advance_unchecked();
                    Token::PuncSlashEq
                },
                _ => Token::PuncSlash,
            },
            MINUS => match self.peek() {
                Some(GREATER) => {
                    self.advance_unchecked();
                    Token::PuncArrowRight
                },
                Some(EQUALS) => {
                    self.advance_unchecked();
                    Token::PuncMinusEq
                },
                _ => Token::PuncMinus,
            },
            EQUALS => match self.peek() {
                Some(EQUALS) => {
                    self.advance_unchecked();
                    Token::PuncEqEq
                },
                _ => Token::PuncEq,
            },
            BANG => match self.peek() {
                Some(EQUALS) => {
                    self.advance_unchecked();
                    Token::PuncBangEq
                },
                _ => Token::PuncBang,
            },
            LESS => match self.peek() {
                Some(EQUALS) => {
                    self.advance_unchecked();
                    Token::PuncLtEq
                },
                Some(LESS) => {
                    self.advance_unchecked();
                    match self.peek() {
                        Some(EQUALS) => {
                            self.advance_unchecked();
                            Token::PuncShlEq
                        },
                        _ => Token::PuncShl,
                    }
                },
                _ => Token::PuncLt,
            },
            GREATER => match self.peek() {
                Some(EQUALS) => {
                    self.advance_unchecked();
                    Token::PuncGtEq
                },
                Some(GREATER) => {
                    self.advance_unchecked();
                    match self.peek() {
                        Some(EQUALS) => {
                            self.advance_unchecked();
                            Token::PuncShrEq
                        },
                        _ => Token::PuncShr,
                    }
                },
                _ => Token::PuncGt,
            },
            LPAREN => Token::IndentLParen,
            RPAREN => Token::IndentRParen,
            LBRACE => Token::IndentLBrace,
            RBRACE => Token::IndentRBrace,
            LBRACKET => Token::IndentLBracket,
            RBRACKET => Token::IndentRBracket,
            QUOTE => match self.lex_quoted_string() {
                Ok(tok) => tok,
                Err(e) => return Err(e),
            },
            APOSTROPHE => match self.lex_character_literal() {
                Ok(tok) => tok,
                Err(e) => return Err(e),
            },
            PERCENT => match self.peek() {
                Some(EQUALS) => {
                    self.advance_unchecked();
                    Token::PuncModuloEq
                },
                _ => Token::PuncModulo,
            },
            AMPERSAND => match self.peek() {
                Some(EQUALS) => {
                    self.advance_unchecked();
                    Token::PuncAndEq
                },
                _ => Token::PuncAnd,
            },
            PIPE => match self.peek() {
                Some(EQUALS) => {
                    self.advance_unchecked();
                    Token::PuncOrEq
                },
                _ => Token::PuncOr,
            },
            CARET => match self.peek() {
                Some(EQUALS) => {
                    self.advance_unchecked();
                    Token::PuncXorEq
                },
                _ => Token::PuncXor,
            },
            c if is_valid_digit(c) => match self.lex_ambiguous_number_literal() {
                Ok(tok) => tok,
                Err(e) => return Err(e),
            },
            c if is_valid_identifier_head(c) => self.lex_identifier(),
            // Never the start of a token: the control bytes but tab, carriage
            // return and newline; `#`, `$`, `?`, `@`, `~`, the backtick; a
            // backslash outside a literal; DEL and every byte that is not ASCII.
            _ => return Err(LexerError::InvalidCharacter),
        };

        Ok(tok)
    }

    /// Reads tokens up to the first request that fails and takes the literal
    /// of each. The lexer is left as that request left it.
    pub fn lex_to_end(&mut self) -> (run: LexRun)
        requires
            old(self).wf(),
        ensures
            final(self).wf(),
            final(self)@ == old(self)@.run().state,
            run.tokens == old(self)@.run().read.len(),
            run.literal_bytes == old(self)@.run().literal_bytes,
            run.stopped_by == old(self)@.run().stopped_by,
    {
        let mut tokens: usize = 0;
        let mut literal_bytes: usize = 0;
        loop
            invariant
                self.wf(),
                old(self)@.index <= self@.index,
                tokens <= self@.index - old(self)@.index,
                literal_bytes <= self@.index - old(self)@.index,
                old(self)@.run().read.len() == tokens + self@.run().read.len(),
                old(self)@.run().literal_bytes == literal_bytes + self@.run().literal_bytes,
                old(self)@.run().stopped_by == self@.run().stopped_by,
                old(self)@.run().state == self@.run().state,
            decreases self@.source.len() - self@.index,
        {
            proof {
                lemma_next_state_is_wf(self@);
            }
            match self.lex_single_token() {
                Ok(_) => {
                    tokens += 1;
                    if let Ok(literal) = self.extract_literal() {
                        literal_bytes += literal.len();
                    }
                },
                Err(error) => {
                    return LexRun { tokens, literal_bytes, stopped_by: error };
                },
            }
        }
    }

    /// Reads tokens as long as each carries a literal, and takes each literal.
    /// It stops at the first token without a literal and at the first request
    /// that fails, and leaves the lexer as that request left it.
    pub fn lex_literals(&mut self) -> (run: LiteralRun)
        requires
            old(self).wf(),
        ensures
            final(self).wf(),
            final(self)@ == old(self)@.literal_run().state,
            run.literal_bytes == old(self)@.literal_run().literal_bytes,
            run.stopped_by == old(self)@.literal_run().stopped_by,
    {
        let mut literal_bytes: usize = 0;
        loop
            invariant
                self.wf(),
                old(self)@.index <= self@.index,
                literal_bytes <= self@.index - old(self)@.index,
                old(self)@.literal_run().literal_bytes == literal_bytes
                    + self@.literal_run().literal_bytes,
                old(self)@.literal_run().stopped_by == self@.literal_run().stopped_by,
                old(self)@.literal_run().state == self@.literal_run().state,
            decreases self@.source.len() - self@.index,
        {
            proof {
                lemma_next_state_is_wf(self@);
            }
            match self.lex_single_token() {
                Ok(token) => {
                    if !token.is_identifier_extractable() {
                        return LiteralRun { literal_bytes, stopped_by: Ok(token) };
                    }
                    if let Ok(literal) = self.extract_literal() {
                        literal_bytes += literal.len();
                    }
                },
                Err(error) => {
                    return LiteralRun { literal_bytes, stopped_by: Err(error) };
                },
            }
        }
    }

    /// Takes the pending literal: its bytes, once. Where none is pending, the
    /// last token carried none or it was taken before, the call fails with
    /// `NoLiteralToExtract` and changes nothing.
    #[inline]
    pub fn extract_literal(&mut self) -> (result: LexerResult<&'source [u8]>)
        requires
            old(self).wf(),
        ensures
            final(self).wf(),
            final(self)@ == old(self)@.without_literal(),
            match result {
                Ok(bytes) => old(self)@.extraction() == Ok::<_, LexerError>(bytes@),
                Err(error) => old(self)@.extraction() == Err::<Seq<u8>, _>(error),
            },
    {
        match self.literal {
            Some((lo, hi)) => {
                self.literal = None;
                Ok(slice_subrange(self.source.as_bytes(), lo, hi))
            },
            None => Err(LexerError::NoLiteralToExtract),
        }
    }

    /// Reads the pending literal and leaves it pending.
    ///
    /// This is for diagnostics only. A literal is meant to be read once, by
    /// [`Lexer::extract_literal`]: a caller of this function answers for it
    /// that the bytes are not used a second time after a later extraction.
    #[inline]
    pub fn extract_literal_copy(&self) -> (result: LexerResult<&'source [u8]>)
        requires
            self.wf(),
        ensures
            match result {
                Ok(bytes) => self@.extraction() == Ok::<_, LexerError>(bytes@),
                Err(error) => self@.extraction() == Err::<Seq<u8>, _>(error),
            },
    {
        match self.literal {
            Some((lo, hi)) => Ok(slice_subrange(self.source.as_bytes(), lo, hi)),
            None => Err(LexerError::NoLiteralToExtract),
        }
    }

    /// The next token of the sequence of tokens. The sequence ends at the
    /// first request that fails, at the end of the stream and at every error
    /// alike, and stays ended: from then on every call returns `None` and
    /// leaves the lexer as it is. Only a new lexer starts it again. A caller
    /// that must tell the end of the stream from an error, or go on behind an
    /// error, uses [`Lexer::lex_single_token`], which takes no notice of the
    /// sequence.
    #[inline]
    pub fn next(&mut self) -> (token: Option<Token>)
        requires
            old(self).wf(),
        ensures
            final(self).wf(),
            final(self)@ == old(self)@.sequence_state(),
            token == old(self)@.sequence_item(),
            final(self)@ == if old(self)@.ended {
                old(self)@
            } else {
                (LexerView {
                    ended: old(self)@.next_result() is Err,
                    ..old(self)@.next_state()
                })
            },
            token == if old(self)@.ended {
                None
            } else {
                match old(self)@.next_result() {
                    Ok(t) => Some(t),
                    Err(_) => None,
                }
            },
            token is None <==> final(self)@.ended,
    {
        if self.ended {
            return None;
        }
        match self.lex_single_token() {
            Ok(token) => Some(token),
            Err(_) => {
                self.ended = true;
                None
            },
        }
    }

    /// One line for a diagnostic: line and column, the offsets of the current
    /// token, and the pending literal, which stays pending.
    #[inline]
    pub fn get_lexer_debug_state(&self) -> (text: String)
        requires
            self.wf(),
        ensures
            text@ == debug_text(self@),
    {
        let start = self.start();
        let index = self.index();
        // the literal is only shown, so it may be read without being taken
        let literal = self.extract_literal_copy();
        let mut text = String::new();
        text.append("lexer error at ");
        push_decimal(&mut text, self.newlines as u128 + 1);
        text.append(":");
        push_decimal(&mut text, self.column as u128);
        text.append(" (index ");
        push_decimal(&mut text, start as u128);
        text.append("..");
        push_decimal(&mut text, index as u128);
        text.append("), possible literal: ");
        match literal {
            Ok(bytes) => {
                text.append("Ok([");
                push_byte_list(&mut text, bytes);
                text.append("])");
            },
            Err(_) => {
                text.append("Err(NoLiteralToExtract)");
            },
        }
        proof {
            assert(text@ =~= debug_text(self@));
        }
        text
    }

    /// Line and column of the cursor. The line is counted from 1. (A source
    /// of `usize::MAX` newlines, which no memory holds, would end on a line
    /// that no `usize` holds: `usize::MAX` stands for it.)
    #[inline]
    pub fn get_line_column(&self) -> (position: (usize, usize))
        ensures
            position.0 == if self@.line <= usize::MAX {
                self@.line
            } else {
                usize::MAX as int
            },
            position.1 == self@.column,
            self.wf() && self@.index < usize::MAX ==> position.0 == self@.line,
    {
        proof {
            if self.wf() {
                lemma_position_bounds(self@.source, self@.index);
            }
        }
        (self.newlines.saturating_add(1), self.column)
    }

    #[inline]
    pub fn start(&self) -> (start: usize)
        ensures
            start == self@.start,
    {
        self.start
    }

    #[inline]
    pub fn index(&self) -> (index: usize)
        ensures
            index == self@.index,
    {
        self.index
    }
}

} // verus!
