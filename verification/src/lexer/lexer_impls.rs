use crate::grammar::{column_at, lemma_match_len, lemma_position_bounds, match_len, NEWLINE};
use crate::lexer::Lexer;
use vstd::prelude::*;
use vstd::slice::slice_subrange;

pub mod high_level;
pub mod identifiers;
pub mod numbers;
pub mod skip_whitespace;

verus! {

/// Byte-level traversal.
impl<'source> Lexer<'source> {
    /// Whether every byte has been read.
    #[inline(always)]
    pub fn is_at_end(&self) -> (at_end: bool)
        ensures
            at_end == (self@.index >= self@.source.len()),
    {
        self.index >= self.source.len()
    }

    /// The next byte, which must exist.
    #[inline]
    pub fn peek_unchecked(&self) -> (byte: u8)
        requires
            0 <= self@.index < self@.source.len(),
        ensures
            byte == self@.source[self@.index],
    {
        self.source.as_bytes()[self.index]
    }

    /// The next byte, if there is one.
    #[inline]
    pub fn peek(&self) -> (byte: Option<u8>)
        ensures
            byte == if self@.index < self@.source.len() {
                Some(self@.source[self@.index])
            } else {
                None
            },
    {
        if self.is_at_end() {
            None
        } else {
            Some(self.peek_unchecked())
        }
    }

    /// The next byte, or 0 at the end of the source.
    #[inline]
    pub fn peek_default(&self) -> (byte: u8)
        ensures
            byte == if self@.index < self@.source.len() {
                self@.source[self@.index]
            } else {
                0
            },
    {
        if self.is_at_end() {
            0
        } else {
            self.peek_unchecked()
        }
    }

    /// Consumes the next byte, which must exist, and returns it. A newline
    /// starts a new line in column 1; any other byte moves one column on.
    #[inline]
    pub fn advance_unchecked(&mut self) -> (byte: u8)
        requires
            old(self).wf(),
            old(self)@.index < old(self)@.source.len(),
        ensures
            final(self).wf(),
            final(self)@ == old(self)@.at(old(self)@.index + 1),
            byte == old(self)@.source[old(self)@.index],
    {
        let bytes = self.source.as_bytes();
        let byte = bytes[self.index];
        proof {
            lemma_position_bounds(self@.source, self@.index);
            assert(bytes@.len() == bytes.len());
        }
        self.index += 1;
        if byte == NEWLINE {
            self.newlines += 1;
            self.column = 1;
            byte
        } else {
            self.column += 1;
            byte
        }
    }

    /// Consumes the next byte, if there is one, and returns it.
    #[inline]
    pub fn advance(&mut self) -> (byte: Option<u8>)
        requires
            old(self).wf(),
        ensures
            final(self).wf(),
            old(self)@.index < old(self)@.source.len() ==> byte == Some(
                old(self)@.source[old(self)@.index],
            ) && final(self)@ == old(self)@.at(old(self)@.index + 1),
            old(self)@.index == old(self)@.source.len() ==> byte.is_none() && final(self)@ == old(
                self,
            )@,
    {
        if self.is_at_end() {
            None
        } else {
            Some(self.advance_unchecked())
        }
    }

    /// Consumes the next byte and returns it, or returns 0 at the end of the
    /// source.
    #[inline]
    pub fn advance_default(&mut self) -> (byte: u8)
        requires
            old(self).wf(),
        ensures
            final(self).wf(),
            old(self)@.index < old(self)@.source.len() ==> byte == old(self)@.source[old(
                self,
            )@.index] && final(self)@ == old(self)@.at(old(self)@.index + 1),
            old(self)@.index == old(self)@.source.len() ==> byte == 0 && final(self)@ == old(
                self,
            )@,
    {
        if self.is_at_end() {
            0
        } else {
            self.advance_unchecked()
        }
    }

    /// The byte after the next one, which must exist.
    #[inline]
    pub fn peek_next_unchecked(&self) -> (byte: u8)
        requires
            0 <= self@.index,
            self@.index + 1 < self@.source.len(),
        ensures
            byte == self@.source[self@.index + 1],
    {
        let bytes = self.source.as_bytes();
        assert(bytes@.len() == bytes.len());
        bytes[self.index + 1]
    }

    /// The byte after the next one, if there is one.
    #[inline]
    pub fn peek_next(&self) -> (byte: Option<u8>)
        requires
            self.wf(),
        ensures
            byte == if self@.index + 1 < self@.source.len() {
                Some(self@.source[self@.index + 1])
            } else {
                None
            },
    {
        if self.source.len() - self.index <= 1 {
            None
        } else {
            Some(self.peek_next_unchecked())
        }
    }

    /// The byte after the next one, or 0 where there is none.
    #[inline]
    pub fn peek_next_default(&self) -> (byte: u8)
        requires
            self.wf(),
        ensures
            byte == if self@.index + 1 < self@.source.len() {
                self@.source[self@.index + 1]
            } else {
                0
            },
    {
        if self.source.len() - self.index <= 1 {
            0
        } else {
            self.peek_next_unchecked()
        }
    }

    /// Consumes the next byte, which must exist, if it is `expected`, and says
    /// whether it did.
    #[inline]
    pub fn matches_unchecked(&mut self, expected: u8) -> (matched: bool)
        requires
            old(self).wf(),
            old(self)@.index < old(self)@.source.len(),
        ensures
            final(self).wf(),
            matched == (old(self)@.source[old(self)@.index] == expected),
            final(self)@ == if matched {
                old(self)@.at(old(self)@.index + 1)
            } else {
                old(self)@
            },
    {
        let byte = self.peek_unchecked();
        if byte == expected {
            self.advance_unchecked();
            true
        } else {
            false
        }
    }

    /// Consumes the next byte if it is `expected` and says whether it did;
    /// `None` at the end of the source.
    #[inline]
    pub fn matches(&mut self, expected: u8) -> (matched: Option<bool>)
        requires
            old(self).wf(),
        ensures
            final(self).wf(),
            matched == if old(self)@.index < old(self)@.source.len() {
                Some(old(self)@.source[old(self)@.index] == expected)
            } else {
                None
            },
            final(self)@ == if matched == Some(true) {
                old(self)@.at(old(self)@.index + 1)
            } else {
                old(self)@
            },
    {
        if self.is_at_end() {
            None
        } else {
            Some(self.matches_unchecked(expected))
        }
    }

    /// Consumes the next byte if it is `expected` and says whether it did;
    /// `false` at the end of the source.
    #[inline]
    pub fn matches_default(&mut self, expected: u8) -> (matched: bool)
        requires
            old(self).wf(),
        ensures
            final(self).wf(),
            matched == (old(self)@.index < old(self)@.source.len() && old(self)@.source[old(
                self,
            )@.index] == expected),
            final(self)@ == if matched {
                old(self)@.at(old(self)@.index + 1)
            } else {
                old(self)@
            },
    {
        if self.is_at_end() {
            false
        } else {
            self.matches_unchecked(expected)
        }
    }

    /// A literal match. Consumes the bytes of `expected` as far as the source
    /// holds them: up to the first byte that differs, the end of `expected` or
    /// the end of the source. `true` exactly where all of `expected` stood in
    /// the source and was consumed; a source that ends before the last byte
    /// of `expected` does not match.
    #[inline]
    pub fn matches_bytes(&mut self, expected: &[u8]) -> (matched: bool)
        requires
            old(self).wf(),
        ensures
            final(self).wf(),
            final(self)@ == old(self)@.at(
                old(self)@.index + match_len(old(self)@.source, old(self)@.index, expected@, 0),
            ),
            matched == (final(self)@.index == old(self)@.index + expected@.len()),
            matched == (old(self)@.index + expected@.len() <= old(self)@.source.len() && old(
                self,
            )@.source.subrange(old(self)@.index, old(self)@.index + expected@.len())
                == expected@),
    {
        proof {
            lemma_match_len(self@.source, self@.index, expected@, 0);
            assert(expected@.subrange(0, expected@.len() as int) =~= expected@);
        }
        let mut index: usize = 0;
        while !self.is_at_end() && index < expected.len()
            invariant
                self.wf(),
                index <= expected@.len(),
                self@ == old(self)@.at(old(self)@.index + index),
                match_len(old(self)@.source, old(self)@.index, expected@, 0) == index + match_len(
                    self@.source,
                    self@.index,
                    expected@,
                    index as int,
                ),
            decreases expected@.len() - index,
        {
            let byte = self.peek_unchecked();
            if byte != expected[index] {
                return false;
            }
            self.advance_unchecked();
            index += 1;
        }
        index == expected.len()
    }

    /// The bytes of the current token read so far.
    #[inline]
    pub fn slice_here(&self) -> (bytes: &'source [u8])
        requires
            self.wf(),
        ensures
            bytes@ == self@.lexeme(),
    {
        slice_subrange(self.source.as_bytes(), self.start, self.index)
    }

    /// Steps the cursor back over the byte it consumed last and returns that
    /// byte. Line and column are again those of the earlier offset. The cursor
    /// stays within the current token and behind a pending literal.
    #[inline]
    pub fn backtrack_unchecked(&mut self) -> (byte: u8)
        requires
            old(self).wf(),
            old(self)@.start < old(self)@.index,
            old(self)@.literal matches Some((lo, hi)) ==> hi < old(self)@.index,
        ensures
            final(self).wf(),
            final(self)@ == old(self)@.at(old(self)@.index - 1),
            byte == old(self)@.source[old(self)@.index - 1],
    {
        self.index -= 1;
        let bytes = self.source.as_bytes();
        let byte = bytes[self.index];
        proof {
            lemma_position_bounds(bytes@, self.index as int);
        }
        if byte == NEWLINE {
            self.newlines -= 1;
            self.column = column_of(bytes, self.index);
        } else {
            self.column -= 1;
        }
        byte
    }
}

/// The column of offset `index`, found by walking back to the start of its line.
fn column_of(bytes: &[u8], index: usize) -> (column: usize)
    requires
        index <= bytes@.len(),
    ensures
        column == column_at(bytes@, index as int),
{
    let mut line_start: usize = index;
    while line_start > 0 && bytes[line_start - 1] != NEWLINE
        invariant
            line_start <= index <= bytes@.len(),
            column_at(bytes@, index as int) == column_at(bytes@, line_start as int) + (index
                - line_start),
        decreases line_start,
    {
        line_start -= 1;
    }
    proof {
        lemma_position_bounds(bytes@, index as int);
    }
    if line_start == 0 {
        index
    } else {
        index - line_start + 1
    }
}

} // verus!
