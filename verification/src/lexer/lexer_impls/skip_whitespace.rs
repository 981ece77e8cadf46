use crate::grammar::{
    is_whitespace_byte, run_end, skip_end, ByteClass, CARRIAGE_RETURN, NEWLINE, SLASH, SPACE,
    TAB,
};
use crate::lexer::Lexer;
use vstd::prelude::*;

verus! {

/// Consumes whitespace and line comments up to the next token or the end of
/// the source.
pub fn skip_whitespace_impl(lexer: &mut Lexer<'_>)
    requires
        old(lexer).wf(),
    ensures
        final(lexer).wf(),
        final(lexer)@ == old(lexer)@.at(skip_end(old(lexer)@.source, old(lexer)@.index)),
{
    while !lexer.is_at_end()
        invariant
            lexer.wf(),
            lexer@ == old(lexer)@.at(lexer@.index),
            old(lexer)@.index <= lexer@.index,
            skip_end(lexer@.source, lexer@.index) == skip_end(
                old(lexer)@.source,
                old(lexer)@.index,
            ),
        ensures
            lexer.wf(),
            lexer@ == old(lexer)@.at(lexer@.index),
            lexer@.index == skip_end(old(lexer)@.source, old(lexer)@.index),
        decreases lexer@.source.len() - lexer@.index,
    {
        let next = lexer.peek_unchecked();
        if is_whitespace(next) {
            lexer.advance_unchecked();
        } else if next == SLASH {
            let after = lexer.peek_next();
            if after == Some(SLASH) {
                let ghost body = lexer@.index + 2;
                lexer.advance_unchecked();
                lexer.advance_unchecked();
                // a comment may end the source
                while !lexer.is_at_end()
                    invariant
                        lexer.wf(),
                        lexer@ == old(lexer)@.at(lexer@.index),
                        body <= lexer@.index,
                        run_end(lexer@.source, lexer@.index, ByteClass::CommentBody) == run_end(
                            lexer@.source,
                            body,
                            ByteClass::CommentBody,
                        ),
                    ensures
                        lexer.wf(),
                        lexer@ == old(lexer)@.at(lexer@.index),
                        lexer@.index == run_end(lexer@.source, body, ByteClass::CommentBody),
                    decreases lexer@.source.len() - lexer@.index,
                {
                    let byte = lexer.peek_unchecked();
                    if byte != NEWLINE {
                        lexer.advance_unchecked();
                    } else {
                        break;
                    }
                }
            } else {
                break;
            }
        } else {
            break;
        }
    }
}

#[inline]
pub fn is_whitespace(byte: u8) -> (whitespace: bool)
    ensures
        whitespace == is_whitespace_byte(byte),
{
    byte == SPACE || byte == CARRIAGE_RETURN || byte == TAB || byte == NEWLINE
}

} // verus!
