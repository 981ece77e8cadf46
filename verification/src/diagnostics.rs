//! The text of a diagnostic: numbers in decimal, a literal as the list of its
//! bytes.

use crate::lexer::{LexerError, LexerView};
use vstd::prelude::*;
use vstd::string::StringExecFns;

verus! {

/// The character of a decimal digit.
pub open spec fn digit_char(digit: nat) -> char {
    if digit == 0 {
        '0'
    } else if digit == 1 {
        '1'
    } else if digit == 2 {
        '2'
    } else if digit == 3 {
        '3'
    } else if digit == 4 {
        '4'
    } else if digit == 5 {
        '5'
    } else if digit == 6 {
        '6'
    } else if digit == 7 {
        '7'
    } else if digit == 8 {
        '8'
    } else {
        '9'
    }
}

/// A number in decimal, without leading zeros.
pub open spec fn decimal(n: nat) -> Seq<char>
    decreases n,
{
    if n < 10 {
        seq![digit_char(n)]
    } else {
        decimal(n / 10).push(digit_char(n % 10))
    }
}

/// Bytes in decimal, a comma and a space between every two.
pub open spec fn byte_list(bytes: Seq<u8>) -> Seq<char>
    decreases bytes.len(),
{
    if bytes.len() == 0 {
        Seq::empty()
    } else if bytes.len() == 1 {
        decimal(bytes[0] as nat)
    } else {
        byte_list(bytes.drop_last()) + ", "@ + decimal(bytes.last() as nat)
    }
}

/// What is pending: the bytes of a literal, or that there is none.
pub open spec fn literal_text(literal: Result<Seq<u8>, LexerError>) -> Seq<char> {
    match literal {
        Ok(bytes) => "Ok(["@ + byte_list(bytes) + "])"@,
        Err(_) => "Err(NoLiteralToExtract)"@,
    }
}

/// One line on the state of a lexer: line and column of the cursor, the
/// offsets of the current token, and the pending literal.
pub open spec fn debug_text(v: LexerView) -> Seq<char> {
    "lexer error at "@ + decimal(v.line as nat) + ":"@ + decimal(v.column as nat) + " (index "@
        + decimal(v.start as nat) + ".."@ + decimal(v.index as nat) + "), possible literal: "@
        + literal_text(v.extraction())
}

/// The text of one decimal digit.
fn digit_text(digit: u8) -> (text: &'static str)
    requires
        digit < 10,
    ensures
        text@ == seq![digit_char(digit as nat)],
{
    proof {
        reveal_strlit("0");
        reveal_strlit("1");
        reveal_strlit("2");
        reveal_strlit("3");
        reveal_strlit("4");
        reveal_strlit("5");
        reveal_strlit("6");
        reveal_strlit("7");
        reveal_strlit("8");
        reveal_strlit("9");
    }
    let text = match digit {
        0 => "0",
        1 => "1",
        2 => "2",
        3 => "3",
        4 => "4",
        5 => "5",
        6 => "6",
        7 => "7",
        8 => "8",
        _ => "9",
    };
    assert(text@ =~= seq![digit_char(digit as nat)]);
    text
}

/// Appends `n` in decimal.
pub fn push_decimal(text: &mut String, n: u128)
    ensures
        final(text)@ == old(text)@ + decimal(n as nat),
    decreases n,
{
    if n >= 10 {
        push_decimal(text, n / 10);
    }
    text.append(digit_text((n % 10) as u8));
    assert(text@ =~= old(text)@ + decimal(n as nat));
}

/// Appends the bytes in decimal, a comma and a space between every two.
pub fn push_byte_list(text: &mut String, bytes: &[u8])
    ensures
        final(text)@ == old(text)@ + byte_list(bytes@),
{
    let mut done: usize = 0;
    assert(bytes@.take(0) =~= Seq::empty());
    assert(text@ =~= old(text)@ + byte_list(bytes@.take(0)));
    while done < bytes.len()
        invariant
            done <= bytes@.len(),
            text@ == old(text)@ + byte_list(bytes@.take(done as int)),
        decreases bytes@.len() - done,
    {
        let ghost before = text@;
        if done > 0 {
            text.append(", ");
        }
        push_decimal(text, bytes[done] as u128);
        proof {
            let next = bytes@.take(done + 1);
            assert(next.drop_last() =~= bytes@.take(done as int));
            assert(next.last() == bytes@[done as int]);
            assert(text@ =~= old(text)@ + byte_list(next));
        }
        done += 1;
    }
    assert(bytes@.take(done as int) =~= bytes@);
}

} // verus!
