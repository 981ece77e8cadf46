//! Synthetic sources for load tests: random token sequences and long random
//! string literals.

use crate::grammar::{BACKSLASH, QUOTE, SPACE};
use crate::laws::{lemma_render_then_lex, lemma_string_round_trip, quoted};
use crate::lexer::{LexerError, LexerView};
use crate::types::Token;
use std::string::FromUtf8Error;
use vstd::prelude::*;
use vstd::string::{StringExecFns, StringSliceAdditionalSpecFns};
use vstd::utf8::{encode_utf8, is_ascii_chars, valid_utf8};
use voxell_rng::prelude::RngCoreExtension;
use voxell_rng::rng::{XoRoShiRo128, XorShift128};
use voxell_rng::slice_methods::{select_random, MultiSelectorImmutOverlap};

verus! {

/// `XorShift128` of voxell_rng, a random number generator. Its state is not
/// looked into.
#[verifier::external_type_specification]
#[verifier::external_body]
pub struct ExXorShift128(XorShift128);

/// `XoRoShiRo128` of voxell_rng, a random number generator. Its state is not
/// looked into.
#[verifier::external_type_specification]
#[verifier::external_body]
pub struct ExXoRoShiRo128(XoRoShiRo128);

/// `FromUtf8Error` of std, the error of `String::from_utf8`. It is not looked
/// into.
#[verifier::external_type_specification]
#[verifier::external_body]
pub struct ExFromUtf8Error(FromUtf8Error);

/// The bytes of which a random string literal is made: letters, digits, signs
/// and four control bytes, but neither the double quote nor the backslash.
pub const ALPHABET: [u8; 96] = [
    'A' as u8, 'B' as u8, 'C' as u8, 'D' as u8, 'E' as u8, 'F' as u8,
    'G' as u8, 'H' as u8, 'I' as u8, 'J' as u8, 'K' as u8, 'L' as u8,
    'M' as u8, 'N' as u8, 'O' as u8, 'P' as u8, 'Q' as u8, 'R' as u8,
    'S' as u8, 'T' as u8, 'U' as u8, 'V' as u8, 'W' as u8, 'X' as u8,
    'Y' as u8, 'Z' as u8, 'a' as u8, 'b' as u8, 'c' as u8, 'd' as u8,
    'e' as u8, 'f' as u8, 'g' as u8, 'h' as u8, 'i' as u8, 'j' as u8,
    'k' as u8, 'l' as u8, 'm' as u8, 'n' as u8, 'o' as u8, 'p' as u8,
    'q' as u8, 'r' as u8, 's' as u8, 't' as u8, 'u' as u8, 'v' as u8,
    'w' as u8, 'x' as u8, 'y' as u8, 'z' as u8, '0' as u8, '1' as u8,
    '2' as u8, '3' as u8, '4' as u8, '5' as u8, '6' as u8, '7' as u8,
    '8' as u8, '9' as u8, '`' as u8, '~' as u8, '!' as u8, '@' as u8,
    '#' as u8, '$' as u8, '%' as u8, '^' as u8, '&' as u8, '*' as u8,
    '(' as u8, ')' as u8, '_' as u8, '+' as u8, '{' as u8, '}' as u8,
    '[' as u8, ']' as u8, '|' as u8, ';' as u8, ':' as u8, '\'' as u8,
    ',' as u8, '.' as u8, '/' as u8, '<' as u8, '>' as u8, '?' as u8,
    '-' as u8, '=' as u8, '\n' as u8, '\t' as u8, '\r' as u8, '\0' as u8,
];

/// Calls `XorShift128::new` of voxell_rng, which makes a generator of a seed.
/// Every seed is taken. Nothing is claimed of the generator.
#[verifier::external_body]
fn xorshift_from_seed(seed: u64) -> XorShift128 {
    XorShift128::new(seed)
}

/// Calls `XoRoShiRo128::wrap` of voxell_rng, which makes a generator of the
/// two halves of a seed. It refuses a seed whose first half is zero, so that
/// is left out here. Nothing is claimed of the generator.
#[verifier::external_body]
fn xoroshiro_from_pair(first: u64, second: u64) -> XoRoShiRo128
    requires
        first != 0,
{
    XoRoShiRo128::wrap([first, second])
}

/// Calls `RngCoreExtension::next_u64` of voxell_rng. Nothing is claimed of the
/// number.
#[verifier::external_body]
fn next_u64(rng: &mut XoRoShiRo128) -> u64 {
    RngCoreExtension::next_u64(rng)
}

/// Calls `select_random` of voxell_rng with `MultiSelectorImmutOverlap`:
/// `count` draws from `list`, with repetition. From a list that is not empty
/// come `count` picks, each an item of the list; which one is left to chance.
/// From an empty list comes nothing.
#[verifier::external_body]
fn pick_tokens(list: &[Token], count: usize, rng: &mut XorShift128) -> (picks: Vec<Token>)
    ensures
        picks@.len() == if list@.len() == 0 {
            0
        } else {
            count as int
        },
        forall|k: int| 0 <= k < picks@.len() ==> list@.contains(#[trigger] picks@[k]),
{
    select_random(MultiSelectorImmutOverlap(count), list, rng).into_iter().copied().collect()
}

/// Calls `String::from_utf8` of std: the string that the bytes encode, and an
/// error exactly where they are no UTF-8.
#[verifier::external_body]
fn string_from_utf8(bytes: Vec<u8>) -> (text: Result<String, FromUtf8Error>)
    ensures
        match text {
            Ok(string) => encode_utf8(string@) == bytes@,
            Err(_) => !valid_utf8(bytes@),
        },
{
    String::from_utf8(bytes)
}

/// The text of a token sequence: the spelling of each token, each followed by
/// one space.
pub open spec fn rendered(tokens: Seq<Token>) -> Seq<u8>
    decreases tokens.len(),
{
    if tokens.len() == 0 {
        Seq::empty()
    } else {
        rendered(tokens.drop_last()) + tokens.last().spelling() + seq![SPACE]
    }
}

/// Renders a token sequence as source text, see [`rendered`].
pub fn render_tokens(tokens: &[Token]) -> (source: String)
    ensures
        is_ascii_chars(source@),
        encode_utf8(source@) == rendered(tokens@),
{
    let mut acc = String::new();
    let mut done: usize = 0;
    proof {
        lemma_ascii_concat(Seq::empty(), Seq::empty());
        assert(tokens@.take(0) =~= Seq::empty());
        assert(acc@ + Seq::<char>::empty() =~= acc@);
    }
    while done < tokens.len()
        invariant
            done <= tokens@.len(),
            is_ascii_chars(acc@),
            encode_utf8(acc@) == rendered(tokens@.take(done as int)),
        decreases tokens@.len() - done,
    {
        let text = tokens[done].source_repr();
        proof {
            reveal_strlit(" ");
            lemma_ascii_concat(acc@, text@);
            lemma_ascii_concat(acc@ + text@, " "@);
            vstd::string::is_ascii_spec_bytes(" ");
            assert(" ".spec_bytes() =~= seq![SPACE]);
            let next = tokens@.take(done + 1);
            assert(next.drop_last() =~= tokens@.take(done as int));
        }
        acc.append(text);
        acc.append(" ");
        done += 1;
    }
    proof {
        assert(tokens@.take(done as int) =~= tokens@);
    }
    acc
}

/// A source text of `tokens` tokens that a generator seeded with `seed` draws,
/// with repetition, from the list of all tokens: the text of some sequence
/// of that many tokens. Read from its start to its end, it gives that many
/// tokens and no error. Every seed is taken; where the seed comes from, the
/// entropy of the system or a fixed number, is the caller's matter.
pub fn source_generator(tokens: usize, seed: u64) -> (source: String)
    ensures
        is_ascii_chars(source@),
        exists|picks: Seq<Token>|
            picks.len() == tokens && #[trigger] rendered(picks) == encode_utf8(source@),
        LexerView::initial(encode_utf8(source@)).run().read.len() == tokens,
        LexerView::initial(encode_utf8(source@)).run().stopped_by == LexerError::Eof,
{
    let mut rng = xorshift_from_seed(seed);
    let all = Token::ALL;
    let picks = pick_tokens(all.as_slice(), tokens, &mut rng);
    proof {
        lemma_render_then_lex(picks@);
    }
    render_tokens(picks.as_slice())
}

/// Whether `b` is one of the bytes of the alphabet.
pub open spec fn is_alphabet_byte(b: u8) -> bool {
    exists|k: int| 0 <= k < 96 && #[trigger] ALPHABET@[k] == b
}

/// The byte of the alphabet that a random number picks: the one at the
/// number's remainder by the size of the alphabet.
pub fn alphabet_byte(draw: u64) -> (byte: u8)
    ensures
        byte == ALPHABET@[draw as int % 96],
        is_alphabet_byte(byte),
{
    let index = (draw % 96) as usize;
    ALPHABET[index]
}

/// Whether `text` is a string literal of `len` bytes of the alphabet and a
/// final `n`, between double quotes.
pub open spec fn is_quoted_string(text: Seq<u8>, len: nat) -> bool {
    exists|body: Seq<u8>|
        {
            &&& body.len() == len
            &&& forall|k: int| 0 <= k < body.len() ==> is_alphabet_byte(#[trigger] body[k])
            &&& text == #[trigger] quoted(body + seq!['n' as u8])
        }
}

/// A string literal of `len` bytes of the alphabet and a final `n`, between
/// double quotes, the bytes drawn by a generator that is seeded with the two
/// halves `first` and `second`. It lexes as one string whose literal is all
/// that stands between the quotes.
///
/// The generator takes no seed whose first half is zero: for such a seed,
/// and for no other, there is no string. Where the seed comes from, the
/// entropy of the system or fixed numbers, is the caller's matter.
pub fn get_quoted_string(len: usize, first: u64, second: u64) -> (text: Option<String>)
    ensures
        text is None <==> first == 0,
        text matches Some(string) ==> {
            &&& is_quoted_string(encode_utf8(string@), len as nat)
            &&& encode_utf8(string@).len() == len + 3
            &&& LexerView::initial(encode_utf8(string@)).next_result() == Ok::<_, LexerError>(
                Token::LitStr,
            )
            &&& LexerView::initial(encode_utf8(string@)).next_state().index == len + 3
            &&& LexerView::initial(encode_utf8(string@)).next_state().literal == Some(
                (1int, len as int + 2),
            )
        },
{
    if first == 0 {
        return None;
    }
    let mut rng = xoroshiro_from_pair(first, second);
    let mut vec: Vec<u8> = Vec::new();
    vec.push(QUOTE);
    let mut count: usize = 0;
    while count < len
        invariant
            count <= len,
            vec@.len() == count + 1,
            vec@[0] == QUOTE,
            forall|k: int| 1 <= k < vec@.len() ==> is_alphabet_byte(#[trigger] vec@[k]),
        decreases len - count,
    {
        let byte = alphabet_byte(next_u64(&mut rng));
        vec.push(byte);
        count += 1;
    }
    vec.push('n' as u8);
    vec.push(QUOTE);
    proof {
        let body = vec@.subrange(1, len + 1);
        assert(vec@ =~= quoted(body + seq!['n' as u8]));
        let inner = body + seq!['n' as u8];
        assert forall|k: int| 0 <= k < inner.len() implies #[trigger] inner[k] != QUOTE
            && inner[k] != BACKSLASH by {
            if k < len {
                lemma_alphabet_is_plain(vec@[k + 1]);
            }
        }
        lemma_string_round_trip(inner);
        assert forall|k: int| 0 <= k < vec@.len() implies #[trigger] vec@[k] < 128 by {
            if 1 <= k <= len {
                lemma_alphabet_is_plain(vec@[k]);
            }
        }
        lemma_ascii_bytes_are_text(vec@);
    }
    match string_from_utf8(vec) {
        Ok(text) => Some(text),
        Err(_) => vstd::pervasive::unreached(),
    }
}

/// The bytes of the alphabet are ASCII, and none of them is a double quote or
/// a backslash: a string of them needs no escape.
pub proof fn lemma_alphabet_is_plain(b: u8)
    requires
        is_alphabet_byte(b),
    ensures
        b < 128,
        b != QUOTE,
        b != BACKSLASH,
{
    let k = choose|k: int| 0 <= k < 96 && #[trigger] ALPHABET@[k] == b;
    assert(forall|j: int|
        0 <= j < 96 ==> #[trigger] ALPHABET@[j] < 128 && ALPHABET@[j] != QUOTE && ALPHABET@[j]
            != BACKSLASH);
}

/// ASCII bytes are the UTF-8 of a text.
proof fn lemma_ascii_bytes_are_text(bytes: Seq<u8>)
    requires
        forall|k: int| 0 <= k < bytes.len() ==> #[trigger] bytes[k] < 128,
    ensures
        valid_utf8(bytes),
{
    let chars = Seq::new(bytes.len(), |k: int| bytes[k] as char);
    assert(is_ascii_chars(chars));
    vstd::utf8::is_ascii_chars_encode_utf8(chars);
    assert(encode_utf8(chars) =~= bytes);
    vstd::utf8::encode_utf8_valid_utf8(chars);
}

/// ASCII texts are joined byte by byte.
proof fn lemma_ascii_concat(a: Seq<char>, b: Seq<char>)
    requires
        is_ascii_chars(a),
        is_ascii_chars(b),
    ensures
        is_ascii_chars(a + b),
        encode_utf8(a + b) == encode_utf8(a) + encode_utf8(b),
{
    assert(is_ascii_chars(a + b));
    vstd::utf8::is_ascii_chars_encode_utf8(a);
    vstd::utf8::is_ascii_chars_encode_utf8(b);
    vstd::utf8::is_ascii_chars_encode_utf8(a + b);
    assert(encode_utf8(a + b) =~= encode_utf8(a) + encode_utf8(b));
}

} // verus!
