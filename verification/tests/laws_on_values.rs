use source_lexer::lexer::{Lexer, LexerError, UnsupportedFeature};
use source_lexer::source_code::SourceCode;
use source_lexer::types::Token;

fn lexer(source: &str) -> Lexer<'_> {
    Lexer::new(SourceCode::new(source))
}

#[test]
fn end_of_stream_is_final() {
    for source in ["", "   ", "\t\r\n", "// only a comment", "x // trailing\n  ", "1 2 3\n// end"] {
        let mut l = lexer(source);
        while l.lex_single_token() != Err(LexerError::Eof) {}
        let index = l.index();
        let start = l.start();
        let position = l.get_line_column();
        assert_eq!(index, source.len());
        for _ in 0..3 {
            assert_eq!(l.lex_single_token(), Err(LexerError::Eof));
            assert_eq!(l.index(), index);
            assert_eq!(l.start(), start);
            assert_eq!(l.get_line_column(), position);
        }
    }
}

#[test]
fn end_of_stream_keeps_the_last_token_in_place() {
    let mut l = lexer("name   ");
    assert_eq!(l.lex_single_token(), Ok(Token::LitIdentifier));
    assert_eq!(l.lex_single_token(), Err(LexerError::Eof));
    // the trailing blanks are consumed, the token's start and literal stay
    assert_eq!(l.index(), 7);
    assert_eq!(l.start(), 0);
    assert_eq!(l.extract_literal(), Ok(&b"name"[..]));
}

#[test]
fn a_literal_is_taken_once() {
    let cases: [(&str, Token, &[u8]); 5] = [
        ("name", Token::LitIdentifier, b"name"),
        ("123", Token::LitInteger, b"123"),
        ("1.5", Token::LitFloat, b"1.5"),
        ("\"a b\"", Token::LitStr, b"a b"),
        ("'c'", Token::LitChar, b"c"),
    ];
    for (source, token, literal) in cases {
        let mut l = lexer(source);
        assert_eq!(l.lex_single_token(), Ok(token));
        assert!(token.is_identifier_extractable());
        assert_eq!(l.extract_literal(), Ok(literal));
        assert_eq!(l.extract_literal(), Err(LexerError::NoLiteralToExtract));
        assert_eq!(l.extract_literal(), Err(LexerError::NoLiteralToExtract));
    }
}

#[test]
fn a_token_without_literal_has_none_to_take() {
    for source in ["let", "uninit", "<<=", "(", ";"] {
        let mut l = lexer(source);
        let token = l.lex_single_token().unwrap();
        assert!(!token.is_identifier_extractable());
        assert_eq!(l.extract_literal(), Err(LexerError::NoLiteralToExtract));
    }
}

#[test]
fn the_next_token_replaces_the_literal() {
    let mut l = lexer("first second ;");
    assert_eq!(l.lex_single_token(), Ok(Token::LitIdentifier));
    assert_eq!(l.lex_single_token(), Ok(Token::LitIdentifier));
    assert_eq!(l.extract_literal(), Ok(&b"second"[..]));
    assert_eq!(l.lex_single_token(), Ok(Token::PuncSemi));
    assert_eq!(l.extract_literal(), Err(LexerError::NoLiteralToExtract));
}

#[test]
fn reading_without_taking_leaves_the_literal() {
    let mut l = lexer("abc");
    assert_eq!(l.extract_literal_copy(), Err(LexerError::NoLiteralToExtract));
    assert_eq!(l.lex_single_token(), Ok(Token::LitIdentifier));
    assert_eq!(l.extract_literal_copy(), Ok(&b"abc"[..]));
    assert_eq!(l.extract_literal_copy(), Ok(&b"abc"[..]));
    assert_eq!(l.extract_literal(), Ok(&b"abc"[..]));
    assert_eq!(l.extract_literal_copy(), Err(LexerError::NoLiteralToExtract));
}

#[test]
fn a_copy_of_a_lexer_has_no_literal_pending() {
    let mut l = lexer("abc def");
    assert_eq!(l.lex_single_token(), Ok(Token::LitIdentifier));
    let mut copy = l.clone();
    assert_eq!(copy.index(), 3);
    assert_eq!(copy.start(), 0);
    assert_eq!(copy.get_line_column(), (1, 3));
    assert_eq!(copy.extract_literal(), Err(LexerError::NoLiteralToExtract));
    assert_eq!(l.extract_literal(), Ok(&b"abc"[..]));
    assert_eq!(copy.lex_single_token(), Ok(Token::LitIdentifier));
    assert_eq!(copy.extract_literal(), Ok(&b"def"[..]));
}

#[test]
fn the_longest_operator_wins() {
    let cases: [(&str, &[Token]); 30] = [
        ("<", &[Token::PuncLt]),
        ("<<", &[Token::PuncShl]),
        ("<<=", &[Token::PuncShlEq]),
        ("<=", &[Token::PuncLtEq]),
        ("<<<", &[Token::PuncShl, Token::PuncLt]),
        ("<<<<", &[Token::PuncShl, Token::PuncShl]),
        ("<<==", &[Token::PuncShlEq, Token::PuncEq]),
        ("<=<", &[Token::PuncLtEq, Token::PuncLt]),
        ("<==", &[Token::PuncLtEq, Token::PuncEq]),
        (">", &[Token::PuncGt]),
        (">>", &[Token::PuncShr]),
        (">>=", &[Token::PuncShrEq]),
        (">=", &[Token::PuncGtEq]),
        (">>>", &[Token::PuncShr, Token::PuncGt]),
        (">>>=", &[Token::PuncShr, Token::PuncGtEq]),
        ("<>", &[Token::PuncLt, Token::PuncGt]),
        ("-", &[Token::PuncMinus]),
        ("->", &[Token::PuncArrowRight]),
        ("-=", &[Token::PuncMinusEq]),
        ("--", &[Token::PuncMinus, Token::PuncMinus]),
        ("->=", &[Token::PuncArrowRight, Token::PuncEq]),
        ("-->", &[Token::PuncMinus, Token::PuncArrowRight]),
        ("=", &[Token::PuncEq]),
        ("==", &[Token::PuncEqEq]),
        ("===", &[Token::PuncEqEq, Token::PuncEq]),
        ("!==", &[Token::PuncBangEq, Token::PuncEq]),
        ("+=+", &[Token::PuncPlusEq, Token::PuncPlus]),
        ("++=", &[Token::PuncPlus, Token::PuncPlusEq]),
        ("/=/", &[Token::PuncSlashEq, Token::PuncSlash]),
        ("/ /", &[Token::PuncSlash, Token::PuncSlash]),
    ];
    for (source, expected) in cases {
        let mut l = lexer(source);
        for token in expected {
            let before = l.index();
            assert_eq!(l.lex_single_token(), Ok(*token), "source {:?}", source);
            let skipped = if source.as_bytes()[before] == b' ' { 1 } else { 0 };
            assert_eq!(l.start(), before + skipped);
            assert_eq!(l.index() - l.start(), token.source_repr().len(), "source {:?}", source);
            assert_eq!(&source[l.start()..l.index()], token.source_repr());
        }
        assert_eq!(l.lex_single_token(), Err(LexerError::Eof), "source {:?}", source);
    }
}

#[test]
fn two_slashes_are_a_comment() {
    let mut l = lexer("//= not an operator\n/=");
    assert_eq!(l.lex_single_token(), Ok(Token::PuncSlashEq));
    assert_eq!(l.start(), 20);
    assert_eq!(l.get_line_column(), (2, 3));
    assert_eq!(l.lex_single_token(), Err(LexerError::Eof));
}

#[test]
fn a_plain_string_comes_back_byte_for_byte() {
    let mut body = String::new();
    for b in 0u8..0x80 {
        if b != b'"' && b != b'\\' {
            body.push(b as char);
        }
    }
    assert_eq!(body.len(), 126);
    let source = format!("\"{}\"", body);
    let mut l = lexer(&source);
    assert_eq!(l.lex_single_token(), Ok(Token::LitStr));
    assert!(l.is_at_end());
    assert_eq!(l.start(), 0);
    assert_eq!(l.index(), 128);
    assert_eq!(l.extract_literal(), Ok(body.as_bytes()));
    assert_eq!(l.lex_single_token(), Err(LexerError::Eof));
}

#[test]
fn a_string_may_hold_bytes_that_are_not_ascii() {
    let source = "\"größe → 東京\"";
    let mut l = lexer(source);
    assert_eq!(l.lex_single_token(), Ok(Token::LitStr));
    assert!(l.is_at_end());
    assert_eq!(l.extract_literal(), Ok("größe → 東京".as_bytes()));
}

#[test]
fn the_empty_string_has_an_empty_literal() {
    let mut l = lexer("\"\"");
    assert_eq!(l.lex_single_token(), Ok(Token::LitStr));
    assert_eq!(l.extract_literal(), Ok(&b""[..]));
    assert_eq!(l.extract_literal(), Err(LexerError::NoLiteralToExtract));
}

#[test]
fn digit_runs() {
    let mut l = lexer("48545");
    assert_eq!(l.lex_single_token(), Ok(Token::LitInteger));
    assert_eq!(l.extract_literal(), Ok(&b"48545"[..]));
    assert!(l.is_at_end());
    assert_eq!(l.lex_single_token(), Err(LexerError::Eof));

    let mut l = lexer("2485.1");
    assert_eq!(l.lex_single_token(), Ok(Token::LitFloat));
    assert_eq!(l.extract_literal(), Ok(&b"2485.1"[..]));
    assert!(l.is_at_end());
    assert_eq!(l.lex_single_token(), Err(LexerError::Eof));

    let mut l = lexer("2485.");
    assert_eq!(l.lex_single_token(), Err(LexerError::UnexpectedEofWhile(Token::LitFloat)));
    assert!(l.is_at_end());
    assert_eq!(l.index(), 5);
    assert_eq!(l.extract_literal(), Err(LexerError::NoLiteralToExtract));
}

#[test]
fn a_float_ends_at_its_last_digit() {
    let mut l = lexer("3.14.15");
    assert_eq!(l.lex_single_token(), Ok(Token::LitFloat));
    assert_eq!(l.extract_literal(), Ok(&b"3.14"[..]));
    assert_eq!(l.index(), 4);
    assert_eq!(l.lex_single_token(), Ok(Token::PuncDot));
    assert_eq!(l.lex_single_token(), Ok(Token::LitInteger));
    assert_eq!(l.extract_literal(), Ok(&b"15"[..]));

    let mut l = lexer("0.5abs");
    assert_eq!(l.lex_single_token(), Ok(Token::LitFloat));
    assert_eq!(l.extract_literal(), Ok(&b"0.5"[..]));
    assert_eq!(l.lex_single_token(), Ok(Token::LitIdentifier));
    assert_eq!(l.extract_literal(), Ok(&b"abs"[..]));
}

#[test]
fn what_follows_the_dot_of_an_integer() {
    let mut l = lexer("10. abs()");
    assert_eq!(
        l.lex_single_token(),
        Err(LexerError::NotYetSupported(UnsupportedFeature::WhitespaceAfterIntegerDot))
    );
    assert_eq!((l.start(), l.index()), (0, 3));

    let mut l = lexer("10.\nabs()");
    assert_eq!(
        l.lex_single_token(),
        Err(LexerError::NotYetSupported(UnsupportedFeature::WhitespaceAfterIntegerDot))
    );
    assert_eq!((l.start(), l.index()), (0, 3));

    let mut l = lexer("10.abs()");
    assert_eq!(
        l.lex_single_token(),
        Err(LexerError::NotYetSupported(UnsupportedFeature::MethodCallOnInteger))
    );
    assert_eq!((l.start(), l.index()), (0, 3));
    assert_eq!(l.lex_single_token(), Ok(Token::LitIdentifier));
    assert_eq!(l.extract_literal(), Ok(&b"abs"[..]));

    let mut l = lexer("10._x");
    assert_eq!(
        l.lex_single_token(),
        Err(LexerError::NotYetSupported(UnsupportedFeature::MethodCallOnInteger))
    );

    let mut l = lexer("10.!");
    assert_eq!(l.lex_single_token(), Err(LexerError::UnexpectedEofWhile(Token::LitFloat)));
    assert_eq!((l.start(), l.index()), (0, 3));
    assert_eq!(l.lex_single_token(), Ok(Token::PuncBang));

    let mut l = lexer("10..5");
    assert_eq!(l.lex_single_token(), Err(LexerError::UnexpectedEofWhile(Token::LitFloat)));
    assert_eq!((l.start(), l.index()), (0, 3));
}

#[test]
fn reserved_words_and_names() {
    let mut l = lexer("let");
    assert_eq!(l.lex_single_token(), Ok(Token::KwLet));
    assert_eq!(l.extract_literal(), Err(LexerError::NoLiteralToExtract));

    let mut l = lexer("letter");
    assert_eq!(l.lex_single_token(), Ok(Token::LitIdentifier));
    assert_eq!(l.extract_literal(), Ok(&b"letter"[..]));

    for name in ["_", "_1", "__"] {
        let mut l = lexer(name);
        assert_eq!(l.lex_single_token(), Ok(Token::LitIdentifier));
        assert_eq!(l.extract_literal(), Ok(name.as_bytes()));
        assert!(l.is_at_end());
    }
}

#[test]
fn every_reserved_word_is_recognised() {
    let words = [
        ("let", Token::KwLet),
        ("fn", Token::KwFn),
        ("return", Token::KwReturn),
        ("extern", Token::KwExtern),
        ("const", Token::KwConst),
        ("mut", Token::KwMut),
        ("anymut", Token::KwAnymut),
        ("compiletime", Token::KwCompiletime),
        ("runtime", Token::KwRuntime),
        ("static", Token::KwStatic),
        ("type", Token::KwType),
        ("cast", Token::KwCast),
        ("struct", Token::KwAdtStruct),
        ("enum", Token::KwAdtEnum),
        ("union", Token::KwAdtUnion),
        ("true", Token::KwTrue),
        ("false", Token::KwFalse),
        ("uninit", Token::LitUninit),
    ];
    for (word, token) in words {
        let mut l = lexer(word);
        assert_eq!(l.lex_single_token(), Ok(token), "{}", word);
        assert!(l.is_at_end());
        assert_eq!(l.extract_literal(), Err(LexerError::NoLiteralToExtract));

        // one byte more, one byte less, or another case, and it is a name
        let longer = format!("{}s", word);
        let mut l = lexer(&longer);
        assert_eq!(l.lex_single_token(), Ok(Token::LitIdentifier), "{}", longer);
        assert_eq!(l.extract_literal(), Ok(longer.as_bytes()));

        let shorter = &word[..word.len() - 1];
        let mut l = lexer(shorter);
        assert_eq!(l.lex_single_token(), Ok(Token::LitIdentifier), "{}", shorter);
        assert_eq!(l.extract_literal(), Ok(shorter.as_bytes()));

        let upper = word.to_uppercase();
        let mut l = lexer(&upper);
        assert_eq!(l.lex_single_token(), Ok(Token::LitIdentifier), "{}", upper);

        for cut in 1..word.len() {
            let mut l = lexer(&word[..cut]);
            assert_eq!(l.lex_single_token(), Ok(Token::LitIdentifier), "{}", &word[..cut]);
        }
    }
}

#[test]
fn escapes_are_kept_raw() {
    let mut l = lexer("\"a\\nb\"");
    assert_eq!(l.lex_single_token(), Ok(Token::LitStr));
    assert_eq!(l.extract_literal(), Ok(&b"a\\nb"[..]));

    let mut l = lexer("'\\m'");
    assert_eq!(l.lex_single_token(), Err(LexerError::InvalidEscapeSequence));
    assert!(l.is_at_end());

    let mut l = lexer("'\\m");
    assert_eq!(l.lex_single_token(), Err(LexerError::UnexpectedEofWhile(Token::LitChar)));
    assert!(l.is_at_end());

    let mut l = lexer("'\\mf'");
    assert_eq!(l.lex_single_token(), Err(LexerError::UnclosedCharLiteral));
    assert_eq!((l.start(), l.index()), (0, 4));
}

#[test]
fn every_escape_is_valid_in_both_literals() {
    for escape in ["\\\"", "\\'", "\\t", "\\n", "\\r", "\\0", "\\\\"] {
        let source = format!("\"x{}y\"", escape);
        let mut l = lexer(&source);
        assert_eq!(l.lex_single_token(), Ok(Token::LitStr), "{}", source);
        assert_eq!(l.extract_literal(), Ok(format!("x{}y", escape).as_bytes()));
        assert!(l.is_at_end());

        let source = format!("'{}'", escape);
        let mut l = lexer(&source);
        assert_eq!(l.lex_single_token(), Ok(Token::LitChar), "{}", source);
        assert_eq!(l.extract_literal(), Ok(escape.as_bytes()));
        assert!(l.is_at_end());
    }
}

#[test]
fn byte_escapes_are_not_supported_yet() {
    let mut l = lexer("\"ab\\x41\" rest");
    assert_eq!(
        l.lex_single_token(),
        Err(LexerError::NotYetSupported(UnsupportedFeature::ByteEscape))
    );
    // the backslash and the x are consumed
    assert_eq!((l.start(), l.index()), (0, 5));

    let mut l = lexer("'\\x41'");
    assert_eq!(
        l.lex_single_token(),
        Err(LexerError::NotYetSupported(UnsupportedFeature::ByteEscape))
    );
    // only the opening quote is consumed
    assert_eq!((l.start(), l.index()), (0, 1));
}

#[test]
fn an_invalid_escape_in_a_string_reads_on_to_its_end() {
    let mut l = lexer("\"a\\qb\\\"c\" next");
    assert_eq!(l.lex_single_token(), Err(LexerError::InvalidEscapeSequence));
    assert_eq!((l.start(), l.index()), (0, 9));
    assert_eq!(l.extract_literal(), Err(LexerError::NoLiteralToExtract));
    assert_eq!(l.lex_single_token(), Ok(Token::LitIdentifier));
    assert_eq!(l.extract_literal(), Ok(&b"next"[..]));

    // behind an invalid escape even a byte escape is passed over
    let mut l = lexer("\"\\q\\x\" ;");
    assert_eq!(l.lex_single_token(), Err(LexerError::InvalidEscapeSequence));
    assert_eq!(l.index(), 6);
    assert_eq!(l.lex_single_token(), Ok(Token::PuncSemi));

    let mut l = lexer("\"\\q never closed");
    assert_eq!(l.lex_single_token(), Err(LexerError::UnexpectedEofWhile(Token::LitStr)));
    assert!(l.is_at_end());

    let mut l = lexer("\"\\q\\");
    assert_eq!(l.lex_single_token(), Err(LexerError::UnexpectedEofWhile(Token::LitStr)));
    assert!(l.is_at_end());
}

#[test]
fn character_literals() {
    let mut l = lexer("'ab'");
    assert_eq!(l.lex_single_token(), Err(LexerError::InvalidCharacter));
    assert_eq!((l.start(), l.index()), (0, 3));

    let mut l = lexer("''");
    assert_eq!(l.lex_single_token(), Err(LexerError::UnexpectedEofWhile(Token::LitChar)));
    assert!(l.is_at_end());

    let mut l = lexer("'''");
    assert_eq!(l.lex_single_token(), Ok(Token::LitChar));
    assert_eq!(l.extract_literal(), Ok(&b"'"[..]));

    let mut l = lexer("'\"'");
    assert_eq!(l.lex_single_token(), Ok(Token::LitChar));
    assert_eq!(l.extract_literal(), Ok(&b"\""[..]));

    let mut l = lexer("'\n'");
    assert_eq!(l.lex_single_token(), Ok(Token::LitChar));
    assert_eq!(l.extract_literal(), Ok(&b"\n"[..]));
    assert_eq!(l.get_line_column(), (2, 2));
}

#[test]
fn invalid_bytes_alone() {
    for b in 0u8..0x80 {
        let byte = [b];
        let source = std::str::from_utf8(&byte).unwrap();
        let mut l = lexer(source);
        let result = l.lex_single_token();
        let invalid = match b {
            b'\t' | b'\n' | b'\r' | b' ' => false,
            0x00..=0x1f | 0x7f => true,
            b'#' | b'$' | b'?' | b'@' | b'\\' | b'`' | b'~' => true,
            _ => false,
        };
        assert_eq!(result == Err(LexerError::InvalidCharacter), invalid, "byte {}", b);
        if invalid {
            assert_eq!((l.start(), l.index()), (0, 1));
            assert_eq!(l.extract_literal(), Err(LexerError::NoLiteralToExtract));
            assert_eq!(l.lex_single_token(), Err(LexerError::Eof));
        }
    }
}

#[test]
fn bytes_that_are_not_ascii_are_invalid_one_by_one() {
    for source in ["\u{80}", "é", "ÿ", "東", "🦀", "\u{10ffff}"] {
        let mut l = lexer(source);
        for k in 0..source.len() {
            assert!(source.as_bytes()[k] >= 0x80);
            assert_eq!(l.lex_single_token(), Err(LexerError::InvalidCharacter));
            assert_eq!((l.start(), l.index()), (k, k + 1));
        }
        assert_eq!(l.lex_single_token(), Err(LexerError::Eof));
    }
}

#[test]
fn every_byte_value_above_del_is_invalid() {
    // all of 0x80..=0xff but 0xc0, 0xc1 and 0xf5..=0xff occur in UTF-8
    let mut seen = [false; 256];
    let mut text = String::new();
    for c in ['\u{80}', '\u{7ff}', '\u{800}', '\u{ffff}', '\u{10000}', '\u{10ffff}'] {
        text.push(c);
    }
    for lead in 0xc2u32..=0xdf {
        text.push(char::from_u32((lead - 0xc0) << 6).unwrap());
    }
    for lead in 0xe0u32..=0xef {
        // U+D800 starts the surrogates, which are no characters
        let low = if lead == 0xed { 0 } else { 0x0800 };
        text.push(char::from_u32(((lead - 0xe0) << 12) | low).unwrap());
    }
    for lead in 0xf1u32..=0xf3 {
        text.push(char::from_u32((lead - 0xf0) << 18).unwrap());
    }
    for low in 0x80u32..=0xbf {
        text.push(char::from_u32(0x0080 + (low - 0x80)).unwrap());
    }
    for b in text.as_bytes() {
        seen[*b as usize] = true;
    }
    let mut l = lexer(&text);
    let mut count = 0;
    while !l.is_at_end() {
        assert_eq!(l.lex_single_token(), Err(LexerError::InvalidCharacter));
        count += 1;
    }
    assert_eq!(count, text.len());
    for b in 0x80..0xc0 {
        assert!(seen[b], "byte {}", b);
    }
    for b in 0xc2..0xf5 {
        assert!(seen[b], "byte {}", b);
    }
}

#[test]
fn the_sequence_ends_at_every_error_alike() {
    let mut l = lexer("a $ b");
    assert_eq!(l.next(), Some(Token::LitIdentifier));
    assert_eq!(l.next(), None);
    assert_eq!((l.start(), l.index()), (2, 3));
    // the sequence has ended: it gives no token any more and reads nothing
    assert_eq!(l.next(), None);
    assert_eq!(l.next(), None);
    assert_eq!((l.start(), l.index()), (2, 3));
    assert!(!l.is_at_end());
}

#[test]
fn the_sequence_does_not_go_on_behind_a_bad_byte() {
    let mut l = lexer("# x");
    assert_eq!(l.next(), None);
    assert_eq!((l.start(), l.index()), (0, 1));
    assert_eq!(l.next(), None);
    assert_eq!((l.start(), l.index()), (0, 1));
    assert_eq!(l.get_line_column(), (1, 1));
}

#[test]
fn the_sequence_ends_at_the_end_of_the_stream() {
    let mut l = lexer("a b ");
    assert_eq!(l.next(), Some(Token::LitIdentifier));
    assert_eq!(l.next(), Some(Token::LitIdentifier));
    assert_eq!(l.extract_literal(), Ok(&b"b"[..]));
    assert_eq!(l.next(), None);
    assert!(l.is_at_end());
    assert_eq!(l.next(), None);
    assert_eq!(l.index(), 4);

    let mut l = lexer("");
    assert_eq!(l.next(), None);
    assert_eq!(l.next(), None);
}

#[test]
fn single_requests_take_no_notice_of_the_sequence() {
    let mut l = lexer("a $ b c");
    assert_eq!(l.next(), Some(Token::LitIdentifier));
    assert_eq!(l.next(), None);
    // a single request goes on behind the bad byte
    assert_eq!(l.lex_single_token(), Ok(Token::LitIdentifier));
    assert_eq!(l.extract_literal(), Ok(&b"b"[..]));
    // and the sequence stays ended
    assert_eq!(l.next(), None);
    assert_eq!(l.index(), 5);
    assert_eq!(l.lex_single_token(), Ok(Token::LitIdentifier));
    assert_eq!(l.extract_literal(), Ok(&b"c"[..]));
    assert_eq!(l.lex_single_token(), Err(LexerError::Eof));
    assert_eq!(l.next(), None);
}

#[test]
fn an_ended_sequence_is_ended_in_a_copy() {
    let mut l = lexer("$ a");
    assert_eq!(l.next(), None);
    let mut copy = l.clone();
    assert_eq!(copy.next(), None);
    assert_eq!(copy.index(), 1);
    // a new lexer on the same source starts again
    let mut fresh = lexer("a $");
    assert_eq!(fresh.next(), Some(Token::LitIdentifier));
}

#[test]
fn a_token_starts_at_its_first_byte() {
    let mut l = lexer("  \"abc\" 'x' 12");
    assert_eq!(l.lex_single_token(), Ok(Token::LitStr));
    assert_eq!((l.start(), l.index()), (2, 7));
    assert_eq!(l.slice_here(), b"\"abc\"");
    assert_eq!(l.extract_literal(), Ok(&b"abc"[..]));
    assert_eq!(l.lex_single_token(), Ok(Token::LitChar));
    assert_eq!((l.start(), l.index()), (8, 11));
    assert_eq!(l.slice_here(), b"'x'");
    assert_eq!(l.lex_single_token(), Ok(Token::LitInteger));
    assert_eq!((l.start(), l.index()), (12, 14));
}
