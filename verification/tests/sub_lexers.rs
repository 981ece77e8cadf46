use source_lexer::lexer::lexer_impls;
use source_lexer::lexer::{Lexer, LexerError};
use source_lexer::source_code::SourceCode;
use source_lexer::types::Token;

#[test]
fn lexes_identifier_correctly() {
    let expected = [Token::KwConst, Token::LitIdentifier, Token::KwType, Token::LitIdentifier];

    ["const", "_my_struct", "type", "conster"]
        .into_iter()
        .map(|s| {
            let mut l = Lexer::new(SourceCode::new(s));
            l.advance();
            // the first byte is consumed and starts a name
            l.lex_identifier()
        })
        .zip(expected)
        .for_each(|(got, expected)| {
            assert_eq!(got, expected);
        });
}

#[test]
fn lexes_number_literals() {
    let source = "927364";
    let mut lexer = Lexer::new(SourceCode::new(source));
    assert!(matches!(
        lexer.advance(),
        Some(c) if lexer_impls::numbers::is_valid_digit(c)
    ));

    // the first byte is consumed and is a digit
    assert_eq!(lexer.lex_ambiguous_number_literal(), Ok(Token::LitInteger));
    assert_eq!(lexer.extract_literal(), Ok(&b"927364"[..]));

    let source = "10.3";
    let mut lexer = Lexer::new(SourceCode::new(source));
    assert!(matches!(
        lexer.advance(),
        Some(c) if lexer_impls::numbers::is_valid_digit(c)
    ));

    // the first byte is consumed and is a digit
    assert_eq!(lexer.lex_ambiguous_number_literal(), Ok(Token::LitFloat));
    assert_eq!(lexer.extract_literal(), Ok(&b"10.3"[..]));

    let invalid = "10.sdf";
    let mut lexer = Lexer::new(SourceCode::new(invalid));
    assert!(matches!(
        lexer.advance(),
        Some(c) if lexer_impls::numbers::is_valid_digit(c)
    ));

    assert!(lexer.lex_single_token().is_err());
    assert_eq!(lexer.extract_literal(), Err(LexerError::NoLiteralToExtract));
}

#[test]
fn litchar_extensive() {
    let text = "'\\mf";
    let mut l = Lexer::new(SourceCode::new(text));
    assert_eq!(l.lex_single_token(), Err(LexerError::UnclosedCharLiteral));
    assert!(l.is_at_end());

    let text = "'\\m'";
    let mut l = Lexer::new(SourceCode::new(text));
    assert_eq!(l.lex_single_token(), Err(LexerError::InvalidEscapeSequence));
    assert!(l.is_at_end());

    let text = "'\\m";
    let mut l = Lexer::new(SourceCode::new(text));
    assert_eq!(l.lex_single_token(), Err(LexerError::UnexpectedEofWhile(Token::LitChar)));
    assert!(l.is_at_end());
}

#[test]
fn quoted_string_invalid_invalid() {
    let text = r#"
        "\m\m""#;
    let mut l = Lexer::new(SourceCode::new(text));
    assert_eq!(l.lex_single_token(), Err(LexerError::InvalidEscapeSequence));
    assert!(l.is_at_end());
    let text = r#"
        "\m\"   ""#;
    let mut l = Lexer::new(SourceCode::new(text));
    assert_eq!(l.lex_single_token(), Err(LexerError::InvalidEscapeSequence));
    assert!(l.is_at_end());
    let text = r#""\m\n"#;
    let mut l = Lexer::new(SourceCode::new(text));
    assert_eq!(l.lex_single_token(), Err(LexerError::UnexpectedEofWhile(Token::LitStr)));
    assert!(l.is_at_end(), "source: `{}`, lexer:\n\t{}", text, l.get_lexer_debug_state());
}

#[test]
fn skips_whitespace_correctly() {
    let source = "
            hi
            // residual
        ";

    let mut lexer = Lexer::new(SourceCode::new(source));

    lexer.skip_whitespace();
    assert!(!lexer.is_at_end());
    assert!(lexer.matches_bytes(b"hi"));
    assert!(!lexer.is_at_end());
    assert_eq!(lexer.peek(), Some(b'\n'));

    lexer.skip_whitespace();
    assert!(lexer.is_at_end());
    assert_eq!(lexer.peek(), None);
}

#[test]
fn general_test() {
    let source = "
        // ! . = < >> : == let fn return runtime extern enum const compiletime cast mut anymut
        // static struct type union
        // uninit

        let my_custom_function_name1 = fn __secret() -> fn() {
            return runtime {
                extern fn bob() {
                    enum Thingamabob {
                        __variant1,
                        __variant2,
                    };

                    let variant: const u8 = compiletime { __variant1 cast u8 };
                    let v2: mut u8 = 0;
                    v2 = 1;
                    let v3: anymut static u8 = 0;
                }
            };
        };

        struct Lol {
            ty: type,
            un: myunion,
        };

        union myunion {
            num64: u64,
            num32: u32,
        };
        let name: literal = \"quit smoking\";
        let byte: u8 = '5';
        let mynum: mut literal = 1359135;
        let uninitthing: mut u64 = uninit;
        let cond: mut bool = false;
        let cond2: mut bool = true;
        if cond == true {
            mynum = mynum + 1;
        } else {
            mynum = mynum - 1;
        };
        let floatlt = 3.14159;
        ";

    let mut lexer = Lexer::new(SourceCode::new(source));
    let mut val: source_lexer::lexer::LexerResult<Token>;
    let mut line = String::new();
    loop {
        val = lexer.lex_single_token();
        if val == Err(LexerError::Eof) {
            break;
        }

        match val {
            Ok(t) => {
                if t.is_identifier_extractable() {
                    let ident = lexer.extract_literal().unwrap();
                    let str = std::str::from_utf8(ident).unwrap();
                    line.push_str(&format!("{} ", str));
                } else {
                    line.push_str(&format!("{} ", t.source_repr()));
                }
            }
            Err(e) => {
                panic!("lexer error: {:?}", e);
            }
        }
    }
    println!("{}", line);
}
