use source_lexer::lexer::{Lexer, LexerError};
use source_lexer::source_code::SourceCode;
use source_lexer::types::Token;

#[test]
fn subsequent_peek_and_advance_never_none() {
    let source = "hi";
    let mut lexer = Lexer::new(SourceCode::new(source));

    assert!(!lexer.is_at_end());
    assert_eq!(lexer.peek(), Some(b'h'));
    assert_eq!(lexer.advance(), Some(b'h'));

    assert!(!lexer.is_at_end());
    assert_eq!(lexer.peek(), Some(b'i'));
    assert_eq!(lexer.advance(), Some(b'i'));

    assert!(lexer.is_at_end());

    let index = lexer.index();

    assert_eq!(lexer.peek(), None);
    assert_eq!(lexer.advance(), None);

    assert_eq!(lexer.index(), index);
}

#[test]
fn lexer_accessors_work() {
    let mut lexer = Lexer::new(SourceCode::new("let x = 42;"));
    assert_eq!(lexer.index(), lexer.clone().index());
    assert_eq!(lexer.index(), 0);
    assert_eq!(lexer.start(), lexer.clone().start());
    assert_eq!(lexer.start(), 0);
    assert_eq!(lexer.get_line_column(), (1, 0));

    assert_eq!(lexer.next(), Some(Token::KwLet));
    assert_eq!(lexer.start(), 0);
    assert_eq!(lexer.index(), 3);

    assert_eq!(lexer.next(), Some(Token::LitIdentifier));
    assert_eq!(lexer.start(), 4);
    assert_eq!(lexer.index(), 5);
    assert_eq!(lexer.extract_literal(), Ok(&b"x"[..]));
}

#[test]
fn bytelevel_peek() {
    let source = "hi";
    let mut lexer = Lexer::new(SourceCode::new(source));

    assert!(!lexer.is_at_end());

    assert_eq!(lexer.peek(), Some(b'h'));
    assert_eq!(lexer.peek_default(), b'h');
    // within bounds
    assert_eq!(lexer.peek_unchecked(), b'h');

    assert_eq!(lexer.clone().advance(), Some(b'h'));
    assert_eq!(lexer.clone().advance_default(), b'h');
    // within bounds
    assert_eq!(lexer.clone().advance_unchecked(), b'h');

    {
        let mut lexer = lexer.clone();
        assert_eq!(lexer.matches(b'h'), Some(true));
        assert_eq!(lexer.index(), 1);
    };
    {
        let mut lexer = lexer.clone();
        assert_eq!(lexer.matches(b'x'), Some(false));
        assert_eq!(lexer.index(), 0);
    };
    {
        let mut lexer = lexer.clone();
        assert!(lexer.matches_default(b'h'));
        assert_eq!(lexer.index(), 1);
    };
    {
        let mut lexer = lexer.clone();
        assert!(!lexer.matches_default(b'x'));
        assert_eq!(lexer.index(), 0);
    };

    lexer.advance();

    assert_eq!(lexer.index(), 1);

    assert_eq!(lexer.peek(), Some(b'i'));
    assert_eq!(lexer.peek_default(), b'i');
    // within bounds
    assert_eq!(lexer.peek_unchecked(), b'i');

    lexer.advance();

    assert_eq!(lexer.index(), 2);

    assert_eq!(lexer.peek(), None);
    assert_eq!(lexer.peek_default(), 0);

    assert_eq!(lexer.advance(), None);
    assert_eq!(lexer.advance_default(), 0);

    assert!(lexer.is_at_end());

    // the cursor may stand at the end of the source
    let slice = lexer.slice_here();
    assert_eq!(slice, b"hi");
}

#[test]
fn lexes_strings_anc_charlits() {
    let text = r#"
            "10 string \" ends here ->"
            'V'
        "#;
    let mut lexer = Lexer::new(SourceCode::new(text));
    assert_eq!(lexer.lex_single_token(), Ok(Token::LitStr));
    assert_eq!(lexer.extract_literal(), Ok(&b"10 string \\\" ends here ->"[..]));
    assert_eq!(lexer.lex_single_token(), Ok(Token::LitChar));
    assert_eq!(lexer.extract_literal(), Ok(&b"V"[..]));

    let fail1 = r#"
            "unterminated
        "#;
    let mut lexer = Lexer::new(SourceCode::new(fail1));
    assert_eq!(lexer.lex_single_token(), Err(LexerError::UnexpectedEofWhile(Token::LitStr)));
    assert_eq!(lexer.extract_literal(), Err(LexerError::NoLiteralToExtract));

    let fail2 = r#"
            'v
        "#;
    let mut lexer = Lexer::new(SourceCode::new(fail2));
    assert_eq!(lexer.lex_single_token(), Err(LexerError::InvalidCharacter));
    assert_eq!(lexer.extract_literal(), Err(LexerError::NoLiteralToExtract));
}
