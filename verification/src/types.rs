use vstd::prelude::*;
use vstd::string::StringSliceAdditionalSpecFns;

verus! {

/// The lexical categories of the language.
///
/// Punctuation, brackets and reserved words have one fixed spelling each. The
/// five literal categories (`LitIdentifier`, `LitInteger`, `LitFloat`, `LitStr`,
/// `LitChar`) stand for many lexemes; the lexer keeps the bytes of the one it
/// scanned ready for extraction.
#[derive(Debug, Clone, Copy, PartialEq, Eq, Hash, Structural)]
pub enum Token {
    // punctuation and operators
    /// `.`
    PuncDot,
    /// `,`
    PuncComma,
    /// `;`
    PuncSemi,
    /// `:`
    PuncColon,
    /// `->`
    PuncArrowRight,
    /// `=`
    PuncEq,
    /// `==`
    PuncEqEq,
    /// `!`
    PuncBang,
    /// `!=`
    PuncBangEq,
    /// `<`
    PuncLt,
    /// `<=`
    PuncLtEq,
    /// `>`
    PuncGt,
    /// `>=`
    PuncGtEq,
    /// `+`
    PuncPlus,
    /// `-`
    PuncMinus,
    /// `*`
    PuncStar,
    /// `/`
    PuncSlash,
    /// `%`
    PuncModulo,
    /// `&`
    PuncAnd,
    /// `|`
    PuncOr,
    /// `^`
    PuncXor,
    /// `<<`
    PuncShl,
    /// `>>`
    PuncShr,
    /// `+=`
    PuncPlusEq,
    /// `-=`
    PuncMinusEq,
    /// `*=`
    PuncStarEq,
    /// `/=`
    PuncSlashEq,
    /// `%=`
    PuncModuloEq,
    /// `&=`
    PuncAndEq,
    /// `|=`
    PuncOrEq,
    /// `^=`
    PuncXorEq,
    /// `<<=`
    PuncShlEq,
    /// `>>=`
    PuncShrEq,
    // brackets
    /// `(`
    IndentLParen,
    /// `)`
    IndentRParen,
    /// `{`
    IndentLBrace,
    /// `}`
    IndentRBrace,
    /// `[`
    IndentLBracket,
    /// `]`
    IndentRBracket,
    // tokens that carry a literal
    /// A name: a letter or `_`, then letters, digits and `_`.
    LitIdentifier,
    /// A run of decimal digits.
    LitInteger,
    /// Decimal digits, a dot, and at least one more decimal digit.
    LitFloat,
    /// A double-quoted string; escapes are kept raw.
    LitStr,
    /// A single-quoted character; an escape is kept raw.
    LitChar,
    // the keyword literal
    /// `uninit`
    LitUninit,
    // reserved words
    /// `let`
    KwLet,
    /// `fn`
    KwFn,
    /// `return`
    KwReturn,
    /// `extern`
    KwExtern,
    /// `const`
    KwConst,
    /// `mut`
    KwMut,
    /// `anymut`
    KwAnymut,
    /// `compiletime`
    KwCompiletime,
    /// `runtime`
    KwRuntime,
    /// `static`
    KwStatic,
    /// `type`
    KwType,
    /// `cast`
    KwCast,
    /// `struct`
    KwAdtStruct,
    /// `enum`
    KwAdtEnum,
    /// `union`
    KwAdtUnion,
    /// `true`
    KwTrue,
    /// `false`
    KwFalse,
}

impl Token {
    /// Every token, in declaration order.
    pub const ALL: [Token; 62] = [
        Token::PuncDot,
        Token::PuncComma,
        Token::PuncSemi,
        Token::PuncColon,
        Token::PuncArrowRight,
        Token::PuncEq,
        Token::PuncEqEq,
        Token::PuncBang,
        Token::PuncBangEq,
        Token::PuncLt,
        Token::PuncLtEq,
        Token::PuncGt,
        Token::PuncGtEq,
        Token::PuncPlus,
        Token::PuncMinus,
        Token::PuncStar,
        Token::PuncSlash,
        Token::PuncModulo,
        Token::PuncAnd,
        Token::PuncOr,
        Token::PuncXor,
        Token::PuncShl,
        Token::PuncShr,
        Token::PuncPlusEq,
        Token::PuncMinusEq,
        Token::PuncStarEq,
        Token::PuncSlashEq,
        Token::PuncModuloEq,
        Token::PuncAndEq,
        Token::PuncOrEq,
        Token::PuncXorEq,
        Token::PuncShlEq,
        Token::PuncShrEq,
        Token::IndentLParen,
        Token::IndentRParen,
        Token::IndentLBrace,
        Token::IndentRBrace,
        Token::IndentLBracket,
        Token::IndentRBracket,
        Token::LitIdentifier,
        Token::LitInteger,
        Token::LitFloat,
        Token::LitStr,
        Token::LitChar,
        Token::LitUninit,
        Token::KwLet,
        Token::KwFn,
        Token::KwReturn,
        Token::KwExtern,
        Token::KwConst,
        Token::KwMut,
        Token::KwAnymut,
        Token::KwCompiletime,
        Token::KwRuntime,
        Token::KwStatic,
        Token::KwType,
        Token::KwCast,
        Token::KwAdtStruct,
        Token::KwAdtEnum,
        Token::KwAdtUnion,
        Token::KwTrue,
        Token::KwFalse,
    ];

    /// The bytes of the token's text: its one spelling where it has a fixed one,
    /// and a sample lexeme for the five literal categories.
    pub open spec fn spelling(self) -> Seq<u8> {
        match self {
            Token::PuncDot => seq!['.' as u8],
            Token::PuncComma => seq![',' as u8],
            Token::PuncSemi => seq![';' as u8],
            Token::PuncColon => seq![':' as u8],
            Token::PuncArrowRight => seq!['-' as u8, '>' as u8],
            Token::PuncEq => seq!['=' as u8],
            Token::PuncEqEq => seq!['=' as u8, '=' as u8],
            Token::PuncBang => seq!['!' as u8],
            Token::PuncBangEq => seq!['!' as u8, '=' as u8],
            Token::PuncLt => seq!['<' as u8],
            Token::PuncLtEq => seq!['<' as u8, '=' as u8],
            Token::PuncGt => seq!['>' as u8],
            Token::PuncGtEq => seq!['>' as u8, '=' as u8],
            Token::PuncPlus => seq!['+' as u8],
            Token::PuncMinus => seq!['-' as u8],
            Token::PuncStar => seq!['*' as u8],
            Token::PuncSlash => seq!['/' as u8],
            Token::PuncModulo => seq!['%' as u8],
            Token::PuncAnd => seq!['&' as u8],
            Token::PuncOr => seq!['|' as u8],
            Token::PuncXor => seq!['^' as u8],
            Token::PuncShl => seq!['<' as u8, '<' as u8],
            Token::PuncShr => seq!['>' as u8, '>' as u8],
            Token::PuncPlusEq => seq!['+' as u8, '=' as u8],
            Token::PuncMinusEq => seq!['-' as u8, '=' as u8],
            Token::PuncStarEq => seq!['*' as u8, '=' as u8],
            Token::PuncSlashEq => seq!['/' as u8, '=' as u8],
            Token::PuncModuloEq => seq!['%' as u8, '=' as u8],
            Token::PuncAndEq => seq!['&' as u8, '=' as u8],
            Token::PuncOrEq => seq!['|' as u8, '=' as u8],
            Token::PuncXorEq => seq!['^' as u8, '=' as u8],
            Token::PuncShlEq => seq!['<' as u8, '<' as u8, '=' as u8],
            Token::PuncShrEq => seq!['>' as u8, '>' as u8, '=' as u8],
            Token::IndentLParen => seq!['(' as u8],
            Token::IndentRParen => seq![')' as u8],
            Token::IndentLBrace => seq!['{' as u8],
            Token::IndentRBrace => seq!['}' as u8],
            Token::IndentLBracket => seq!['[' as u8],
            Token::IndentRBracket => seq![']' as u8],
            Token::LitIdentifier => seq!['i' as u8, 'd' as u8, 'e' as u8, 'n' as u8, 't' as u8, 'i' as u8, 'f' as u8, 'i' as u8, 'e' as u8, 'r' as u8],
            Token::LitInteger => seq!['0' as u8],
            Token::LitFloat => seq!['0' as u8, '.' as u8, '0' as u8],
            Token::LitStr => seq!['"' as u8, '"' as u8],
            Token::LitChar => seq!['\'' as u8, 'c' as u8, '\'' as u8],
            Token::LitUninit => seq!['u' as u8, 'n' as u8, 'i' as u8, 'n' as u8, 'i' as u8, 't' as u8],
            Token::KwLet => seq!['l' as u8, 'e' as u8, 't' as u8],
            Token::KwFn => seq!['f' as u8, 'n' as u8],
            Token::KwReturn => seq!['r' as u8, 'e' as u8, 't' as u8, 'u' as u8, 'r' as u8, 'n' as u8],
            Token::KwExtern => seq!['e' as u8, 'x' as u8, 't' as u8, 'e' as u8, 'r' as u8, 'n' as u8],
            Token::KwConst => seq!['c' as u8, 'o' as u8, 'n' as u8, 's' as u8, 't' as u8],
            Token::KwMut => seq!['m' as u8, 'u' as u8, 't' as u8],
            Token::KwAnymut => seq!['a' as u8, 'n' as u8, 'y' as u8, 'm' as u8, 'u' as u8, 't' as u8],
            Token::KwCompiletime => seq!['c' as u8, 'o' as u8, 'm' as u8, 'p' as u8, 'i' as u8, 'l' as u8, 'e' as u8, 't' as u8, 'i' as u8, 'm' as u8, 'e' as u8],
            Token::KwRuntime => seq!['r' as u8, 'u' as u8, 'n' as u8, 't' as u8, 'i' as u8, 'm' as u8, 'e' as u8],
            Token::KwStatic => seq!['s' as u8, 't' as u8, 'a' as u8, 't' as u8, 'i' as u8, 'c' as u8],
            Token::KwType => seq!['t' as u8, 'y' as u8, 'p' as u8, 'e' as u8],
            Token::KwCast => seq!['c' as u8, 'a' as u8, 's' as u8, 't' as u8],
            Token::KwAdtStruct => seq!['s' as u8, 't' as u8, 'r' as u8, 'u' as u8, 'c' as u8, 't' as u8],
            Token::KwAdtEnum => seq!['e' as u8, 'n' as u8, 'u' as u8, 'm' as u8],
            Token::KwAdtUnion => seq!['u' as u8, 'n' as u8, 'i' as u8, 'o' as u8, 'n' as u8],
            Token::KwTrue => seq!['t' as u8, 'r' as u8, 'u' as u8, 'e' as u8],
            Token::KwFalse => seq!['f' as u8, 'a' as u8, 'l' as u8, 's' as u8, 'e' as u8],
        }
    }

    /// Whether the lexer keeps a literal for this token.
    pub open spec fn carries_literal(self) -> bool {
        self is LitIdentifier || self is LitInteger || self is LitFloat || self is LitStr
            || self is LitChar
    }

    /// The reserved words, `uninit` among them.
    pub open spec fn is_reserved_word(self) -> bool {
        match self {
            Token::KwLet
            | Token::KwFn
            | Token::KwReturn
            | Token::KwExtern
            | Token::KwConst
            | Token::KwMut
            | Token::KwAnymut
            | Token::KwCompiletime
            | Token::KwRuntime
            | Token::KwStatic
            | Token::KwType
            | Token::KwCast
            | Token::KwAdtStruct
            | Token::KwAdtEnum
            | Token::KwAdtUnion
            | Token::KwTrue
            | Token::KwFalse
            | Token::LitUninit => true,
            _ => false,
        }
    }

    /// The operators and separators, brackets not among them.
    pub open spec fn is_punctuation(self) -> bool {
        match self {
            Token::PuncDot
            | Token::PuncComma
            | Token::PuncSemi
            | Token::PuncColon
            | Token::PuncArrowRight
            | Token::PuncEq
            | Token::PuncEqEq
            | Token::PuncBang
            | Token::PuncBangEq
            | Token::PuncLt
            | Token::PuncLtEq
            | Token::PuncGt
            | Token::PuncGtEq
            | Token::PuncPlus
            | Token::PuncMinus
            | Token::PuncStar
            | Token::PuncSlash
            | Token::PuncModulo
            | Token::PuncAnd
            | Token::PuncOr
            | Token::PuncXor
            | Token::PuncShl
            | Token::PuncShr
            | Token::PuncPlusEq
            | Token::PuncMinusEq
            | Token::PuncStarEq
            | Token::PuncSlashEq
            | Token::PuncModuloEq
            | Token::PuncAndEq
            | Token::PuncOrEq
            | Token::PuncXorEq
            | Token::PuncShlEq
            | Token::PuncShrEq => true,
            _ => false,
        }
    }

    /// The six bracket tokens.
    pub open spec fn is_bracket(self) -> bool {
        match self {
            Token::IndentLParen
            | Token::IndentRParen
            | Token::IndentLBrace
            | Token::IndentRBrace
            | Token::IndentLBracket
            | Token::IndentRBracket => true,
            _ => false,
        }
    }

    /// The token's text, see [`Token::spelling`].
    pub fn source_repr(&self) -> (text: &'static str)
        ensures
            text.spec_bytes() == self.spelling(),
            text.is_ascii(),
    {
        match self {
            Token::PuncDot => {
                proof {
                    reveal_strlit(".");
                    lemma_ascii_text(".", self.spelling());
                }
                "."
            },
            Token::PuncComma => {
                proof {
                    reveal_strlit(",");
                    lemma_ascii_text(",", self.spelling());
                }
                ","
            },
            Token::PuncSemi => {
                proof {
                    reveal_strlit(";");
                    lemma_ascii_text(";", self.spelling());
                }
                ";"
            },
            Token::PuncColon => {
                proof {
                    reveal_strlit(":");
                    lemma_ascii_text(":", self.spelling());
                }
                ":"
            },
            Token::PuncArrowRight => {
                proof {
                    reveal_strlit("->");
                    lemma_ascii_text("->", self.spelling());
                }
                "->"
            },
            Token::PuncEq => {
                proof {
                    reveal_strlit("=");
                    lemma_ascii_text("=", self.spelling());
                }
                "="
            },
            Token::PuncEqEq => {
                proof {
                    reveal_strlit("==");
                    lemma_ascii_text("==", self.spelling());
                }
                "=="
            },
            Token::PuncBang => {
                proof {
                    reveal_strlit("!");
                    lemma_ascii_text("!", self.spelling());
                }
                "!"
            },
            Token::PuncBangEq => {
                proof {
                    reveal_strlit("!=");
                    lemma_ascii_text("!=", self.spelling());
                }
                "!="
            },
            Token::PuncLt => {
                proof {
                    reveal_strlit("<");
                    lemma_ascii_text("<", self.spelling());
                }
                "<"
            },
            Token::PuncLtEq => {
                proof {
                    reveal_strlit("<=");
                    lemma_ascii_text("<=", self.spelling());
                }
                "<="
            },
            Token::PuncGt => {
                proof {
                    reveal_strlit(">");
                    lemma_ascii_text(">", self.spelling());
                }
                ">"
            },
            Token::PuncGtEq => {
                proof {
                    reveal_strlit(">=");
                    lemma_ascii_text(">=", self.spelling());
                }
                ">="
            },
            Token::PuncPlus => {
                proof {
                    reveal_strlit("+");
                    lemma_ascii_text("+", self.spelling());
                }
                "+"
            },
            Token::PuncMinus => {
                proof {
                    reveal_strlit("-");
                    lemma_ascii_text("-", self.spelling());
                }
                "-"
            },
            Token::PuncStar => {
                proof {
                    reveal_strlit("*");
                    lemma_ascii_text("*", self.spelling());
                }
                "*"
            },
            Token::PuncSlash => {
                proof {
                    reveal_strlit("/");
                    lemma_ascii_text("/", self.spelling());
                }
                "/"
            },
            Token::PuncModulo => {
                proof {
                    reveal_strlit("%");
                    lemma_ascii_text("%", self.spelling());
                }
                "%"
            },
            Token::PuncAnd => {
                proof {
                    reveal_strlit("&");
                    lemma_ascii_text("&", self.spelling());
                }
                "&"
            },
            Token::PuncOr => {
                proof {
                    reveal_strlit("|");
                    lemma_ascii_text("|", self.spelling());
                }
                "|"
            },
            Token::PuncXor => {
                proof {
                    reveal_strlit("^");
                    lemma_ascii_text("^", self.spelling());
                }
                "^"
            },
            Token::PuncShl => {
                proof {
                    reveal_strlit("<<");
                    lemma_ascii_text("<<", self.spelling());
                }
                "<<"
            },
            Token::PuncShr => {
                proof {
                    reveal_strlit(">>");
                    lemma_ascii_text(">>", self.spelling());
                }
                ">>"
            },
            Token::PuncPlusEq => {
                proof {
                    reveal_strlit("+=");
                    lemma_ascii_text("+=", self.spelling());
                }
                "+="
            },
            Token::PuncMinusEq => {
                proof {
                    reveal_strlit("-=");
                    lemma_ascii_text("-=", self.spelling());
                }
                "-="
            },
            Token::PuncStarEq => {
                proof {
                    reveal_strlit("*=");
                    lemma_ascii_text("*=", self.spelling());
                }
                "*="
            },
            Token::PuncSlashEq => {
                proof {
                    reveal_strlit("/=");
                    lemma_ascii_text("/=", self.spelling());
                }
                "/="
            },
            Token::PuncModuloEq => {
                proof {
                    reveal_strlit("%=");
                    lemma_ascii_text("%=", self.spelling());
                }
                "%="
            },
            Token::PuncAndEq => {
                proof {
                    reveal_strlit("&=");
                    lemma_ascii_text("&=", self.spelling());
                }
                "&="
            },
            Token::PuncOrEq => {
                proof {
                    reveal_strlit("|=");
                    lemma_ascii_text("|=", self.spelling());
                }
                "|="
            },
            Token::PuncXorEq => {
                proof {
                    reveal_strlit("^=");
                    lemma_ascii_text("^=", self.spelling());
                }
                "^="
            },
            Token::PuncShlEq => {
                proof {
                    reveal_strlit("<<=");
                    lemma_ascii_text("<<=", self.spelling());
                }
                "<<="
            },
            Token::PuncShrEq => {
                proof {
                    reveal_strlit(">>=");
                    lemma_ascii_text(">>=", self.spelling());
                }
                ">>="
            },
            Token::IndentLParen => {
                proof {
                    reveal_strlit("(");
                    lemma_ascii_text("(", self.spelling());
                }
                "("
            },
            Token::IndentRParen => {
                proof {
                    reveal_strlit(")");
                    lemma_ascii_text(")", self.spelling());
                }
                ")"
            },
            Token::IndentLBrace => {
                proof {
                    reveal_strlit("{");
                    lemma_ascii_text("{", self.spelling());
                }
                "{"
            },
            Token::IndentRBrace => {
                proof {
                    reveal_strlit("}");
                    lemma_ascii_text("}", self.spelling());
                }
                "}"
            },
            Token::IndentLBracket => {
                proof {
                    reveal_strlit("[");
                    lemma_ascii_text("[", self.spelling());
                }
                "["
            },
            Token::IndentRBracket => {
                proof {
                    reveal_strlit("]");
                    lemma_ascii_text("]", self.spelling());
                }
                "]"
            },
            Token::LitIdentifier => {
                proof {
                    reveal_strlit("identifier");
                    lemma_ascii_text("identifier", self.spelling());
                }
                "identifier"
            },
            Token::LitInteger => {
                proof {
                    reveal_strlit("0");
                    lemma_ascii_text("0", self.spelling());
                }
                "0"
            },
            Token::LitFloat => {
                proof {
                    reveal_strlit("0.0");
                    lemma_ascii_text("0.0", self.spelling());
                }
                "0.0"
            },
            Token::LitStr => {
                proof {
                    reveal_strlit("\"\"");
                    lemma_ascii_text("\"\"", self.spelling());
                }
                "\"\""
            },
            Token::LitChar => {
                proof {
                    reveal_strlit("'c'");
                    lemma_ascii_text("'c'", self.spelling());
                }
                "'c'"
            },
            Token::LitUninit => {
                proof {
                    reveal_strlit("uninit");
                    lemma_ascii_text("uninit", self.spelling());
                }
                "uninit"
            },
            Token::KwLet => {
                proof {
                    reveal_strlit("let");
                    lemma_ascii_text("let", self.spelling());
                }
                "let"
            },
            Token::KwFn => {
                proof {
                    reveal_strlit("fn");
                    lemma_ascii_text("fn", self.spelling());
                }
                "fn"
            },
            Token::KwReturn => {
                proof {
                    reveal_strlit("return");
                    lemma_ascii_text("return", self.spelling());
                }
                "return"
            },
            Token::KwExtern => {
                proof {
                    reveal_strlit("extern");
                    lemma_ascii_text("extern", self.spelling());
                }
                "extern"
            },
            Token::KwConst => {
                proof {
                    reveal_strlit("const");
                    lemma_ascii_text("const", self.spelling());
                }
                "const"
            },
            Token::KwMut => {
                proof {
                    reveal_strlit("mut");
                    lemma_ascii_text("mut", self.spelling());
                }
                "mut"
            },
            Token::KwAnymut => {
                proof {
                    reveal_strlit("anymut");
                    lemma_ascii_text("anymut", self.spelling());
                }
                "anymut"
            },
            Token::KwCompiletime => {
                proof {
                    reveal_strlit("compiletime");
                    lemma_ascii_text("compiletime", self.spelling());
                }
                "compiletime"
            },
            Token::KwRuntime => {
                proof {
                    reveal_strlit("runtime");
                    lemma_ascii_text("runtime", self.spelling());
                }
                "runtime"
            },
            Token::KwStatic => {
                proof {
                    reveal_strlit("static");
                    lemma_ascii_text("static", self.spelling());
                }
                "static"
            },
            Token::KwType => {
                proof {
                    reveal_strlit("type");
                    lemma_ascii_text("type", self.spelling());
                }
                "type"
            },
            Token::KwCast => {
                proof {
                    reveal_strlit("cast");
                    lemma_ascii_text("cast", self.spelling());
                }
                "cast"
            },
            Token::KwAdtStruct => {
                proof {
                    reveal_strlit("struct");
                    lemma_ascii_text("struct", self.spelling());
                }
                "struct"
            },
            Token::KwAdtEnum => {
                proof {
                    reveal_strlit("enum");
                    lemma_ascii_text("enum", self.spelling());
                }
                "enum"
            },
            Token::KwAdtUnion => {
                proof {
                    reveal_strlit("union");
                    lemma_ascii_text("union", self.spelling());
                }
                "union"
            },
            Token::KwTrue => {
                proof {
                    reveal_strlit("true");
                    lemma_ascii_text("true", self.spelling());
                }
                "true"
            },
            Token::KwFalse => {
                proof {
                    reveal_strlit("false");
                    lemma_ascii_text("false", self.spelling());
                }
                "false"
            },
        }
    }

    /// True for the five categories whose lexeme the lexer keeps for extraction.
    pub fn is_identifier_extractable(&self) -> (r: bool)
        ensures
            r == self.carries_literal(),
    {
        matches!(
            self,
            Token::LitIdentifier
                | Token::LitInteger
                | Token::LitFloat
                | Token::LitStr
                | Token::LitChar
        )
    }
}

/// A text of ASCII characters is stored as one byte per character.
proof fn lemma_ascii_text(text: &str, bytes: Seq<u8>)
    requires
        text@.len() == bytes.len(),
        forall|i: int|
            0 <= i < bytes.len() ==> '\0' <= #[trigger] text@[i] <= '\u{7f}' && text@[i] as u8
                == bytes[i],
    ensures
        text.spec_bytes() == bytes,
        text.is_ascii(),
{
    vstd::string::is_ascii_spec_bytes(text);
    assert(text.spec_bytes() =~= bytes);
}

} // verus!
