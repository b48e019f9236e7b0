//! Tests of the exploratory statement-level lexer. Floating literals keep
//! their text (lowercased where the scanner folds case), so the expected
//! float tokens here spell the scanned text.

use rscalc::lexer::token::Token;
use rscalc::lexer::Lexer;

fn test_tokens(source: &str, expect: Vec<Token>) {
    let mut lexer = Lexer::new(source);
    let mut lex_tokens: Vec<Token> = Vec::new();
    loop {
        match lexer.next() {
            Some(Ok(t)) => lex_tokens.push(t),
            Some(Err(err)) => panic!("unexpected lexing error: {:?}", err),
            None => break,
        }
    }
    for (idx, exp) in expect.iter().enumerate() {
        assert_eq!(&lex_tokens[idx], exp, "on_index: {}", idx);
    }
}

fn ident(i: &str) -> Token {
    Token::ident(i.to_owned())
}

fn float(t: &str) -> Token {
    Token::Float(t.to_owned())
}

#[test]
fn simple() {
    test_tokens(
        "64 * 420",
        vec![Token::Int(64), Token::Mul, Token::Int(420)],
    )
}

#[test]
fn numerals() {
    test_tokens(
        "\n0xdeadbeef 12345 12345. 3.1415e-2 0.123E-10 1.7976931348623157E+500 9223372036854775807 9223372036854775808.\n",
        vec![
            Token::Int(0xdeadbeef),
            Token::Int(12345),
            float("12345."),
            float("3.1415e-2"),
            float("0.123e-10"),
            float("1.7976931348623157e+500"),
            Token::Int(9223372036854775807),
            float("9223372036854775808."),
        ],
    );
}

#[test]
fn ops() {
    test_tokens(
        "\n- -= + += * / *= /= // //= ^ ^= % %= & &= ~ ~= ^^ ^^= | ,\n|= ; >> >>= << <<= . .. ..= = < <= > >= == != : , :: ( ) \n[ ] { } := :: && || -> => \n            ",
        vec![
            Token::Sub,
            Token::SubAssign,
            Token::Add,
            Token::AddAssign,
            Token::Mul,
            Token::Div,
            Token::MulAssign,
            Token::DivAssign,
            Token::IDiv,
            Token::IDivAssign,
            Token::Pow,
            Token::PowAssign,
            Token::Rem,
            Token::RemAssign,
            Token::BitAnd,
            Token::BitAndAssign,
            Token::BitNotXor,
            Token::BitNotXorAssign,
            Token::BitXor,
            Token::BitXorAssign,
            Token::BitOr,
            Token::Comma,
            Token::BitOrAssign,
            Token::SemiColon,
            Token::Shr,
            Token::ShrAssign,
            Token::Shl,
            Token::ShlAssign,
            Token::Dot,
            Token::Range,
            Token::RangeInc,
            Token::Assign,
            Token::Lt,
            Token::Lte,
            Token::Gt,
            Token::Gte,
            Token::Eq,
            Token::Ne,
            Token::Colon,
            Token::Comma,
            Token::Decl,
            Token::LParen,
            Token::RParen,
            Token::LBracket,
            Token::RBracket,
            Token::LSquirly,
            Token::RSquirly,
            Token::DeclAssign,
            Token::Decl,
            Token::LogicAnd,
            Token::LogicOr,
            Token::Arrow,
            Token::FatArrow,
        ],
    );
}

#[test]
fn words() {
    test_tokens(
        "\n            break else elif if for while return true false custom names name123num\n        ",
        vec![
            Token::Break,
            Token::Else,
            Token::Elif,
            Token::If,
            Token::For,
            Token::While,
            Token::Return,
            Token::True,
            Token::False,
            ident("custom"),
            ident("names"),
            ident("name123num"),
        ],
    );
}

#[test]
fn code() {
    test_tokens(
        "\nMyStruct :: struct {\n   name  :string;\n   age   :i32;\n   hight :i32;\n}\nmy_function :: () -> int {\n   1 + 1\n}\nCONSTANT_VAR :: 69;\nmain :: () {\n   new_mutable_var := 123;\n   new_explicit_type :f32= 123.0; \n\n   new_mutable_var = 420;\n   new_explicit_type = 6.9;\n\n   println(CONSTANT_VAR);\n\n   mystrc := MyStruct{};\n   println(mystrc);\n\n   println(my_function());\n}\n    ",
        vec![
            ident("MyStruct"),
            Token::Decl,
            Token::Struct,
            Token::LSquirly,
            ident("name"),
            Token::Colon,
            ident("string"),
            Token::SemiColon,
            ident("age"),
            Token::Colon,
            ident("i32"),
            Token::SemiColon,
            ident("hight"),
            Token::Colon,
            ident("i32"),
            Token::SemiColon,
            Token::RSquirly,
            ident("my_function"),
            Token::Decl,
            Token::LParen,
            Token::RParen,
            Token::Arrow,
            ident("int"),
            Token::LSquirly,
            Token::Int(1),
            Token::Add,
            Token::Int(1),
            Token::RSquirly,
            ident("CONSTANT_VAR"),
            Token::Decl,
            Token::Int(69),
            Token::SemiColon,
            ident("main"),
            Token::Decl,
            Token::LParen,
            Token::RParen,
            Token::LSquirly,
            ident("new_mutable_var"),
            Token::DeclAssign,
            Token::Int(123),
            Token::SemiColon,
            ident("new_explicit_type"),
            Token::Colon,
            ident("f32"),
            Token::Assign,
            float("123.0"),
            Token::SemiColon,
            ident("new_mutable_var"),
            Token::Assign,
            Token::Int(420),
            Token::SemiColon,
            ident("new_explicit_type"),
            Token::Assign,
            float("6.9"),
            Token::SemiColon,
            ident("println"),
            Token::LParen,
            ident("CONSTANT_VAR"),
            Token::RParen,
            Token::SemiColon,
            ident("mystrc"),
            Token::DeclAssign,
            ident("MyStruct"),
            Token::LSquirly,
            Token::RSquirly,
            Token::SemiColon,
            ident("println"),
            Token::LParen,
            ident("mystrc"),
            Token::RParen,
            Token::SemiColon,
            ident("println"),
            Token::LParen,
            ident("my_function"),
            Token::LParen,
            Token::RParen,
            Token::RParen,
            Token::SemiColon,
            Token::RSquirly,
        ],
    )
}

#[test]
fn lexer_reports_unexpected_characters() {
    let mut lexer = Lexer::new("@");
    match lexer.next() {
        Some(Err(rscalc::error::Error::LexingError(e))) => {
            assert_eq!(
                e.kind,
                rscalc::lexer::error::LexErrorKind::UnexpectedCharacter('@')
            );
        },
        other => panic!("expected a lexing error, got {:?}", other),
    }
}

#[test]
fn lexer_reports_malformed_numbers() {
    let mut lexer = Lexer::new("1.2.3");
    match lexer.next() {
        Some(Err(rscalc::error::Error::LexingError(e))) => {
            assert!(matches!(
                e.kind,
                rscalc::lexer::error::LexErrorKind::InvalidNumberInt(_)
            ));
        },
        other => panic!("expected a lexing error, got {:?}", other),
    }
    let mut lexer = Lexer::new("123456789012345678901234567890");
    assert!(matches!(lexer.next(), Some(Err(_))));
}

#[test]
fn lexer_paths_and_reset() {
    let lexer = Lexer::new("1 + 2").set_source_path("calc.txt".to_string());
    let mut lexer = lexer;
    lexer.reset();
    assert_eq!(lexer.next(), Some(Ok(Token::Int(1))));
    assert_eq!(lexer.next(), Some(Ok(Token::Add)));
    assert_eq!(lexer.next(), Some(Ok(Token::Int(2))));
    assert_eq!(lexer.next(), None);
}
