use lang_front::chars::{digit, letter, same_text, whitespace};
use lang_front::token::{punctuation_type, TokenType};

fn all_types() -> Vec<TokenType> {
    vec![
        TokenType::Illegal,
        TokenType::Eof,
        TokenType::Ident,
        TokenType::Int,
        TokenType::Assign,
        TokenType::Plus,
        TokenType::Minus,
        TokenType::Bang,
        TokenType::Asterisk,
        TokenType::Slash,
        TokenType::Lt,
        TokenType::Gt,
        TokenType::Eq,
        TokenType::NotEq,
        TokenType::Comma,
        TokenType::Semicolon,
        TokenType::LParen,
        TokenType::RParen,
        TokenType::LBrace,
        TokenType::RBrace,
        TokenType::Function,
        TokenType::Let,
        TokenType::True,
        TokenType::False,
        TokenType::If,
        TokenType::Else,
        TokenType::Return,
    ]
}

#[test]
fn name_is_the_debug_name() {
    for t in all_types() {
        assert_eq!(t.name(), format!("{:?}", t));
    }
    assert_eq!(TokenType::Ident.name(), "Ident");
    assert_eq!(TokenType::Eof.name(), "Eof");
    assert_eq!(TokenType::NotEq.name(), "NotEq");
}

#[test]
fn as_ref_gives_the_display_text() {
    let expected = vec![
        "ILLEGAL", "EOF", "IDENT", "INT", "=", "+", "-", "!", "*", "/", "<", ">", "==", "!=", ",",
        ";", "(", ")", "{", "}", "FUNCTION", "LET", "TRUE", "FALSE", "IF", "ELSE", "RETURN",
    ];
    let types = all_types();
    assert_eq!(types.len(), expected.len());
    for (t, e) in types.iter().zip(expected.iter()) {
        let text: &str = t.as_ref();
        assert_eq!(text, *e);
    }
}

#[test]
fn punctuation_table() {
    assert_eq!(punctuation_type('='), Some(TokenType::Assign));
    assert_eq!(punctuation_type('+'), Some(TokenType::Plus));
    assert_eq!(punctuation_type('-'), Some(TokenType::Minus));
    assert_eq!(punctuation_type('!'), Some(TokenType::Bang));
    assert_eq!(punctuation_type('*'), Some(TokenType::Asterisk));
    assert_eq!(punctuation_type('/'), Some(TokenType::Slash));
    assert_eq!(punctuation_type('<'), Some(TokenType::Lt));
    assert_eq!(punctuation_type('>'), Some(TokenType::Gt));
    assert_eq!(punctuation_type(','), Some(TokenType::Comma));
    assert_eq!(punctuation_type(';'), Some(TokenType::Semicolon));
    assert_eq!(punctuation_type('('), Some(TokenType::LParen));
    assert_eq!(punctuation_type(')'), Some(TokenType::RParen));
    assert_eq!(punctuation_type('{'), Some(TokenType::LBrace));
    assert_eq!(punctuation_type('}'), Some(TokenType::RBrace));
    assert_eq!(punctuation_type('a'), None);
    assert_eq!(punctuation_type('0'), None);
    assert_eq!(punctuation_type(' '), None);
    assert_eq!(punctuation_type('@'), None);
    assert_eq!(punctuation_type('\0'), None);
}

#[test]
fn character_classes() {
    for c in ['a', 'z', 'A', 'Z', 'm', '_'] {
        assert!(letter(c));
        assert!(!digit(c));
        assert!(!whitespace(c));
    }
    for c in ['0', '5', '9'] {
        assert!(digit(c));
        assert!(!letter(c));
        assert!(!whitespace(c));
    }
    for c in [' ', '\t', '\r', '\n'] {
        assert!(whitespace(c));
        assert!(!letter(c));
        assert!(!digit(c));
    }
    for c in ['@', '`', '[', '{', '/', ':', '\0', 'é', '\u{b}', '\u{c}', '٣'] {
        assert!(!letter(c));
        assert!(!digit(c));
        assert!(!whitespace(c));
    }
}

#[test]
fn same_text_compares_character_by_character() {
    assert!(same_text("", ""));
    assert!(same_text("let", "let"));
    assert!(!same_text("let", "lex"));
    assert!(!same_text("let", "le"));
    assert!(!same_text("le", "let"));
    assert!(same_text("héllo", "héllo"));
    assert!(!same_text("héllo", "hèllo"));
    assert!(!same_text("é", "ab"));
}
