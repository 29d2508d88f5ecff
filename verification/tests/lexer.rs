use lang_front::lexer::{tokenize, Lexer};
use lang_front::token::{lookup_ident, Token, TokenType};

#[test]
fn next_token() {
    let input = r#"
        let five = 5;
        let ten = 10;
        let add = fn(x, y) {
            x + y;
        };
        let result = add(five, ten);
        !-/*5;
        5 < 10 > 5;

        if (5 < 10) {
            return true;
        } else {
            return false;
        }

        10 == 10;
        10 != 9;
        "#;
    let tests = vec![
        (TokenType::Let, "let"),
        (TokenType::Ident, "five"),
        (TokenType::Assign, "="),
        (TokenType::Int, "5"),
        (TokenType::Semicolon, ";"),
        (TokenType::Let, "let"),
        (TokenType::Ident, "ten"),
        (TokenType::Assign, "="),
        (TokenType::Int, "10"),
        (TokenType::Semicolon, ";"),
        (TokenType::Let, "let"),
        (TokenType::Ident, "add"),
        (TokenType::Assign, "="),
        (TokenType::Function, "fn"),
        (TokenType::LParen, "("),
        (TokenType::Ident, "x"),
        (TokenType::Comma, ","),
        (TokenType::Ident, "y"),
        (TokenType::RParen, ")"),
        (TokenType::LBrace, "{"),
        (TokenType::Ident, "x"),
        (TokenType::Plus, "+"),
        (TokenType::Ident, "y"),
        (TokenType::Semicolon, ";"),
        (TokenType::RBrace, "}"),
        (TokenType::Semicolon, ";"),
        (TokenType::Let, "let"),
        (TokenType::Ident, "result"),
        (TokenType::Assign, "="),
        (TokenType::Ident, "add"),
        (TokenType::LParen, "("),
        (TokenType::Ident, "five"),
        (TokenType::Comma, ","),
        (TokenType::Ident, "ten"),
        (TokenType::RParen, ")"),
        (TokenType::Semicolon, ";"),
        (TokenType::Bang, "!"),
        (TokenType::Minus, "-"),
        (TokenType::Slash, "/"),
        (TokenType::Asterisk, "*"),
        (TokenType::Int, "5"),
        (TokenType::Semicolon, ";"),
        (TokenType::Int, "5"),
        (TokenType::Lt, "<"),
        (TokenType::Int, "10"),
        (TokenType::Gt, ">"),
        (TokenType::Int, "5"),
        (TokenType::Semicolon, ";"),
        (TokenType::If, "if"),
        (TokenType::LParen, "("),
        (TokenType::Int, "5"),
        (TokenType::Lt, "<"),
        (TokenType::Int, "10"),
        (TokenType::RParen, ")"),
        (TokenType::LBrace, "{"),
        (TokenType::Return, "return"),
        (TokenType::True, "true"),
        (TokenType::Semicolon, ";"),
        (TokenType::RBrace, "}"),
        (TokenType::Else, "else"),
        (TokenType::LBrace, "{"),
        (TokenType::Return, "return"),
        (TokenType::False, "false"),
        (TokenType::Semicolon, ";"),
        (TokenType::RBrace, "}"),
        (TokenType::Int, "10"),
        (TokenType::Eq, "=="),
        (TokenType::Int, "10"),
        (TokenType::Semicolon, ";"),
        (TokenType::Int, "10"),
        (TokenType::NotEq, "!="),
        (TokenType::Int, "9"),
        (TokenType::Semicolon, ";"),
        (TokenType::Eof, ""),
    ];

    let mut lexer = Lexer::new(input.to_string());
    for (i, tt) in tests.iter().enumerate() {
        let token = lexer.next_token();
        assert_eq!(
            token.token_type, tt.0,
            "tests[{}] - token type wrong. expected={:?}, got={:?}",
            i, tt.0, token.token_type
        );
        assert_eq!(
            token.literal, tt.1,
            "tests[{}] - literal wrong. expected={}, got={}",
            i, tt.1, token.literal
        );
    }
}

fn lex_all(input: &str) -> Vec<(TokenType, String)> {
    let mut lexer = Lexer::new(input.to_string());
    let mut out = Vec::new();
    loop {
        let token = lexer.next_token();
        let done = token.token_type == TokenType::Eof;
        out.push((token.token_type, token.literal));
        if done {
            return out;
        }
    }
}

fn pairs(expected: &[(TokenType, &str)]) -> Vec<(TokenType, String)> {
    expected.iter().map(|(t, s)| (*t, s.to_string())).collect()
}

#[test]
fn let_five_is_tokenized_exactly() {
    assert_eq!(
        lex_all("let five = 5;"),
        pairs(&[
            (TokenType::Let, "let"),
            (TokenType::Ident, "five"),
            (TokenType::Assign, "="),
            (TokenType::Int, "5"),
            (TokenType::Semicolon, ";"),
            (TokenType::Eof, ""),
        ])
    );
}

#[test]
fn double_equals_is_one_token() {
    assert_eq!(lex_all("=="), pairs(&[(TokenType::Eq, "=="), (TokenType::Eof, "")]));
}

#[test]
fn bang_equals_is_one_token() {
    assert_eq!(lex_all("!="), pairs(&[(TokenType::NotEq, "!="), (TokenType::Eof, "")]));
}

#[test]
fn single_equals_leaves_the_next_character() {
    assert_eq!(
        lex_all("=5"),
        pairs(&[(TokenType::Assign, "="), (TokenType::Int, "5"), (TokenType::Eof, "")])
    );
    assert_eq!(
        lex_all("=!"),
        pairs(&[(TokenType::Assign, "="), (TokenType::Bang, "!"), (TokenType::Eof, "")])
    );
    assert_eq!(lex_all("="), pairs(&[(TokenType::Assign, "="), (TokenType::Eof, "")]));
    assert_eq!(lex_all("!"), pairs(&[(TokenType::Bang, "!"), (TokenType::Eof, "")]));
}

#[test]
fn three_equals_are_two_tokens() {
    assert_eq!(
        lex_all("==="),
        pairs(&[(TokenType::Eq, "=="), (TokenType::Assign, "="), (TokenType::Eof, "")])
    );
    assert_eq!(
        lex_all("!=="),
        pairs(&[(TokenType::NotEq, "!="), (TokenType::Assign, "="), (TokenType::Eof, "")])
    );
    assert_eq!(
        lex_all("= ="),
        pairs(&[(TokenType::Assign, "="), (TokenType::Assign, "="), (TokenType::Eof, "")])
    );
}

#[test]
fn end_of_input_repeats() {
    let mut lexer = Lexer::new("x".to_string());
    let first = lexer.next_token();
    assert_eq!(first.token_type, TokenType::Ident);
    assert_eq!(first.literal, "x");
    for _ in 0..10 {
        let token = lexer.next_token();
        assert_eq!(token.token_type, TokenType::Eof);
        assert_eq!(token.literal, "");
    }
}

#[test]
fn empty_and_blank_inputs_are_at_their_end() {
    assert_eq!(lex_all(""), pairs(&[(TokenType::Eof, "")]));
    assert_eq!(lex_all(" \t\r\n "), pairs(&[(TokenType::Eof, "")]));
    let mut lexer = Lexer::new("  ".to_string());
    for _ in 0..3 {
        let token = lexer.next_token();
        assert_eq!(token.token_type, TokenType::Eof);
        assert_eq!(token.literal, "");
    }
}

#[test]
fn digits_do_not_continue_an_identifier() {
    assert_eq!(
        lex_all("x1"),
        pairs(&[(TokenType::Ident, "x"), (TokenType::Int, "1"), (TokenType::Eof, "")])
    );
    assert_eq!(
        lex_all("1x"),
        pairs(&[(TokenType::Int, "1"), (TokenType::Ident, "x"), (TokenType::Eof, "")])
    );
    assert_eq!(
        lex_all("foo_bar2baz"),
        pairs(&[
            (TokenType::Ident, "foo_bar"),
            (TokenType::Int, "2"),
            (TokenType::Ident, "baz"),
            (TokenType::Eof, ""),
        ])
    );
}

#[test]
fn underscore_is_a_letter() {
    assert_eq!(lex_all("_"), pairs(&[(TokenType::Ident, "_"), (TokenType::Eof, "")]));
    assert_eq!(lex_all("_a_B"), pairs(&[(TokenType::Ident, "_a_B"), (TokenType::Eof, "")]));
}

#[test]
fn integers_are_runs_of_digits_of_any_length() {
    let long = "123456789012345678901234567890123456789012345678901234567890";
    assert_eq!(lex_all(long), pairs(&[(TokenType::Int, long), (TokenType::Eof, "")]));
    assert_eq!(
        lex_all("007"),
        pairs(&[(TokenType::Int, "007"), (TokenType::Eof, "")])
    );
    assert_eq!(
        lex_all("-5"),
        pairs(&[(TokenType::Minus, "-"), (TokenType::Int, "5"), (TokenType::Eof, "")])
    );
    assert_eq!(
        lex_all("1.5"),
        pairs(&[
            (TokenType::Int, "1"),
            (TokenType::Illegal, "."),
            (TokenType::Int, "5"),
            (TokenType::Eof, ""),
        ])
    );
}

#[test]
fn unrecognized_characters_are_illegal_and_lexing_goes_on() {
    assert_eq!(
        lex_all("a @ b"),
        pairs(&[
            (TokenType::Ident, "a"),
            (TokenType::Illegal, "@"),
            (TokenType::Ident, "b"),
            (TokenType::Eof, ""),
        ])
    );
    assert_eq!(
        lex_all("#$"),
        pairs(&[(TokenType::Illegal, "#"), (TokenType::Illegal, "$"), (TokenType::Eof, "")])
    );
}

#[test]
fn characters_outside_ascii_are_illegal() {
    assert_eq!(
        lex_all("é=λ"),
        pairs(&[
            (TokenType::Illegal, "é"),
            (TokenType::Assign, "="),
            (TokenType::Illegal, "λ"),
            (TokenType::Eof, ""),
        ])
    );
    assert_eq!(
        lex_all("let ñ = 1;"),
        pairs(&[
            (TokenType::Let, "let"),
            (TokenType::Illegal, "ñ"),
            (TokenType::Assign, "="),
            (TokenType::Int, "1"),
            (TokenType::Semicolon, ";"),
            (TokenType::Eof, ""),
        ])
    );
}

#[test]
fn a_nul_character_inside_the_input_is_illegal() {
    assert_eq!(
        lex_all("a\0b"),
        pairs(&[
            (TokenType::Ident, "a"),
            (TokenType::Illegal, "\0"),
            (TokenType::Ident, "b"),
            (TokenType::Eof, ""),
        ])
    );
}

#[test]
fn every_operator_and_separator() {
    assert_eq!(
        lex_all("=+-!*/<>,;(){}"),
        pairs(&[
            (TokenType::Assign, "="),
            (TokenType::Plus, "+"),
            (TokenType::Minus, "-"),
            (TokenType::Bang, "!"),
            (TokenType::Asterisk, "*"),
            (TokenType::Slash, "/"),
            (TokenType::Lt, "<"),
            (TokenType::Gt, ">"),
            (TokenType::Comma, ","),
            (TokenType::Semicolon, ";"),
            (TokenType::LParen, "("),
            (TokenType::RParen, ")"),
            (TokenType::LBrace, "{"),
            (TokenType::RBrace, "}"),
            (TokenType::Eof, ""),
        ])
    );
}

#[test]
fn keywords_are_whole_words_in_lower_case() {
    assert_eq!(
        lex_all("fn let true false if else return"),
        pairs(&[
            (TokenType::Function, "fn"),
            (TokenType::Let, "let"),
            (TokenType::True, "true"),
            (TokenType::False, "false"),
            (TokenType::If, "if"),
            (TokenType::Else, "else"),
            (TokenType::Return, "return"),
            (TokenType::Eof, ""),
        ])
    );
    assert_eq!(
        lex_all("lets Let fnn iff"),
        pairs(&[
            (TokenType::Ident, "lets"),
            (TokenType::Ident, "Let"),
            (TokenType::Ident, "fnn"),
            (TokenType::Ident, "iff"),
            (TokenType::Eof, ""),
        ])
    );
}

#[test]
fn lookup_ident_resolves_the_keyword_table() {
    assert_eq!(lookup_ident("fn"), TokenType::Function);
    assert_eq!(lookup_ident("let"), TokenType::Let);
    assert_eq!(lookup_ident("true"), TokenType::True);
    assert_eq!(lookup_ident("false"), TokenType::False);
    assert_eq!(lookup_ident("if"), TokenType::If);
    assert_eq!(lookup_ident("else"), TokenType::Else);
    assert_eq!(lookup_ident("return"), TokenType::Return);
    assert_eq!(lookup_ident("foobar"), TokenType::Ident);
    assert_eq!(lookup_ident("le"), TokenType::Ident);
    assert_eq!(lookup_ident("lett"), TokenType::Ident);
    assert_eq!(lookup_ident("LET"), TokenType::Ident);
    assert_eq!(lookup_ident(""), TokenType::Ident);
}

#[test]
fn token_new_copies_its_literal() {
    let token = Token::new(TokenType::Ident, "abc");
    assert_eq!(token.token_type, TokenType::Ident);
    assert_eq!(token.literal, "abc");
    let copy = token.clone();
    assert_eq!(copy.token_type, TokenType::Ident);
    assert_eq!(copy.literal, "abc");
}

#[test]
fn tokenize_leaves_out_the_end_of_input() {
    let tokens: Vec<(TokenType, String)> =
        tokenize("let x = 5;\n".to_string()).into_iter().map(|t| (t.token_type, t.literal)).collect();
    assert_eq!(
        tokens,
        pairs(&[
            (TokenType::Let, "let"),
            (TokenType::Ident, "x"),
            (TokenType::Assign, "="),
            (TokenType::Int, "5"),
            (TokenType::Semicolon, ";"),
        ])
    );
    assert!(tokenize(String::new()).is_empty());
    assert!(tokenize("  \n".to_string()).is_empty());
}

#[test]
fn token_debug_form() {
    let token = Token::new(TokenType::Let, "let");
    assert_eq!(format!("{:?}", token), "Token { token_type: Let, literal: \"let\" }");
}
