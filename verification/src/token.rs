//! Tokens and their categories.

use crate::chars::{all_in_class, is_digit, is_letter, is_whitespace, same_text, CharClass};
use vstd::prelude::*;

verus! {

/// Category of a token.
#[derive(Debug, Clone, Copy, PartialEq, Eq, Structural)]
pub enum TokenType {
    Illegal,
    Eof,
    // identifiers and literals
    Ident,
    Int,
    // operators
    Assign,
    Plus,
    Minus,
    Bang,
    Asterisk,
    Slash,
    Lt,
    Gt,
    Eq,
    NotEq,
    // separators
    Comma,
    Semicolon,
    LParen,
    RParen,
    LBrace,
    RBrace,
    // keywords
    Function,
    Let,
    True,
    False,
    If,
    Else,
    Return,
}

impl TokenType {
    /// The name of the category, as diagnostics print it.
    pub open spec fn spec_name(self) -> Seq<char> {
        match self {
            TokenType::Illegal => "Illegal"@,
            TokenType::Eof => "Eof"@,
            TokenType::Ident => "Ident"@,
            TokenType::Int => "Int"@,
            TokenType::Assign => "Assign"@,
            TokenType::Plus => "Plus"@,
            TokenType::Minus => "Minus"@,
            TokenType::Bang => "Bang"@,
            TokenType::Asterisk => "Asterisk"@,
            TokenType::Slash => "Slash"@,
            TokenType::Lt => "Lt"@,
            TokenType::Gt => "Gt"@,
            TokenType::Eq => "Eq"@,
            TokenType::NotEq => "NotEq"@,
            TokenType::Comma => "Comma"@,
            TokenType::Semicolon => "Semicolon"@,
            TokenType::LParen => "LParen"@,
            TokenType::RParen => "RParen"@,
            TokenType::LBrace => "LBrace"@,
            TokenType::RBrace => "RBrace"@,
            TokenType::Function => "Function"@,
            TokenType::Let => "Let"@,
            TokenType::True => "True"@,
            TokenType::False => "False"@,
            TokenType::If => "If"@,
            TokenType::Else => "Else"@,
            TokenType::Return => "Return"@,
        }
    }

    /// The name of the category, as diagnostics print it.
    pub fn name(&self) -> (s: &'static str)
        ensures
            s@ == self.spec_name(),
    {
        match self {
            TokenType::Illegal => "Illegal",
            TokenType::Eof => "Eof",
            TokenType::Ident => "Ident",
            TokenType::Int => "Int",
            TokenType::Assign => "Assign",
            TokenType::Plus => "Plus",
            TokenType::Minus => "Minus",
            TokenType::Bang => "Bang",
            TokenType::Asterisk => "Asterisk",
            TokenType::Slash => "Slash",
            TokenType::Lt => "Lt",
            TokenType::Gt => "Gt",
            TokenType::Eq => "Eq",
            TokenType::NotEq => "NotEq",
            TokenType::Comma => "Comma",
            TokenType::Semicolon => "Semicolon",
            TokenType::LParen => "LParen",
            TokenType::RParen => "RParen",
            TokenType::LBrace => "LBrace",
            TokenType::RBrace => "RBrace",
            TokenType::Function => "Function",
            TokenType::Let => "Let",
            TokenType::True => "True",
            TokenType::False => "False",
            TokenType::If => "If",
            TokenType::Else => "Else",
            TokenType::Return => "Return",
        }
    }

    /// The display text of the category: the symbol itself for operators and
    /// separators, an upper-case word for the others.
    pub open spec fn spec_symbol(self) -> Seq<char> {
        match self {
            TokenType::Illegal => "ILLEGAL"@,
            TokenType::Eof => "EOF"@,
            TokenType::Ident => "IDENT"@,
            TokenType::Int => "INT"@,
            TokenType::Assign => "="@,
            TokenType::Plus => "+"@,
            TokenType::Minus => "-"@,
            TokenType::Bang => "!"@,
            TokenType::Asterisk => "*"@,
            TokenType::Slash => "/"@,
            TokenType::Lt => "<"@,
            TokenType::Gt => ">"@,
            TokenType::Eq => "=="@,
            TokenType::NotEq => "!="@,
            TokenType::Comma => ","@,
            TokenType::Semicolon => ";"@,
            TokenType::LParen => "("@,
            TokenType::RParen => ")"@,
            TokenType::LBrace => "{"@,
            TokenType::RBrace => "}"@,
            TokenType::Function => "FUNCTION"@,
            TokenType::Let => "LET"@,
            TokenType::True => "TRUE"@,
            TokenType::False => "FALSE"@,
            TokenType::If => "IF"@,
            TokenType::Else => "ELSE"@,
            TokenType::Return => "RETURN"@,
        }
    }

    /// The one spelling of a category in source text, for the categories that
    /// have exactly one. Identifiers, integers and illegal characters have
    /// none; the end of input is spelled by the empty text.
    pub open spec fn spelling(self) -> Option<Seq<char>> {
        match self {
            TokenType::Illegal => None,
            TokenType::Ident => None,
            TokenType::Int => None,
            TokenType::Eof => Some(Seq::<char>::empty()),
            TokenType::Assign => Some(seq!['=']),
            TokenType::Plus => Some(seq!['+']),
            TokenType::Minus => Some(seq!['-']),
            TokenType::Bang => Some(seq!['!']),
            TokenType::Asterisk => Some(seq!['*']),
            TokenType::Slash => Some(seq!['/']),
            TokenType::Lt => Some(seq!['<']),
            TokenType::Gt => Some(seq!['>']),
            TokenType::Eq => Some(seq!['=', '=']),
            TokenType::NotEq => Some(seq!['!', '=']),
            TokenType::Comma => Some(seq![',']),
            TokenType::Semicolon => Some(seq![';']),
            TokenType::LParen => Some(seq!['(']),
            TokenType::RParen => Some(seq![')']),
            TokenType::LBrace => Some(seq!['{']),
            TokenType::RBrace => Some(seq!['}']),
            TokenType::Function => Some(seq!['f', 'n']),
            TokenType::Let => Some(seq!['l', 'e', 't']),
            TokenType::True => Some(seq!['t', 'r', 'u', 'e']),
            TokenType::False => Some(seq!['f', 'a', 'l', 's', 'e']),
            TokenType::If => Some(seq!['i', 'f']),
            TokenType::Else => Some(seq!['e', 'l', 's', 'e']),
            TokenType::Return => Some(seq!['r', 'e', 't', 'u', 'r', 'n']),
        }
    }
}

impl AsRef<str> for TokenType {
    /// The display text of the category.
    fn as_ref(&self) -> (s: &str)
        ensures
            s@ == self.spec_symbol(),
    {
        match self {
            TokenType::Illegal => "ILLEGAL",
            TokenType::Eof => "EOF",
            TokenType::Ident => "IDENT",
            TokenType::Int => "INT",
            TokenType::Assign => "=",
            TokenType::Plus => "+",
            TokenType::Minus => "-",
            TokenType::Bang => "!",
            TokenType::Asterisk => "*",
            TokenType::Slash => "/",
            TokenType::Lt => "<",
            TokenType::Gt => ">",
            TokenType::Eq => "==",
            TokenType::NotEq => "!=",
            TokenType::Comma => ",",
            TokenType::Semicolon => ";",
            TokenType::LParen => "(",
            TokenType::RParen => ")",
            TokenType::LBrace => "{",
            TokenType::RBrace => "}",
            TokenType::Function => "FUNCTION",
            TokenType::Let => "LET",
            TokenType::True => "TRUE",
            TokenType::False => "FALSE",
            TokenType::If => "IF",
            TokenType::Else => "ELSE",
            TokenType::Return => "RETURN",
        }
    }
}

/// The category of the one-character operator or separator `c`, if it is one.
/// `=` and `!` stand here for themselves alone; followed by `=` they begin a
/// two-character operator.
pub open spec fn punctuation(c: char) -> Option<TokenType> {
    if c == '=' {
        Some(TokenType::Assign)
    } else if c == '+' {
        Some(TokenType::Plus)
    } else if c == '-' {
        Some(TokenType::Minus)
    } else if c == '!' {
        Some(TokenType::Bang)
    } else if c == '*' {
        Some(TokenType::Asterisk)
    } else if c == '/' {
        Some(TokenType::Slash)
    } else if c == '<' {
        Some(TokenType::Lt)
    } else if c == '>' {
        Some(TokenType::Gt)
    } else if c == ',' {
        Some(TokenType::Comma)
    } else if c == ';' {
        Some(TokenType::Semicolon)
    } else if c == '(' {
        Some(TokenType::LParen)
    } else if c == ')' {
        Some(TokenType::RParen)
    } else if c == '{' {
        Some(TokenType::LBrace)
    } else if c == '}' {
        Some(TokenType::RBrace)
    } else {
        None
    }
}

/// Executable form of [`punctuation`].
pub fn punctuation_type(c: char) -> (r: Option<TokenType>)
    ensures
        r == punctuation(c),
{
    match c {
        '=' => Some(TokenType::Assign),
        '+' => Some(TokenType::Plus),
        '-' => Some(TokenType::Minus),
        '!' => Some(TokenType::Bang),
        '*' => Some(TokenType::Asterisk),
        '/' => Some(TokenType::Slash),
        '<' => Some(TokenType::Lt),
        '>' => Some(TokenType::Gt),
        ',' => Some(TokenType::Comma),
        ';' => Some(TokenType::Semicolon),
        '(' => Some(TokenType::LParen),
        ')' => Some(TokenType::RParen),
        '{' => Some(TokenType::LBrace),
        '}' => Some(TokenType::RBrace),
        _ => None,
    }
}

/// A character that begins no token and separates none: neither whitespace,
/// letter, digit, nor punctuation.
pub open spec fn is_unrecognized(c: char) -> bool {
    !is_whitespace(c) && !is_letter(c) && !is_digit(c) && punctuation(c) is None
}

/// The keyword table: the category of the keyword spelled `text`, if there is
/// one.
pub open spec fn keyword(text: Seq<char>) -> Option<TokenType> {
    if text == seq!['f', 'n'] {
        Some(TokenType::Function)
    } else if text == seq!['l', 'e', 't'] {
        Some(TokenType::Let)
    } else if text == seq!['t', 'r', 'u', 'e'] {
        Some(TokenType::True)
    } else if text == seq!['f', 'a', 'l', 's', 'e'] {
        Some(TokenType::False)
    } else if text == seq!['i', 'f'] {
        Some(TokenType::If)
    } else if text == seq!['e', 'l', 's', 'e'] {
        Some(TokenType::Else)
    } else if text == seq!['r', 'e', 't', 'u', 'r', 'n'] {
        Some(TokenType::Return)
    } else {
        None
    }
}

/// The category of a run of letters: that of the keyword it spells, or
/// `Ident` if it spells none.
pub open spec fn ident_type(text: Seq<char>) -> TokenType {
    match keyword(text) {
        Some(t) => t,
        None => TokenType::Ident,
    }
}

/// Resolves the text of an identifier-like run against the keyword table.
pub fn lookup_ident(ident: &str) -> (t: TokenType)
    ensures
        t == ident_type(ident@),
{
    proof {
        reveal_strlit("fn");
        reveal_strlit("let");
        reveal_strlit("true");
        reveal_strlit("false");
        reveal_strlit("if");
        reveal_strlit("else");
        reveal_strlit("return");
        assert("fn"@ =~= seq!['f', 'n']);
        assert("let"@ =~= seq!['l', 'e', 't']);
        assert("true"@ =~= seq!['t', 'r', 'u', 'e']);
        assert("false"@ =~= seq!['f', 'a', 'l', 's', 'e']);
        assert("if"@ =~= seq!['i', 'f']);
        assert("else"@ =~= seq!['e', 'l', 's', 'e']);
        assert("return"@ =~= seq!['r', 'e', 't', 'u', 'r', 'n']);
    }
    if same_text(ident, "fn") {
        TokenType::Function
    } else if same_text(ident, "let") {
        TokenType::Let
    } else if same_text(ident, "true") {
        TokenType::True
    } else if same_text(ident, "false") {
        TokenType::False
    } else if same_text(ident, "if") {
        TokenType::If
    } else if same_text(ident, "else") {
        TokenType::Else
    } else if same_text(ident, "return") {
        TokenType::Return
    } else {
        TokenType::Ident
    }
}

/// A token: a category and the text it was read from.
#[derive(Debug)]
pub struct Token {
    pub token_type: TokenType,
    pub literal: String,
}

/// The mathematical value of a [`Token`].
pub struct TokenView {
    pub token_type: TokenType,
    pub literal: Seq<char>,
}

impl View for Token {
    type V = TokenView;

    open spec fn view(&self) -> TokenView {
        TokenView { token_type: self.token_type, literal: self.literal@ }
    }
}

impl DeepView for Token {
    type V = TokenView;

    open spec fn deep_view(&self) -> TokenView {
        self@
    }
}

impl TokenView {
    /// Category and literal agree: a category with one spelling carries that
    /// spelling, an identifier is a non-empty run of letters that is no
    /// keyword, an integer is a non-empty run of digits, and an illegal token
    /// is one unrecognized character.
    pub open spec fn agrees(self) -> bool {
        match self.token_type {
            TokenType::Ident => {
                &&& self.literal.len() > 0
                &&& all_in_class(self.literal, CharClass::Letter)
                &&& keyword(self.literal) is None
            },
            TokenType::Int => {
                &&& self.literal.len() > 0
                &&& all_in_class(self.literal, CharClass::Digit)
            },
            TokenType::Illegal => {
                &&& self.literal.len() == 1
                &&& is_unrecognized(self.literal[0])
            },
            t => t.spelling() == Some(self.literal),
        }
    }
}

impl Token {
    /// A token of category `token_type` with a copy of `literal` as its text.
    pub fn new(token_type: TokenType, literal: &str) -> (t: Token)
        ensures
            t@ == (TokenView { token_type, literal: literal@ }),
    {
        Token { token_type, literal: literal.to_owned() }
    }
}

impl Clone for Token {
    fn clone(&self) -> (t: Token)
        ensures
            t == *self,
    {
        Token { token_type: self.token_type, literal: self.literal.clone() }
    }
}

/// The keyword table and the spellings agree: where `text` spells a keyword,
/// it is the one spelling of that keyword's category.
pub proof fn lemma_keyword_spelling(text: Seq<char>)
    ensures
        keyword(text) matches Some(t) ==> t.spelling() == Some(text),
{
}

} // verus!
