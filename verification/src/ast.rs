//! The syntax tree.
//!
//! A [`Program`] owns its [`Statement`]s, and each statement owns what it is
//! made of. Statements and expressions are closed sums: a node is one or the
//! other, never both. Every node can report the literal of the token that
//! introduces it.

use crate::token::{Token, TokenType, TokenView};
use vstd::prelude::*;

verus! {

/// What every node of the tree can do: report the literal text of the token
/// that introduces it.
pub trait Node {
    /// The literal that [`Node::token_literal`] returns.
    spec fn spec_token_literal(&self) -> Seq<char>;

    /// The literal text of the token that introduces this node.
    fn token_literal(&self) -> (literal: String)
        ensures
            literal@ == self.spec_token_literal(),
    ;
}

/// An identifier: a leaf expression that owns a copy of its source text.
#[derive(Debug)]
pub struct Identifier {
    pub token: Token,
    pub value: String,
}

/// The mathematical value of an [`Identifier`].
pub struct IdentifierView {
    pub token: TokenView,
    pub value: Seq<char>,
}

impl View for Identifier {
    type V = IdentifierView;

    open spec fn view(&self) -> IdentifierView {
        IdentifierView { token: self.token@, value: self.value@ }
    }
}

impl Identifier {
    /// An identifier introduced by `token` and named `value`.
    pub fn new(token: Token, value: String) -> (identifier: Self)
        ensures
            identifier.token == token,
            identifier.value == value,
    {
        Identifier { token, value }
    }
}

impl Clone for Identifier {
    fn clone(&self) -> (identifier: Self)
        ensures
            identifier == *self,
    {
        Identifier { token: self.token.clone(), value: self.value.clone() }
    }
}

impl Node for Identifier {
    open spec fn spec_token_literal(&self) -> Seq<char> {
        self.token.literal@
    }

    fn token_literal(&self) -> (literal: String) {
        self.token.literal.clone()
    }
}

/// An expression. Identifiers are the only kind so far.
#[derive(Debug)]
pub enum Expression {
    Identifier(Identifier),
}

/// The mathematical value of an [`Expression`].
pub enum ExpressionView {
    Identifier(IdentifierView),
}

impl View for Expression {
    type V = ExpressionView;

    open spec fn view(&self) -> ExpressionView {
        match self {
            Expression::Identifier(identifier) => ExpressionView::Identifier(identifier@),
        }
    }
}

impl Node for Expression {
    open spec fn spec_token_literal(&self) -> Seq<char> {
        match self {
            Expression::Identifier(identifier) => identifier.spec_token_literal(),
        }
    }

    fn token_literal(&self) -> (literal: String) {
        match self {
            Expression::Identifier(identifier) => identifier.token_literal(),
        }
    }
}

/// The mathematical value of an optional expression.
pub open spec fn expression_view(expression: Option<Expression>) -> Option<ExpressionView> {
    match expression {
        Some(e) => Some(e@),
        None => None,
    }
}

/// A `let` statement: the `let` token, the name being bound once it has been
/// matched, and the bound value once expressions are parsed.
#[derive(Debug)]
pub struct LetStatement {
    pub token: Token,
    pub name: Option<Identifier>,
    pub value: Option<Expression>,
}

/// The mathematical value of a [`LetStatement`].
pub struct LetStatementView {
    pub token: TokenView,
    pub name: Option<IdentifierView>,
    pub value: Option<ExpressionView>,
}

impl View for LetStatement {
    type V = LetStatementView;

    open spec fn view(&self) -> LetStatementView {
        LetStatementView {
            token: self.token@,
            name: match self.name {
                Some(identifier) => Some(identifier@),
                None => None,
            },
            value: expression_view(self.value),
        }
    }
}

impl LetStatement {
    /// A `let` statement introduced by `token`, with neither name nor value
    /// yet.
    pub fn new(token: Token) -> (statement: Self)
        ensures
            statement.token == token,
            statement.name is None,
            statement.value is None,
    {
        LetStatement { token, name: None, value: None }
    }
}

impl Node for LetStatement {
    open spec fn spec_token_literal(&self) -> Seq<char> {
        self.token.literal@
    }

    fn token_literal(&self) -> (literal: String) {
        self.token.literal.clone()
    }
}

/// A `return` statement: the `return` token, and the returned value once
/// expressions are parsed.
#[derive(Debug)]
pub struct ReturnStatement {
    pub token: Token,
    pub return_value: Option<Expression>,
}

/// The mathematical value of a [`ReturnStatement`].
pub struct ReturnStatementView {
    pub token: TokenView,
    pub return_value: Option<ExpressionView>,
}

impl View for ReturnStatement {
    type V = ReturnStatementView;

    open spec fn view(&self) -> ReturnStatementView {
        ReturnStatementView {
            token: self.token@,
            return_value: expression_view(self.return_value),
        }
    }
}

impl ReturnStatement {
    /// A `return` statement introduced by `token`, with no value yet.
    pub fn new(token: Token) -> (statement: Self)
        ensures
            statement.token == token,
            statement.return_value is None,
    {
        ReturnStatement { token, return_value: None }
    }
}

impl Node for ReturnStatement {
    open spec fn spec_token_literal(&self) -> Seq<char> {
        self.token.literal@
    }

    fn token_literal(&self) -> (literal: String) {
        self.token.literal.clone()
    }
}

/// A statement.
#[derive(Debug)]
pub enum Statement {
    Let(LetStatement),
    Return(ReturnStatement),
}

/// The mathematical value of a [`Statement`].
pub enum StatementView {
    Let(LetStatementView),
    Return(ReturnStatementView),
}

impl StatementView {
    /// The token that introduces the statement.
    pub open spec fn token(self) -> TokenView {
        match self {
            StatementView::Let(statement) => statement.token,
            StatementView::Return(statement) => statement.token,
        }
    }

    /// What holds of every statement that the parser builds: a `let`
    /// statement is introduced by a `Let` token and names an identifier whose
    /// value is the literal of its `Ident` token, a `return` statement is
    /// introduced by a `Return` token, and neither carries an expression yet.
    pub open spec fn complete(self) -> bool {
        match self {
            StatementView::Let(statement) => {
                &&& statement.token.token_type == TokenType::Let
                &&& statement.name matches Some(name)
                &&& name.token.token_type == TokenType::Ident
                &&& name.value == name.token.literal
                &&& statement.value is None
            },
            StatementView::Return(statement) => {
                &&& statement.token.token_type == TokenType::Return
                &&& statement.return_value is None
            },
        }
    }
}

impl View for Statement {
    type V = StatementView;

    open spec fn view(&self) -> StatementView {
        match self {
            Statement::Let(statement) => StatementView::Let(statement@),
            Statement::Return(statement) => StatementView::Return(statement@),
        }
    }
}

/// The mathematical value of an optional statement.
pub open spec fn statement_view(statement: Option<Statement>) -> Option<StatementView> {
    match statement {
        Some(s) => Some(s@),
        None => None,
    }
}

impl DeepView for Statement {
    type V = StatementView;

    open spec fn deep_view(&self) -> StatementView {
        self@
    }
}

impl Node for Statement {
    open spec fn spec_token_literal(&self) -> Seq<char> {
        self@.token().literal
    }

    fn token_literal(&self) -> (literal: String) {
        match self {
            Statement::Let(statement) => statement.token_literal(),
            Statement::Return(statement) => statement.token_literal(),
        }
    }
}

/// The root of every parse: the statements of a program, in source order.
#[derive(Debug)]
pub struct Program {
    pub statements: Vec<Statement>,
}

impl View for Program {
    type V = Seq<StatementView>;

    open spec fn view(&self) -> Seq<StatementView> {
        self.statements.deep_view()
    }
}

impl Program {
    /// A program without statements.
    pub fn new() -> (program: Self)
        ensures
            program@ == Seq::<StatementView>::empty(),
    {
        Program { statements: Vec::new() }
    }
}

impl Node for Program {
    /// The literal of the token that introduces the first statement, and
    /// the empty text for a program without statements.
    open spec fn spec_token_literal(&self) -> Seq<char> {
        if self@.len() == 0 {
            Seq::<char>::empty()
        } else {
            self@[0].token().literal
        }
    }

    fn token_literal(&self) -> (literal: String) {
        if self.statements.len() == 0 {
            return String::new();
        }
        self.statements[0].token_literal()
    }
}

} // verus!
