//! The statement parser.
//!
//! The first part of this file is the grammar: over a sequence of tokens it
//! says which statements and which diagnostics a parse yields. The second
//! part is the [`Parser`], which pulls tokens from a [`Lexer`] with one token
//! of lookahead and computes exactly that.

use crate::ast::{
    statement_view, Identifier, IdentifierView, LetStatement, LetStatementView, Program,
    ReturnStatement, ReturnStatementView, Statement, StatementView,
};
use crate::lexer::{
    lemma_token_bounds, lemma_token_stream, terminated, token_at, token_end, token_stream, Lexer,
};
use crate::token::{Token, TokenType, TokenView};
use vstd::prelude::*;

verus! {

/// The category of the token at `i`, and `Eof` beyond the last token.
pub open spec fn type_at(tokens: Seq<TokenView>, i: int) -> TokenType {
    if 0 <= i < tokens.len() {
        tokens[i].token_type
    } else {
        TokenType::Eof
    }
}

/// The tokens that are left when the first of `tokens` has been consumed. The
/// last token, the `Eof`, is never consumed.
pub open spec fn shifted(tokens: Seq<TokenView>) -> Seq<TokenView> {
    if tokens.len() > 1 {
        tokens.skip(1)
    } else {
        tokens
    }
}

/// The index of the first token from `from` on that ends a statement, a
/// `Semicolon` or an `Eof`, or the length of `tokens` if there is none.
pub open spec fn statement_end(tokens: Seq<TokenView>, from: nat) -> nat
    decreases tokens.len() - from,
{
    if from < tokens.len() && tokens[from as int].token_type != TokenType::Semicolon
        && tokens[from as int].token_type != TokenType::Eof {
        statement_end(tokens, from + 1)
    } else {
        from
    }
}

/// The text of the diagnostic for a token of category `actual` where one of
/// category `expected` was required.
pub open spec fn diagnostic(expected: TokenType, actual: TokenType) -> Seq<char> {
    "expected next token to be "@ + expected.spec_name() + ", got "@ + actual.spec_name()
        + " instead"@
}

/// What parsing one statement yields: the statement or the diagnostic, and
/// the index of the token at which the next statement is looked for.
pub struct Step {
    pub statement: Option<StatementView>,
    pub diagnostic: Option<Seq<char>>,
    pub next: nat,
}

/// The end of a statement whose expression starts at `from`: the tokens up to
/// the next `Semicolon` are passed over and `statement` is complete. Where the
/// input ends first, the statement is given up with a diagnostic.
pub open spec fn finish(tokens: Seq<TokenView>, from: nat, statement: StatementView) -> Step {
    let end = statement_end(tokens, from);
    if type_at(tokens, end as int) == TokenType::Semicolon {
        Step { statement: Some(statement), diagnostic: None, next: end + 1 }
    } else {
        Step {
            statement: None,
            diagnostic: Some(diagnostic(TokenType::Semicolon, TokenType::Eof)),
            next: end,
        }
    }
}

/// A `let` statement at the head of `tokens`: `let`, an identifier, `=`, and
/// anything up to the next semicolon. A missing identifier or `=` gives up
/// the statement with a diagnostic, and parsing goes on at the token that was
/// found in its place.
pub open spec fn let_step(tokens: Seq<TokenView>) -> Step {
    if type_at(tokens, 1) != TokenType::Ident {
        Step {
            statement: None,
            diagnostic: Some(diagnostic(TokenType::Ident, type_at(tokens, 1))),
            next: 1,
        }
    } else if type_at(tokens, 2) != TokenType::Assign {
        Step {
            statement: None,
            diagnostic: Some(diagnostic(TokenType::Assign, type_at(tokens, 2))),
            next: 2,
        }
    } else {
        finish(
            tokens,
            3,
            StatementView::Let(
                LetStatementView {
                    token: tokens[0],
                    name: Some(IdentifierView { token: tokens[1], value: tokens[1].literal }),
                    value: None,
                },
            ),
        )
    }
}

/// A `return` statement at the head of `tokens`: `return` and anything up to
/// the next semicolon.
pub open spec fn return_step(tokens: Seq<TokenView>) -> Step {
    finish(
        tokens,
        1,
        StatementView::Return(ReturnStatementView { token: tokens[0], return_value: None }),
    )
}

/// One statement at the head of `tokens`. A token that begins no statement is
/// passed over.
pub open spec fn step(tokens: Seq<TokenView>) -> Step {
    match type_at(tokens, 0) {
        TokenType::Let => let_step(tokens),
        TokenType::Return => return_step(tokens),
        _ => Step { statement: None, diagnostic: None, next: 1 },
    }
}

/// What a parse yields: the statements in source order, and the diagnostics
/// in the order in which they arose.
pub struct Parsed {
    pub statements: Seq<StatementView>,
    pub errors: Seq<Seq<char>>,
}

/// The sequence of the one element of `option`, or the empty sequence.
pub open spec fn optional<T>(option: Option<T>) -> Seq<T> {
    match option {
        Some(t) => seq![t],
        None => Seq::empty(),
    }
}

/// The parse of `tokens`: one statement after the other up to the first
/// `Eof`.
pub open spec fn parse(tokens: Seq<TokenView>) -> Parsed
    decreases tokens.len(),
{
    if type_at(tokens, 0) == TokenType::Eof {
        Parsed { statements: Seq::empty(), errors: Seq::empty() }
    } else {
        proof {
            lemma_step_bounds(tokens);
        }
        let first = step(tokens);
        let rest = parse(tokens.skip(first.next as int));
        Parsed {
            statements: optional(first.statement) + rest.statements,
            errors: optional(first.diagnostic) + rest.errors,
        }
    }
}

/// What [`statement_end`] computes, stated directly: no token from `from` up
/// to it ends a statement, and the token at it does, if there is one.
pub proof fn lemma_statement_end(tokens: Seq<TokenView>, from: nat)
    ensures
        from <= statement_end(tokens, from),
        from <= tokens.len() ==> statement_end(tokens, from) <= tokens.len(),
        forall|i: int|
            from <= i < statement_end(tokens, from) ==> {
                &&& (#[trigger] tokens[i]).token_type != TokenType::Semicolon
                &&& tokens[i].token_type != TokenType::Eof
            },
        type_at(tokens, statement_end(tokens, from) as int) == TokenType::Semicolon || type_at(
            tokens,
            statement_end(tokens, from) as int,
        ) == TokenType::Eof,
    decreases tokens.len() - from,
{
    if from < tokens.len() && tokens[from as int].token_type != TokenType::Semicolon
        && tokens[from as int].token_type != TokenType::Eof {
        lemma_statement_end(tokens, from + 1);
    }
}

/// Every step moves on by at least one token and stays within the tokens;
/// in a terminated sequence it stops at the final `Eof` at the latest.
pub proof fn lemma_step_bounds(tokens: Seq<TokenView>)
    requires
        type_at(tokens, 0) != TokenType::Eof,
    ensures
        1 <= step(tokens).next <= tokens.len(),
        terminated(tokens) ==> step(tokens).next < tokens.len(),
{
    lemma_statement_end(tokens, 1);
    lemma_statement_end(tokens, 3);
    if terminated(tokens) {
        let last = tokens.len() - 1;
        assert(tokens[last].token_type == TokenType::Eof);
        assert(tokens[0].token_type != TokenType::Eof);
        if type_at(tokens, 1) == TokenType::Ident {
            assert(tokens[1].token_type != TokenType::Eof);
            if type_at(tokens, 2) == TokenType::Assign {
                assert(tokens[2].token_type != TokenType::Eof);
            }
        }
    }
}

/// The end of a statement is the same seen from further on: dropping `k`
/// tokens in front of `from` shifts it by `k`.
pub proof fn lemma_statement_end_skip(tokens: Seq<TokenView>, k: nat, from: nat)
    requires
        k <= tokens.len(),
    ensures
        statement_end(tokens.skip(k as int), from) + k == statement_end(tokens, from + k),
    decreases tokens.len() - from,
{
    let rest = tokens.skip(k as int);
    if from < rest.len() {
        assert(rest[from as int] == tokens[(from + k) as int]);
        if rest[from as int].token_type != TokenType::Semicolon && rest[from as int].token_type
            != TokenType::Eof {
            lemma_statement_end_skip(tokens, k, from + 1);
        }
    }
}

/// Every statement of a parse is complete: a `let` statement has its `Let`
/// token and the name that its `Ident` token spells, a `return` statement has
/// its `Return` token. A statement that lacks a part is never handed out.
pub proof fn lemma_parsed_statements_complete(tokens: Seq<TokenView>)
    ensures
        forall|i: int|
            0 <= i < parse(tokens).statements.len() ==> (#[trigger] parse(
                tokens,
            ).statements[i]).complete(),
    decreases tokens.len(),
{
    if type_at(tokens, 0) != TokenType::Eof {
        lemma_step_bounds(tokens);
        let first = step(tokens);
        let rest = parse(tokens.skip(first.next as int));
        lemma_parsed_statements_complete(tokens.skip(first.next as int));
        assert forall|i: int| 0 <= i < parse(tokens).statements.len() implies (#[trigger] parse(
            tokens,
        ).statements[i]).complete() by {
            let head = optional(first.statement);
            if i >= head.len() {
                assert(parse(tokens).statements[i] == rest.statements[i - head.len()]);
            }
        }
    }
}

/// A `let` that is not followed by an identifier yields no statement and one
/// diagnostic, which names `Ident` as expected and the category that was
/// found; parsing goes on at the token that was found.
pub proof fn lemma_let_without_name(tokens: Seq<TokenView>)
    requires
        type_at(tokens, 0) == TokenType::Let,
        type_at(tokens, 1) != TokenType::Ident,
    ensures
        parse(tokens).statements == parse(tokens.skip(1)).statements,
        parse(tokens).errors == seq![diagnostic(TokenType::Ident, type_at(tokens, 1))] + parse(
            tokens.skip(1),
        ).errors,
{
    assert(parse(tokens).statements =~= parse(tokens.skip(1)).statements);
}

/// A recursive-descent parser with one token of lookahead.
pub struct Parser {
    lexer: Lexer,
    cur_token: Token,
    peek_token: Token,
    errors: Vec<String>,
    /// The position in the source text at which `cur_token` was read.
    cur_start: Ghost<nat>,
}

impl Parser {
    /// The invariant of the parser: the current token and the token after it
    /// are the two that were read last, in this order, and the tokenizer
    /// stands behind them.
    pub closed spec fn wf(&self) -> bool {
        let s = self.lexer.source();
        let at = self.cur_start@;
        &&& self.lexer.wf()
        &&& at <= s.len()
        &&& self.cur_token@ == token_at(s, at)
        &&& self.peek_token@ == token_at(s, token_end(s, at))
        &&& self.lexer.position() == token_end(s, token_end(s, at))
    }

    /// The tokens that are still to be parsed, from the current token up to
    /// and including the `Eof` that ends the source text.
    pub closed spec fn pending(&self) -> Seq<TokenView> {
        token_stream(self.lexer.source(), self.cur_start@)
    }

    /// The diagnostics recorded so far, oldest first.
    pub closed spec fn diagnostics(&self) -> Seq<Seq<char>> {
        self.errors.deep_view()
    }

    /// The pending tokens end with the one `Eof` among them.
    pub proof fn lemma_pending_terminated(&self)
        requires
            self.wf(),
        ensures
            terminated(self.pending()),
    {
        lemma_token_stream(self.lexer.source(), self.cur_start@);
    }

    /// The two tokens that the parser holds are the first two that are
    /// pending.
    proof fn lemma_lookahead(&self)
        requires
            self.wf(),
        ensures
            terminated(self.pending()),
            self.pending()[0] == self.cur_token@,
            self.pending().len() > 1 ==> self.pending()[1] == self.peek_token@,
            type_at(self.pending(), 0) == self.cur_token.token_type,
            type_at(self.pending(), 1) == self.peek_token.token_type,
    {
        let s = self.lexer.source();
        let at = self.cur_start@;
        lemma_token_bounds(s, at);
        lemma_token_stream(s, at);
        lemma_token_stream(s, token_end(s, at));
        if self.pending().len() > 1 {
            assert(self.pending()[1] == self.pending().skip(1)[0]);
        }
    }

    /// A parser over the tokens that `lexer` has yet to deliver. The first
    /// two of them are read at once.
    pub fn new(lexer: Lexer) -> (parser: Parser)
        requires
            lexer.wf(),
        ensures
            parser.wf(),
            parser.pending() == token_stream(lexer.source(), lexer.position()),
            parser.diagnostics() == Seq::<Seq<char>>::empty(),
    {
        let ghost start = lexer.position();
        proof {
            lexer.lemma_position_in_source();
        }
        let mut lexer = lexer;
        let cur_token = lexer.next_token();
        let peek_token = lexer.next_token();
        Parser { lexer, cur_token, peek_token, errors: Vec::new(), cur_start: Ghost(start) }
    }

    /// Shifts the lookahead: the token after the current one becomes the
    /// current one, and the next token is read in its place. At the end of
    /// input nothing is left to shift.
    fn next_token(&mut self)
        requires
            old(self).wf(),
        ensures
            final(self).wf(),
            final(self).diagnostics() == old(self).diagnostics(),
            final(self).pending() == shifted(old(self).pending()),
    {
        proof {
            let s = self.lexer.source();
            let at = self.cur_start@;
            lemma_token_bounds(s, at);
            lemma_token_stream(s, at);
        }
        self.cur_token = self.peek_token.clone();
        self.peek_token = self.lexer.next_token();
        self.cur_start = Ghost(token_end(self.lexer.source(), self.cur_start@));
    }

    /// The diagnostics recorded so far, oldest first.
    pub fn errors(&self) -> (errors: Vec<String>)
        ensures
            errors.deep_view() == self.diagnostics(),
    {
        let errors = self.errors.clone();
        assert(errors.deep_view() =~= self.errors.deep_view());
        errors
    }

    /// Records that the token after the current one is not of the category
    /// `token_type`.
    fn peek_error(&mut self, token_type: TokenType)
        requires
            old(self).wf(),
        ensures
            final(self).wf(),
            final(self).pending() == old(self).pending(),
            final(self).diagnostics() == old(self).diagnostics().push(
                diagnostic(token_type, type_at(old(self).pending(), 1)),
            ),
    {
        proof {
            self.lemma_lookahead();
        }
        let mut msg = String::from_str("expected next token to be ");
        msg.append(token_type.name());
        msg.append(", got ");
        msg.append(self.peek_token.token_type.name());
        msg.append(" instead");
        let ghost before = self.errors.deep_view();
        self.errors.push(msg);
        assert(self.errors.deep_view() =~= before.push(msg@));
    }

    /// Whether the current token is of the category `token_type`.
    fn cur_token_is(&self, token_type: TokenType) -> (is: bool)
        requires
            self.wf(),
        ensures
            is == (type_at(self.pending(), 0) == token_type),
    {
        proof {
            self.lemma_lookahead();
        }
        self.cur_token.token_type == token_type
    }

    /// Whether the token after the current one is of the category
    /// `token_type`.
    fn peek_token_is(&self, token_type: TokenType) -> (is: bool)
        requires
            self.wf(),
        ensures
            is == (type_at(self.pending(), 1) == token_type),
    {
        proof {
            self.lemma_lookahead();
        }
        self.peek_token.token_type == token_type
    }

    /// Shifts if the token after the current one is of the category
    /// `token_type`; records a diagnostic and stays otherwise.
    fn expect_peek(&mut self, token_type: TokenType) -> (found: bool)
        requires
            old(self).wf(),
        ensures
            final(self).wf(),
            found == (type_at(old(self).pending(), 1) == token_type),
            found ==> {
                &&& final(self).pending() == shifted(old(self).pending())
                &&& final(self).diagnostics() == old(self).diagnostics()
            },
            !found ==> {
                &&& final(self).pending() == old(self).pending()
                &&& final(self).diagnostics() == old(self).diagnostics().push(
                    diagnostic(token_type, type_at(old(self).pending(), 1)),
                )
            },
    {
        if self.peek_token_is(token_type) {
            self.next_token();
            return true;
        }
        self.peek_error(token_type);
        false
    }

    /// Passes over the tokens up to the next `Semicolon` and stops on it.
    /// Where the input ends first, stops before the `Eof` and records that a
    /// `Semicolon` was expected.
    fn skip_to_semicolon(&mut self) -> (found: bool)
        requires
            old(self).wf(),
        ensures
            final(self).wf(),
            found == (type_at(old(self).pending(), statement_end(old(self).pending(), 1) as int)
                == TokenType::Semicolon),
            found ==> {
                &&& final(self).pending() == old(self).pending().skip(
                    statement_end(old(self).pending(), 1) as int,
                )
                &&& final(self).diagnostics() == old(self).diagnostics()
            },
            !found ==> {
                &&& final(self).pending() == old(self).pending().skip(
                    statement_end(old(self).pending(), 1) - 1,
                )
                &&& final(self).diagnostics() == old(self).diagnostics().push(
                    diagnostic(TokenType::Semicolon, TokenType::Eof),
                )
            },
    {
        let ghost tokens = self.pending();
        let ghost mut passed: nat = 0;
        proof {
            self.lemma_pending_terminated();
            assert(tokens.skip(0) =~= tokens);
        }
        while !self.peek_token_is(TokenType::Semicolon) && !self.peek_token_is(TokenType::Eof)
            invariant
                self.wf(),
                terminated(tokens),
                passed < tokens.len(),
                self.pending() == tokens.skip(passed as int),
                self.diagnostics() == old(self).diagnostics(),
                statement_end(tokens, passed + 1) == statement_end(tokens, 1),
            decreases tokens.len() - passed,
        {
            proof {
                assert(tokens.skip(passed as int)[1] == tokens[passed + 1 as int]);
                assert(tokens.skip(passed as int).skip(1) =~= tokens.skip(passed + 1 as int));
            }
            self.next_token();
            proof {
                passed = passed + 1;
            }
        }
        proof {
            if passed + 1 < tokens.len() {
                assert(tokens.skip(passed as int)[1] == tokens[passed + 1 as int]);
            }
            assert(tokens.skip(passed as int).skip(1) =~= tokens.skip(passed + 1 as int));
        }
        self.expect_peek(TokenType::Semicolon)
    }

    /// Parses the `let` statement that the current token begins.
    ///
    /// On return the current token is the last one of the statement: its
    /// semicolon, or the token before the one that was found in place of a
    /// required one.
    fn parse_let_statement(&mut self) -> (statement: Option<Statement>)
        requires
            old(self).wf(),
        ensures
            final(self).wf(),
            statement_view(statement) == let_step(old(self).pending()).statement,
            final(self).diagnostics() == old(self).diagnostics() + optional(
                let_step(old(self).pending()).diagnostic,
            ),
            final(self).pending() == old(self).pending().skip(
                let_step(old(self).pending()).next - 1,
            ),
    {
        let ghost tokens = self.pending();
        proof {
            self.lemma_lookahead();
            assert(tokens.skip(0) =~= tokens);
        }
        let mut let_stmt = LetStatement::new(self.cur_token.clone());

        if !self.expect_peek(TokenType::Ident) {
            return None;
        }
        proof {
            self.lemma_lookahead();
            assert(tokens.skip(1)[0] == tokens[1]);
        }
        let_stmt.name = Some(
            Identifier::new(self.cur_token.clone(), self.cur_token.literal.clone()),
        );

        proof {
            if tokens.len() > 2 {
                assert(tokens.skip(1)[1] == tokens[2]);
            }
        }
        if !self.expect_peek(TokenType::Assign) {
            return None;
        }
        proof {
            assert(tokens.skip(1).skip(1) =~= tokens.skip(2));
            lemma_statement_end_skip(tokens, 2, 1);
            lemma_statement_end(tokens, 3);
            let end = statement_end(tokens, 3);
            if end < tokens.len() {
                assert(tokens.skip(2)[end - 2] == tokens[end as int]);
            }
            assert(tokens.skip(2).skip(end - 2) =~= tokens.skip(end as int));
            assert(tokens.skip(2).skip(end - 3) =~= tokens.skip(end - 1));
        }
        if !self.skip_to_semicolon() {
            return None;
        }
        Some(Statement::Let(let_stmt))
    }

    /// Parses the `return` statement that the current token begins.
    ///
    /// On return the current token is the last one of the statement: its
    /// semicolon, or the last token of the input.
    fn parse_return_statement(&mut self) -> (statement: Option<Statement>)
        requires
            old(self).wf(),
        ensures
            final(self).wf(),
            statement_view(statement) == return_step(old(self).pending()).statement,
            final(self).diagnostics() == old(self).diagnostics() + optional(
                return_step(old(self).pending()).diagnostic,
            ),
            final(self).pending() == old(self).pending().skip(
                return_step(old(self).pending()).next - 1,
            ),
    {
        proof {
            self.lemma_lookahead();
        }
        let return_stmt = ReturnStatement::new(self.cur_token.clone());
        if !self.skip_to_semicolon() {
            return None;
        }
        Some(Statement::Return(return_stmt))
    }

    /// Parses the statement that the current token begins, if it begins one.
    fn parse_statement(&mut self) -> (statement: Option<Statement>)
        requires
            old(self).wf(),
        ensures
            final(self).wf(),
            statement_view(statement) == step(old(self).pending()).statement,
            final(self).diagnostics() == old(self).diagnostics() + optional(
                step(old(self).pending()).diagnostic,
            ),
            final(self).pending() == old(self).pending().skip(step(old(self).pending()).next - 1),
    {
        proof {
            self.lemma_lookahead();
            assert(self.pending().skip(0) =~= self.pending());
        }
        match self.cur_token.token_type {
            TokenType::Let => self.parse_let_statement(),
            TokenType::Return => self.parse_return_statement(),
            _ => None,
        }
    }

    /// Parses all the pending tokens.
    ///
    /// The result is always a program: malformed input yields fewer
    /// statements and more diagnostics, never a failure.
    pub fn parse_program(&mut self) -> (program: Option<Program>)
        requires
            old(self).wf(),
        ensures
            final(self).wf(),
            program matches Some(p) && p@ == parse(old(self).pending()).statements,
            final(self).diagnostics() == old(self).diagnostics() + parse(
                old(self).pending(),
            ).errors,
            final(self).pending() == seq![old(self).pending().last()],
    {
        let ghost tokens = self.pending();
        let mut program = Program::new();
        proof {
            self.lemma_pending_terminated();
        }
        while !self.cur_token_is(TokenType::Eof)
            invariant
                self.wf(),
                terminated(self.pending()),
                self.pending().last() == tokens.last(),
                program@ + parse(self.pending()).statements == parse(tokens).statements,
                self.diagnostics() + parse(self.pending()).errors == old(self).diagnostics()
                    + parse(tokens).errors,
            decreases self.pending().len(),
        {
            let ghost before = self.pending();
            let ghost first = step(before);
            let ghost statements = program@;
            let ghost errors = self.diagnostics();
            proof {
                lemma_step_bounds(before);
            }
            let statement = self.parse_statement();
            if let Some(s) = statement {
                program.statements.push(s);
            }
            proof {
                assert(program@ =~= statements + optional(first.statement));
            }
            self.next_token();
            proof {
                assert(before.skip(first.next - 1).skip(1) =~= before.skip(first.next as int));
                self.lemma_pending_terminated();
                assert(statements + optional(first.statement) + parse(
                    before.skip(first.next as int),
                ).statements =~= statements + parse(before).statements);
                assert(errors + optional(first.diagnostic) + parse(
                    before.skip(first.next as int),
                ).errors =~= errors + parse(before).errors);
            }
        }
        proof {
            self.lemma_pending_terminated();
            assert(self.pending() =~= seq![tokens.last()]);
        }
        Some(program)
    }
}

} // verus!
