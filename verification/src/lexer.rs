//! The tokenizer.
//!
//! The first part of this file says, over a sequence of characters and a
//! position in it, which token begins there and where it ends. The second
//! part is the [`Lexer`], which computes exactly that, one token per call.

use crate::chars::{
    all_in_class, digit, in_class, is_digit, is_letter, letter, whitespace, CharClass,
};
use crate::token::{
    ident_type, lemma_keyword_spelling, lookup_ident, punctuation, punctuation_type, Token,
    TokenType, TokenView,
};
use vstd::prelude::*;

verus! {

/// The end of the longest run of `class` characters of `s` that begins at
/// `pos`: the first position from `pos` on that holds no such character, or
/// the end of `s`.
pub open spec fn run_end(s: Seq<char>, pos: nat, class: CharClass) -> nat
    decreases s.len() - pos,
{
    if pos < s.len() && in_class(class, s[pos as int]) {
        run_end(s, (pos + 1) as nat, class)
    } else {
        pos
    }
}

/// What [`run_end`] computes, stated directly: everything from `pos` up to it
/// is in the class, and the run cannot be extended.
pub proof fn lemma_run_end(s: Seq<char>, pos: nat, class: CharClass)
    ensures
        pos <= run_end(s, pos, class),
        pos <= s.len() ==> run_end(s, pos, class) <= s.len(),
        forall|i: int| pos <= i < run_end(s, pos, class) ==> in_class(class, #[trigger] s[i]),
        run_end(s, pos, class) < s.len() ==> !in_class(class, s[run_end(s, pos, class) as int]),
    decreases s.len() - pos,
{
    if pos < s.len() && in_class(class, s[pos as int]) {
        lemma_run_end(s, (pos + 1) as nat, class);
    }
}

/// Where the token read at `pos` begins: after the whitespace at `pos`.
pub open spec fn token_start(s: Seq<char>, pos: nat) -> nat {
    run_end(s, pos, CharClass::Whitespace)
}

/// Whether the character at `i` is followed directly by `=`.
pub open spec fn before_equals(s: Seq<char>, i: nat) -> bool {
    i + 1 < s.len() && s[i + 1 as int] == '='
}

/// Where the token read at `pos` ends, one past its last character. At the end
/// of input it ends where it begins.
pub open spec fn token_end(s: Seq<char>, pos: nat) -> nat {
    let start = token_start(s, pos);
    if start >= s.len() {
        start
    } else {
        let c = s[start as int];
        if is_letter(c) {
            run_end(s, start, CharClass::Letter)
        } else if is_digit(c) {
            run_end(s, start, CharClass::Digit)
        } else if (c == '=' || c == '!') && before_equals(s, start) {
            (start + 2) as nat
        } else {
            (start + 1) as nat
        }
    }
}

/// The category of the token read at `pos`.
pub open spec fn token_type_at(s: Seq<char>, pos: nat) -> TokenType {
    let start = token_start(s, pos);
    if start >= s.len() {
        TokenType::Eof
    } else {
        let c = s[start as int];
        if is_letter(c) {
            ident_type(s.subrange(start as int, token_end(s, pos) as int))
        } else if is_digit(c) {
            TokenType::Int
        } else if c == '=' && before_equals(s, start) {
            TokenType::Eq
        } else if c == '!' && before_equals(s, start) {
            TokenType::NotEq
        } else {
            match punctuation(c) {
                Some(t) => t,
                None => TokenType::Illegal,
            }
        }
    }
}

/// The token read at `pos`: its category, and as its literal the characters
/// of `s` from where it begins to where it ends.
pub open spec fn token_at(s: Seq<char>, pos: nat) -> TokenView {
    TokenView {
        token_type: token_type_at(s, pos),
        literal: s.subrange(token_start(s, pos) as int, token_end(s, pos) as int),
    }
}

/// Reading a token never moves backwards and never leaves the input; short of
/// the end of input it consumes at least one character.
pub proof fn lemma_token_bounds(s: Seq<char>, pos: nat)
    requires
        pos <= s.len(),
    ensures
        pos <= token_start(s, pos) <= token_end(s, pos) <= s.len(),
        token_start(s, pos) < s.len() ==> token_start(s, pos) < token_end(s, pos),
        token_start(s, pos) < s.len() <==> token_type_at(s, pos) != TokenType::Eof,
{
    let start = token_start(s, pos);
    lemma_run_end(s, pos, CharClass::Whitespace);
    if start < s.len() {
        lemma_run_end(s, start, CharClass::Letter);
        lemma_run_end(s, start, CharClass::Digit);
        lemma_run_end(s, (start + 1) as nat, CharClass::Letter);
        lemma_run_end(s, (start + 1) as nat, CharClass::Digit);
    }
}

/// Every token agrees with its category: the literal that is read for a
/// category is one that the category admits.
pub proof fn lemma_token_agrees(s: Seq<char>, pos: nat)
    requires
        pos <= s.len(),
    ensures
        token_at(s, pos).agrees(),
{
    let start = token_start(s, pos);
    let end = token_end(s, pos);
    let literal = s.subrange(start as int, end as int);
    lemma_token_bounds(s, pos);
    lemma_run_end(s, pos, CharClass::Whitespace);
    if start >= s.len() {
        assert(literal =~= Seq::<char>::empty());
    } else {
        let c = s[start as int];
        if is_letter(c) {
            lemma_run_end(s, start, CharClass::Letter);
            assert forall|i: int| 0 <= i < literal.len() implies in_class(
                CharClass::Letter,
                #[trigger] literal[i],
            ) by {
                assert(literal[i] == s[start + i]);
            }
            lemma_keyword_spelling(literal);
        } else if is_digit(c) {
            lemma_run_end(s, start, CharClass::Digit);
            assert forall|i: int| 0 <= i < literal.len() implies in_class(
                CharClass::Digit,
                #[trigger] literal[i],
            ) by {
                assert(literal[i] == s[start + i]);
            }
        } else if (c == '=' || c == '!') && before_equals(s, start) {
            assert(literal =~= seq![c, '=']);
        } else {
            assert(literal =~= seq![c]);
        }
    }
}

/// The one place where a second character decides: `=` and `!` directly
/// followed by `=` are read as one token, `==` or `!=`, and both characters
/// are consumed; followed by anything else, or by nothing, they are read as
/// `=` or `!` alone and reading resumes at the very next character.
pub proof fn lemma_two_character_lookahead(s: Seq<char>, pos: nat)
    requires
        token_start(s, pos) < s.len(),
        s[token_start(s, pos) as int] == '=' || s[token_start(s, pos) as int] == '!',
    ensures
        before_equals(s, token_start(s, pos)) ==> {
            &&& token_end(s, pos) == token_start(s, pos) + 2
            &&& token_at(s, pos).literal == seq![s[token_start(s, pos) as int], '=']
            &&& token_type_at(s, pos) == if s[token_start(s, pos) as int] == '=' {
                TokenType::Eq
            } else {
                TokenType::NotEq
            }
        },
        !before_equals(s, token_start(s, pos)) ==> {
            &&& token_end(s, pos) == token_start(s, pos) + 1
            &&& token_at(s, pos).literal == seq![s[token_start(s, pos) as int]]
            &&& token_type_at(s, pos) == if s[token_start(s, pos) as int] == '=' {
                TokenType::Assign
            } else {
                TokenType::Bang
            }
        },
{
    let start = token_start(s, pos);
    let c = s[start as int];
    let literal = s.subrange(start as int, token_end(s, pos) as int);
    if before_equals(s, start) {
        assert(literal =~= seq![c, '=']);
    } else {
        assert(literal =~= seq![c]);
    }
}

/// Digits do not continue an identifier: a token that begins with a letter
/// holds letters only, and where a digit follows it directly, the next token
/// is an integer that begins at that digit.
pub proof fn lemma_identifier_stops_at_digit(s: Seq<char>, pos: nat)
    requires
        token_start(s, pos) < s.len(),
        is_letter(s[token_start(s, pos) as int]),
    ensures
        all_in_class(token_at(s, pos).literal, CharClass::Letter),
        token_end(s, pos) < s.len() ==> !is_letter(s[token_end(s, pos) as int]),
        token_end(s, pos) < s.len() && is_digit(s[token_end(s, pos) as int]) ==> {
            &&& token_start(s, token_end(s, pos)) == token_end(s, pos)
            &&& token_type_at(s, token_end(s, pos)) == TokenType::Int
        },
{
    let start = token_start(s, pos);
    let end = token_end(s, pos);
    let literal = token_at(s, pos).literal;
    lemma_run_end(s, start, CharClass::Letter);
    assert forall|i: int| 0 <= i < literal.len() implies in_class(
        CharClass::Letter,
        #[trigger] literal[i],
    ) by {
        assert(literal[i] == s[start + i]);
    }
}

/// The position after `n` tokens have been read from `pos`.
pub open spec fn position_after(s: Seq<char>, pos: nat, n: nat) -> nat
    decreases n,
{
    if n == 0 {
        pos
    } else {
        token_end(s, position_after(s, pos, (n - 1) as nat))
    }
}

/// The end of input is final: once nothing but whitespace is left, every
/// token read, however many are, is `Eof` with an empty literal; the first of
/// them moves the position to the end of the source text, where it stays.
pub proof fn lemma_end_of_input_is_final(s: Seq<char>, pos: nat, n: nat)
    requires
        pos <= s.len(),
        token_type_at(s, pos) == TokenType::Eof,
    ensures
        token_at(s, position_after(s, pos, n)) == (TokenView {
            token_type: TokenType::Eof,
            literal: Seq::<char>::empty(),
        }),
        n > 0 ==> position_after(s, pos, n) == s.len(),
        pos == s.len() ==> position_after(s, pos, n) == pos,
    decreases n,
{
    lemma_token_bounds(s, pos);
    if n > 0 {
        lemma_end_of_input_is_final(s, pos, (n - 1) as nat);
    }
    assert(s.subrange(s.len() as int, s.len() as int) =~= Seq::<char>::empty());
}

/// The tokens read from `pos` on, up to and including the first `Eof`.
pub open spec fn token_stream(s: Seq<char>, pos: nat) -> Seq<TokenView>
    decreases s.len() - pos,
{
    if pos <= s.len() && token_start(s, pos) < s.len() {
        proof {
            lemma_token_bounds(s, pos);
        }
        seq![token_at(s, pos)] + token_stream(s, token_end(s, pos))
    } else {
        seq![token_at(s, pos)]
    }
}

/// A sequence of tokens as a tokenizer delivers it: its last token, and no
/// other, is `Eof`.
pub open spec fn terminated(tokens: Seq<TokenView>) -> bool {
    &&& tokens.len() > 0
    &&& forall|i: int|
        0 <= i < tokens.len() ==> ((#[trigger] tokens[i]).token_type == TokenType::Eof <==> i
            == tokens.len() - 1)
}

/// The stream of tokens is terminated, begins with the token read first, and
/// goes on with the stream read from where that token ends. At the end of
/// input the stream is the one `Eof`, wherever it is read from.
pub proof fn lemma_token_stream(s: Seq<char>, pos: nat)
    requires
        pos <= s.len(),
    ensures
        terminated(token_stream(s, pos)),
        token_stream(s, pos)[0] == token_at(s, pos),
        token_type_at(s, pos) != TokenType::Eof ==> token_stream(s, pos).skip(1) == token_stream(
            s,
            token_end(s, pos),
        ),
        token_type_at(s, pos) == TokenType::Eof ==> token_stream(s, pos) == seq![token_at(s, pos)]
            && token_stream(s, token_end(s, pos)) == token_stream(s, pos),
    decreases s.len() - pos,
{
    lemma_token_bounds(s, pos);
    let stream = token_stream(s, pos);
    if token_start(s, pos) < s.len() {
        let rest = token_stream(s, token_end(s, pos));
        lemma_token_stream(s, token_end(s, pos));
        assert(stream.skip(1) =~= rest);
        assert forall|i: int| 0 <= i < stream.len() implies ((#[trigger] stream[i]).token_type
            == TokenType::Eof <==> i == stream.len() - 1) by {
            if i > 0 {
                assert(stream[i] == rest[i - 1]);
            }
        }
    } else {
        lemma_token_bounds(s, s.len());
    }
}

/// Every token of the stream agrees with its category.
pub proof fn lemma_token_stream_agrees(s: Seq<char>, pos: nat)
    requires
        pos <= s.len(),
    ensures
        forall|i: int|
            0 <= i < token_stream(s, pos).len() ==> (#[trigger] token_stream(s, pos)[i]).agrees(),
    decreases s.len() - pos,
{
    lemma_token_bounds(s, pos);
    lemma_token_agrees(s, pos);
    if token_start(s, pos) < s.len() {
        lemma_token_stream_agrees(s, token_end(s, pos));
        let stream = token_stream(s, pos);
        let rest = token_stream(s, token_end(s, pos));
        assert forall|i: int| 0 <= i < stream.len() implies (#[trigger] stream[i]).agrees() by {
            if i > 0 {
                assert(stream[i] == rest[i - 1]);
            }
        }
    }
}

/// The character of `s` at `i`, or the NUL character from the end of `s` on.
pub open spec fn char_at(s: Seq<char>, i: nat) -> char {
    if i < s.len() {
        s[i as int]
    } else {
        '\0'
    }
}

/// A tokenizer over one source text.
pub struct Lexer {
    input: String,
    /// Number of characters of `input`.
    len: usize,
    /// Index of the character under examination; `len` once the input is
    /// exhausted.
    pos: usize,
    /// The character at `pos`, NUL once the input is exhausted.
    ch: char,
}

impl Lexer {
    /// The source text.
    pub closed spec fn source(&self) -> Seq<char> {
        self.input@
    }

    /// The position of the next character to read, counted in characters.
    pub closed spec fn position(&self) -> nat {
        self.pos as nat
    }

    /// The invariant of the tokenizer: the position lies within the source
    /// text or at its end, and the cached length and character are those of
    /// the source text.
    pub closed spec fn wf(&self) -> bool {
        &&& self.len == self.input@.len()
        &&& self.pos <= self.len
        &&& self.ch == char_at(self.input@, self.pos as nat)
    }

    /// The position never lies beyond the end of the source text.
    pub proof fn lemma_position_in_source(&self)
        requires
            self.wf(),
        ensures
            self.position() <= self.source().len(),
    {
    }

    /// A tokenizer at the beginning of `input`.
    pub fn new(input: String) -> (lexer: Lexer)
        ensures
            lexer.wf(),
            lexer.source() == input@,
            lexer.position() == 0,
    {
        let len: usize = input.as_str().unicode_len();
        let ch: char = if len > 0 {
            input.as_str().get_char(0)
        } else {
            '\0'
        };
        Lexer { input, len, pos: 0, ch }
    }

    /// Moves to the next character, if there is one left.
    fn read_char(&mut self)
        requires
            old(self).wf(),
        ensures
            final(self).wf(),
            final(self).source() == old(self).source(),
            final(self).position() == if old(self).position() < old(self).source().len() {
                old(self).position() + 1
            } else {
                old(self).position()
            },
    {
        if self.pos < self.len {
            self.pos = self.pos + 1;
            self.ch = if self.pos < self.len {
                self.input.as_str().get_char(self.pos)
            } else {
                '\0'
            };
        }
    }

    /// The character after the one under examination, NUL if there is none.
    fn peek_char(&self) -> (c: char)
        requires
            self.wf(),
        ensures
            c == char_at(self.source(), self.position() + 1),
    {
        if self.pos < self.len && self.pos + 1 < self.len {
            self.input.as_str().get_char(self.pos + 1)
        } else {
            '\0'
        }
    }

    /// Whether the character under examination can be part of an identifier.
    fn is_letter(&self) -> (r: bool)
        requires
            self.wf(),
        ensures
            r == (self.position() < self.source().len() && is_letter(
                self.source()[self.position() as int],
            )),
    {
        self.pos < self.len && letter(self.ch)
    }

    /// Whether the character under examination is a decimal digit.
    fn is_digit(&self) -> (r: bool)
        requires
            self.wf(),
        ensures
            r == (self.position() < self.source().len() && is_digit(
                self.source()[self.position() as int],
            )),
    {
        self.pos < self.len && digit(self.ch)
    }

    /// Moves past the whitespace at the current position.
    fn skip_whitespace(&mut self)
        requires
            old(self).wf(),
        ensures
            final(self).wf(),
            final(self).source() == old(self).source(),
            final(self).position() == token_start(old(self).source(), old(self).position()),
    {
        while self.pos < self.len && whitespace(self.ch)
            invariant
                self.wf(),
                self.source() == old(self).source(),
                old(self).position() <= self.position(),
                run_end(self.source(), self.position(), CharClass::Whitespace) == run_end(
                    old(self).source(),
                    old(self).position(),
                    CharClass::Whitespace,
                ),
            decreases self.len - self.pos,
        {
            self.read_char();
        }
    }

    /// Reads the next token and moves past it.
    ///
    /// Whitespace is skipped first. At the end of input the token is `Eof`
    /// with an empty literal, and the position stays at the end, however often
    /// the call is repeated. A character that begins no token is returned as
    /// an `Illegal` token of its own, and reading goes on after it.
    pub fn next_token(&mut self) -> (token: Token)
        requires
            old(self).wf(),
        ensures
            final(self).wf(),
            final(self).source() == old(self).source(),
            token@ == token_at(old(self).source(), old(self).position()),
            token@.agrees(),
            final(self).position() == token_end(old(self).source(), old(self).position()),
            old(self).position() <= final(self).position() <= final(self).source().len(),
            token.token_type != TokenType::Eof ==> old(self).position() < final(self).position(),
            token.token_type == TokenType::Eof ==> final(self).position() == old(self).source().len(),
            old(self).position() == old(self).source().len() ==> token.token_type
                == TokenType::Eof,
    {
        proof {
            lemma_token_bounds(old(self).source(), old(self).position());
            lemma_token_agrees(old(self).source(), old(self).position());
        }
        self.skip_whitespace();
        if self.pos >= self.len {
            let token = Token { token_type: TokenType::Eof, literal: String::new() };
            assert(token@.literal =~= self.source().subrange(self.pos as int, self.pos as int));
            return token;
        }
        if self.is_letter() {
            let literal = self.read_identifier();
            let token_type = lookup_ident(literal.as_str());
            return Token { token_type, literal };
        }
        if self.is_digit() {
            let literal = self.read_number();
            return Token { token_type: TokenType::Int, literal };
        }
        let start: usize = self.pos;
        let c: char = self.ch;
        let token_type = if (c == '=' || c == '!') && self.peek_char() == '=' {
            self.read_char();
            if c == '=' {
                TokenType::Eq
            } else {
                TokenType::NotEq
            }
        } else {
            match punctuation_type(c) {
                Some(t) => t,
                None => TokenType::Illegal,
            }
        };
        self.read_char();
        let literal = self.input.as_str().substring_char(start, self.pos).to_owned();
        Token { token_type, literal }
    }

    /// Reads the run of letters at the current position and returns it.
    fn read_identifier(&mut self) -> (text: String)
        requires
            old(self).wf(),
        ensures
            final(self).wf(),
            final(self).source() == old(self).source(),
            final(self).position() == run_end(
                old(self).source(),
                old(self).position(),
                CharClass::Letter,
            ),
            text@ == old(self).source().subrange(
                old(self).position() as int,
                final(self).position() as int,
            ),
    {
        let start: usize = self.pos;
        while self.is_letter()
            invariant
                self.wf(),
                self.source() == old(self).source(),
                start == old(self).position(),
                start <= self.position(),
                run_end(self.source(), self.position(), CharClass::Letter) == run_end(
                    old(self).source(),
                    old(self).position(),
                    CharClass::Letter,
                ),
            decreases self.len - self.pos,
        {
            self.read_char();
        }
        self.input.as_str().substring_char(start, self.pos).to_owned()
    }

    /// Reads the run of digits at the current position and returns it.
    fn read_number(&mut self) -> (text: String)
        requires
            old(self).wf(),
        ensures
            final(self).wf(),
            final(self).source() == old(self).source(),
            final(self).position() == run_end(
                old(self).source(),
                old(self).position(),
                CharClass::Digit,
            ),
            text@ == old(self).source().subrange(
                old(self).position() as int,
                final(self).position() as int,
            ),
    {
        let start: usize = self.pos;
        while self.is_digit()
            invariant
                self.wf(),
                self.source() == old(self).source(),
                start == old(self).position(),
                start <= self.position(),
                run_end(self.source(), self.position(), CharClass::Digit) == run_end(
                    old(self).source(),
                    old(self).position(),
                    CharClass::Digit,
                ),
            decreases self.len - self.pos,
        {
            self.read_char();
        }
        self.input.as_str().substring_char(start, self.pos).to_owned()
    }
}

/// All the tokens of `input` in order, without the final `Eof`.
pub fn tokenize(input: String) -> (tokens: Vec<Token>)
    ensures
        tokens.deep_view() == token_stream(input@, 0).drop_last(),
{
    let ghost s = input@;
    let mut lexer = Lexer::new(input);
    let mut tokens: Vec<Token> = Vec::new();
    let ghost mut at: nat = 0;
    let mut token = lexer.next_token();
    while token.token_type != TokenType::Eof
        invariant
            lexer.wf(),
            lexer.source() == s,
            at <= s.len(),
            token@ == token_at(s, at),
            lexer.position() == token_end(s, at),
            tokens.deep_view() + token_stream(s, at) == token_stream(s, 0),
        decreases s.len() - at,
    {
        let ghost before = tokens.deep_view();
        let ghost pushed = token@;
        tokens.push(token);
        proof {
            lemma_token_bounds(s, at);
            assert(tokens.deep_view() =~= before.push(pushed));
            assert(before.push(pushed) + token_stream(s, token_end(s, at)) =~= before
                + token_stream(s, at));
            at = token_end(s, at);
        }
        token = lexer.next_token();
    }
    proof {
        lemma_token_bounds(s, at);
        assert(tokens.deep_view() =~= token_stream(s, 0).drop_last());
    }
    tokens
}

} // verus!
