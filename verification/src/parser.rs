//! The parser: pulls tokens from a lexer through a window of two, builds the
//! program and collects a diagnostic for each statement it has to give up.

use crate::ast::{Identifier, LetStatement, Program, Statement};
use crate::grammar::{
    expression_end, lemma_statement_consumed, let_statement, mismatch, optional, parse, statement,
    token_at,
};
use crate::lexer::Lexer;
use crate::scan::{lemma_lexeme_end, literals_fit, tokens};
use crate::text::{append_decimal, decimal};
use crate::token::{Token, TokenView};
use vstd::pervasive::unreached;
use vstd::prelude::*;

verus! {

/// A parser over the tokens of a lexer.
pub struct Parser {
    lexer: Lexer,
    cur_token: Token,
    peek_token: Token,
    errors: Vec<String>,
}

/// The mathematical value of a [`Parser`]: the tokens that it has yet to
/// deal with, from the current one up to and including the first end of
/// input, and the diagnostics collected so far.
pub struct ParserView {
    pub pending: Seq<TokenView>,
    pub errors: Seq<Seq<char>>,
}

/// The report on `errors`: their number, a heading, and each of them after
/// a semicolon and a space.
pub open spec fn error_summary(errors: Seq<Seq<char>>) -> Seq<char> {
    decimal(errors.len()) + " parser error(s):"@ + error_list(errors)
}

/// Each of `errors` in order, each after a semicolon and a space.
pub open spec fn error_list(errors: Seq<Seq<char>>) -> Seq<char>
    decreases errors.len(),
{
    if errors.len() == 0 {
        Seq::empty()
    } else {
        error_list(errors.drop_last()) + "; "@ + errors.last()
    }
}

impl View for Parser {
    type V = ParserView;

    closed spec fn view(&self) -> ParserView {
        ParserView {
            pending: if self.cur_token@ is EOF {
                seq![TokenView::EOF]
            } else if self.peek_token@ is EOF {
                seq![self.cur_token@, TokenView::EOF]
            } else {
                seq![self.cur_token@, self.peek_token@] + tokens(
                    self.lexer@.source,
                    self.lexer@.cursor,
                )
            },
            errors: self.errors@.map_values(|error: String| error@),
        }
    }
}

impl Parser {
    /// The invariant of the parser: its lexer is well-formed and can read
    /// every token that is left.
    pub closed spec fn wf(&self) -> bool {
        &&& self.lexer.wf()
        &&& literals_fit(self.lexer@.source, self.lexer@.cursor)
    }

    /// A parser that starts where `lexer` stands.
    pub fn new(lexer: Lexer) -> (parser: Parser)
        requires
            lexer.wf(),
            literals_fit(lexer@.source, lexer@.cursor),
        ensures
            parser.wf(),
            parser@.pending == tokens(lexer@.source, lexer@.cursor),
            parser@.errors == Seq::<Seq<char>>::empty(),
    {
        let mut parser = Parser {
            lexer,
            cur_token: Token::Illegal,
            peek_token: Token::Illegal,
            errors: Vec::new(),
        };
        parser.next_token();
        parser.next_token();
        parser
    }

    /// Parses the pending tokens up to the end of input.
    pub fn parse_program(&mut self) -> (program: Program)
        requires
            old(self).wf(),
        ensures
            final(self).wf(),
            program@ == parse(old(self)@.pending).statements,
            final(self)@.errors == old(self)@.errors + parse(old(self)@.pending).errors,
            final(self)@.pending == seq![TokenView::EOF],
    {
        let mut program = Program { statements: Vec::new() };
        while self.cur_token != Token::EOF
            invariant
                self.wf(),
                program@ + parse(self@.pending).statements == parse(old(self)@.pending).statements,
                self@.errors + parse(self@.pending).errors == old(self)@.errors + parse(
                    old(self)@.pending,
                ).errors,
            decreases self@.pending.len(),
        {
            let ghost before = self@.pending;
            proof {
                lemma_statement_consumed(before);
            }
            let stmt = self.parse_statement();
            if let Some(s) = stmt {
                program.statements.push(s);
            }
            self.next_token();
            assert(self@.pending =~= before.skip(statement(before).consumed + 1));
        }
        program
    }

    /// Whether a diagnostic has been collected.
    pub fn has_errors(&self) -> (any: bool)
        ensures
            any == (self@.errors.len() > 0),
    {
        self.errors.len() > 0
    }

    /// The report on the diagnostics collected so far.
    pub fn get_errors(&self) -> (summary: String)
        ensures
            summary@ == error_summary(self@.errors),
    {
        let mut summary = String::new();
        append_decimal(&mut summary, self.errors.len() as u64);
        summary.append(" parser error(s):");
        let mut i: usize = 0;
        while i < self.errors.len()
            invariant
                i <= self.errors.len(),
                summary@ == decimal(self.errors.len() as nat) + " parser error(s):"@ + error_list(
                    self@.errors.take(i as int),
                ),
            decreases self.errors.len() - i,
        {
            summary.append("; ");
            summary.append(self.errors[i].as_str());
            assert(self@.errors.take(i + 1).drop_last() =~= self@.errors.take(i as int));
            i += 1;
        }
        assert(self@.errors.take(i as int) =~= self@.errors);
        summary
    }

    fn parse_statement(&mut self) -> (parsed: Option<Statement>)
        requires
            old(self).wf(),
            !(token_at(old(self)@.pending, 0) is EOF),
        ensures
            final(self).wf(),
            parsed.is_some() == statement(old(self)@.pending).statement.is_some(),
            parsed.is_some() ==> parsed.unwrap()@ == statement(
                old(self)@.pending,
            ).statement.unwrap(),
            final(self)@.pending == old(self)@.pending.skip(statement(old(self)@.pending).consumed),
            final(self)@.errors == old(self)@.errors + optional(
                statement(old(self)@.pending).error,
            ),
            !(token_at(final(self)@.pending, 0) is EOF),
    {
        match self.cur_token {
            Token::Let => self.parse_let_statement(),
            _ => None,
        }
    }

    fn parse_let_statement(&mut self) -> (parsed: Option<Statement>)
        requires
            old(self).wf(),
            !(token_at(old(self)@.pending, 0) is EOF),
        ensures
            final(self).wf(),
            parsed.is_some() == let_statement(old(self)@.pending).statement.is_some(),
            parsed.is_some() ==> parsed.unwrap()@ == let_statement(
                old(self)@.pending,
            ).statement.unwrap(),
            final(self)@.pending == old(self)@.pending.skip(
                let_statement(old(self)@.pending).consumed,
            ),
            final(self)@.errors == old(self)@.errors + optional(
                let_statement(old(self)@.pending).error,
            ),
            !(token_at(final(self)@.pending, 0) is EOF),
    {
        let ghost start = self@;
        if !self.expect_peek(&Token::Ident(String::new())) {
            return None;
        }
        let ident = match &self.cur_token {
            Token::Ident(ident) => ident.clone(),
            _ => unreached(),
        };
        let name = Identifier { value: ident };

        if !self.expect_peek(&Token::Assign) {
            return None;
        }
        let ghost mut last: int = 2;
        while self.peek_token != Token::Semicolon && self.peek_token != Token::EOF
            invariant
                self.wf(),
                2 <= last < start.pending.len(),
                self@.pending == start.pending.skip(last),
                self@.errors == start.errors,
                !(token_at(self@.pending, 0) is EOF),
                expression_end(start.pending, last) == expression_end(start.pending, 2),
            decreases start.pending.len() - last,
        {
            self.next_token();
            proof {
                last = last + 1;
            }
        }
        assert(token_at(start.pending.skip(last), 1) == token_at(start.pending, last + 1));
        Some(Statement::Let(LetStatement { name: Box::new(name) }))
    }

    fn next_token(&mut self)
        requires
            old(self).wf(),
            !(token_at(old(self)@.pending, 0) is EOF),
        ensures
            final(self).wf(),
            final(self)@.pending == old(self)@.pending.skip(1),
            final(self)@.errors == old(self)@.errors,
            final(self).cur_token@ == old(self).peek_token@,
    {
        proof {
            self.lexer.lemma_cursor_in_text();
            lemma_lexeme_end(self.lexer@.source, self.lexer@.cursor);
        }
        self.cur_token = self.peek_token.clone();
        self.peek_token = self.lexer.next_token();
    }

    fn expect_peek(&mut self, expected_token: &Token) -> (found: bool)
        requires
            old(self).wf(),
            !(token_at(old(self)@.pending, 0) is EOF),
        ensures
            final(self).wf(),
            found == token_at(old(self)@.pending, 1).same_kind(expected_token@),
            found ==> final(self)@.pending == old(self)@.pending.skip(1) && final(self)@.errors
                == old(self)@.errors && final(self).cur_token@ == token_at(old(self)@.pending, 1),
            !found ==> final(self)@.pending == old(self)@.pending && final(self)@.errors == old(
                self,
            )@.errors.push(mismatch(expected_token@, token_at(old(self)@.pending, 1))),
    {
        if self.peek_token.same_kind(expected_token) {
            self.next_token();
            true
        } else {
            let mut message = String::from_str("expected next token to be ");
            message.append(expected_token.describe().as_str());
            message.append(", got ");
            message.append(self.peek_token.describe().as_str());
            message.append(" instead");
            self.errors.push(message);
            false
        }
    }
}

} // verus!
