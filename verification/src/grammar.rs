//! What parsing means: the statements and diagnostics that a token sequence
//! gives rise to.

use crate::ast::StatementView;
use crate::token::TokenView;
use vstd::prelude::*;

verus! {

/// The token at index `i`; past the end of the sequence, the end of input.
pub open spec fn token_at(tokens: Seq<TokenView>, i: int) -> TokenView {
    if 0 <= i < tokens.len() {
        tokens[i]
    } else {
        TokenView::EOF
    }
}

/// The diagnostic for a token of the wrong category.
pub open spec fn mismatch(expected: TokenView, got: TokenView) -> Seq<char> {
    "expected next token to be "@ + expected.description() + ", got "@ + got.description()
        + " instead"@
}

/// With the token at index `i` read, the index of the last token before the
/// next semicolon or end of input: where the right-hand side of a statement
/// ends. Nothing is asked of the tokens passed over.
pub open spec fn expression_end(tokens: Seq<TokenView>, i: int) -> int
    decreases tokens.len() - i,
{
    let next = token_at(tokens, i + 1);
    if next is Semicolon || next is EOF {
        i
    } else {
        expression_end(tokens, i + 1)
    }
}

/// What one attempt at a statement yields: the statement or none, a
/// diagnostic or none, and how many tokens after the first were taken up.
pub struct Outcome {
    pub statement: Option<StatementView>,
    pub error: Option<Seq<char>>,
    pub consumed: int,
}

/// A `let` statement read from `tokens`, whose first token is `let`.
///
/// The next token must be an identifier, whatever its name, and the one after
/// it `=`; everything up to the next semicolon or end of input is passed
/// over. Where one of the two is missing, the attempt stops before the
/// offending token with a diagnostic and without a statement.
pub open spec fn let_statement(tokens: Seq<TokenView>) -> Outcome {
    let first = token_at(tokens, 1);
    let second = token_at(tokens, 2);
    if !(first is Ident) {
        Outcome {
            statement: None,
            error: Some(mismatch(TokenView::Ident(Seq::empty()), first)),
            consumed: 0,
        }
    } else if !(second is Assign) {
        Outcome { statement: None, error: Some(mismatch(TokenView::Assign, second)), consumed: 1 }
    } else {
        Outcome {
            statement: Some(StatementView::Let { name: first->Ident_0 }),
            error: None,
            consumed: expression_end(tokens, 2),
        }
    }
}

/// The statement that starts with the first of `tokens`: a `let` statement
/// after `let`, and nothing after any other token.
pub open spec fn statement(tokens: Seq<TokenView>) -> Outcome {
    if token_at(tokens, 0) is Let {
        let_statement(tokens)
    } else {
        Outcome { statement: None, error: None, consumed: 0 }
    }
}

/// The result of parsing: the statements in source order and the
/// diagnostics in the order in which they arose.
pub struct Parsed {
    pub statements: Seq<StatementView>,
    pub errors: Seq<Seq<char>>,
}

/// The sequence of nothing or of one item.
pub open spec fn optional<T>(item: Option<T>) -> Seq<T> {
    match item {
        Some(item) => seq![item],
        None => Seq::empty(),
    }
}

/// The program that `tokens` write.
///
/// Up to the first end of input, a statement is attempted at the current
/// token; then the token after the last one taken up becomes the current
/// one.
pub open spec fn parse(tokens: Seq<TokenView>) -> Parsed
    decreases tokens.len(),
    via parse_decreases
{
    if token_at(tokens, 0) is EOF {
        Parsed { statements: Seq::empty(), errors: Seq::empty() }
    } else {
        let outcome = statement(tokens);
        let rest = parse(tokens.skip(outcome.consumed + 1));
        Parsed {
            statements: optional(outcome.statement) + rest.statements,
            errors: optional(outcome.error) + rest.errors,
        }
    }
}

#[via_fn]
proof fn parse_decreases(tokens: Seq<TokenView>) {
    if !(token_at(tokens, 0) is EOF) {
        lemma_statement_consumed(tokens);
    }
}

/// The right-hand side ends at or after the token it starts from, and before
/// the end of the sequence.
pub proof fn lemma_expression_end(tokens: Seq<TokenView>, i: int)
    requires
        0 <= i < tokens.len(),
    ensures
        i <= expression_end(tokens, i) < tokens.len(),
        token_at(tokens, expression_end(tokens, i) + 1) is Semicolon || token_at(
            tokens,
            expression_end(tokens, i) + 1,
        ) is EOF,
        forall|j: int|
            i < j <= expression_end(tokens, i) ==> !(#[trigger] tokens[j] is Semicolon)
                && !(tokens[j] is EOF),
    decreases tokens.len() - i,
{
    let next = token_at(tokens, i + 1);
    if !(next is Semicolon || next is EOF) {
        lemma_expression_end(tokens, i + 1);
    }
}

/// An attempt at a statement takes up tokens of the sequence only.
pub proof fn lemma_statement_consumed(tokens: Seq<TokenView>)
    requires
        !(token_at(tokens, 0) is EOF),
    ensures
        0 <= statement(tokens).consumed < tokens.len(),
        !(token_at(tokens, statement(tokens).consumed) is EOF),
{
    if token_at(tokens, 0) is Let && token_at(tokens, 1) is Ident && token_at(tokens, 2) is Assign {
        lemma_expression_end(tokens, 2);
    }
}

/// A sequence without `let` writes no statement and gives no diagnostic.
pub proof fn lemma_nothing_without_let(tokens: Seq<TokenView>)
    requires
        forall|i: int| 0 <= i < tokens.len() ==> !(#[trigger] tokens[i] is Let),
    ensures
        parse(tokens) == (Parsed { statements: Seq::empty(), errors: Seq::empty() }),
    decreases tokens.len(),
{
    if !(token_at(tokens, 0) is EOF) {
        lemma_nothing_without_let(tokens.skip(1));
    }
}

/// `let`, an identifier, `=`, any tokens but a semicolon and the end of
/// input, and a semicolon write one `let` statement of the identifier's
/// name, without a diagnostic, whatever stands between `=` and the
/// semicolon; what follows the semicolon is parsed by itself.
pub proof fn lemma_let_statement(name: Seq<char>, middle: Seq<TokenView>, rest: Seq<TokenView>)
    requires
        forall|i: int|
            0 <= i < middle.len() ==> !(#[trigger] middle[i] is Semicolon) && !(middle[i] is EOF),
    ensures
        parse(
            seq![TokenView::Let, TokenView::Ident(name), TokenView::Assign] + middle
                + seq![TokenView::Semicolon] + rest,
        ) == (Parsed {
            statements: seq![StatementView::Let { name }] + parse(rest).statements,
            errors: parse(rest).errors,
        }),
{
    let tokens = seq![TokenView::Let, TokenView::Ident(name), TokenView::Assign] + middle
        + seq![TokenView::Semicolon] + rest;
    let last: int = 2 + middle.len() as int;
    lemma_expression_end_is(tokens, 2, last);
    let tail = tokens.skip(last + 1);
    assert(tail.skip(1) =~= rest);
    assert(parse(tail).errors =~= parse(rest).errors);
}

/// A whole text of that shape writes exactly one statement.
pub proof fn lemma_single_let_statement(name: Seq<char>, middle: Seq<TokenView>)
    requires
        forall|i: int|
            0 <= i < middle.len() ==> !(#[trigger] middle[i] is Semicolon) && !(middle[i] is EOF),
    ensures
        parse(
            seq![TokenView::Let, TokenView::Ident(name), TokenView::Assign] + middle
                + seq![TokenView::Semicolon, TokenView::EOF],
        ) == (Parsed { statements: seq![StatementView::Let { name }], errors: Seq::empty() }),
{
    lemma_let_statement(name, middle, seq![TokenView::EOF]);
    assert(seq![TokenView::Let, TokenView::Ident(name), TokenView::Assign] + middle
        + seq![TokenView::Semicolon, TokenView::EOF] =~= seq![
        TokenView::Let,
        TokenView::Ident(name),
        TokenView::Assign,
    ] + middle + seq![TokenView::Semicolon] + seq![TokenView::EOF]);
}

/// `let` and an identifier that no `=` follows write no statement and give
/// one diagnostic, which names `=` as the expected token and the token found
/// in its place, provided that no further `let` follows.
pub proof fn lemma_let_without_assign(name: Seq<char>, rest: Seq<TokenView>)
    requires
        !(token_at(rest, 0) is Assign),
        forall|i: int| 0 <= i < rest.len() ==> !(#[trigger] rest[i] is Let),
    ensures
        parse(seq![TokenView::Let, TokenView::Ident(name)] + rest) == (Parsed {
            statements: Seq::empty(),
            errors: seq![mismatch(TokenView::Assign, token_at(rest, 0))],
        }),
{
    let tokens = seq![TokenView::Let, TokenView::Ident(name)] + rest;
    lemma_nothing_without_let(rest);
    assert(tokens.skip(2) =~= rest);
}

/// The right-hand side ends at the only token at or after its start that a
/// semicolon or the end of input follows with none of the two in between.
pub proof fn lemma_expression_end_is(tokens: Seq<TokenView>, i: int, last: int)
    requires
        0 <= i <= last < tokens.len(),
        forall|j: int| i < j <= last ==> !(#[trigger] tokens[j] is Semicolon) && !(tokens[j] is EOF),
        token_at(tokens, last + 1) is Semicolon || token_at(tokens, last + 1) is EOF,
    ensures
        expression_end(tokens, i) == last,
    decreases last - i,
{
    if i < last {
        lemma_expression_end_is(tokens, i + 1, last);
    }
}

} // verus!
