//! What lexing means: the token that starts at a position of the source text,
//! where it ends, and the token stream that follows from there.

use crate::text::decimal_value;
use crate::token::{keyword_or_identifier, TokenView};
use vstd::prelude::*;

verus! {

/// The classes of characters that the lexer reads in runs.
pub enum CharClass {
    /// Space, tab, line feed and carriage return.
    Blank,
    /// The ASCII letters and the underscore.
    Letter,
    /// The ASCII digits.
    Digit,
}

impl CharClass {
    /// Whether `c` belongs to the class.
    pub open spec fn contains(self, c: char) -> bool {
        match self {
            CharClass::Blank => c == ' ' || c == '\t' || c == '\n' || c == '\r',
            CharClass::Letter => ('a' <= c && c <= 'z') || ('A' <= c && c <= 'Z') || c == '_',
            CharClass::Digit => '0' <= c && c <= '9',
        }
    }
}

/// The character at index `i`, or the sentinel `'\0'` outside the text.
pub open spec fn char_at(s: Seq<char>, i: int) -> char {
    if 0 <= i < s.len() {
        s[i]
    } else {
        '\0'
    }
}

/// The index just past the longest run of characters of `class` that starts
/// at `i`; `i` itself when no such character stands there.
pub open spec fn run_end(s: Seq<char>, i: int, class: CharClass) -> int
    decreases s.len() - i,
{
    if 0 <= i < s.len() && class.contains(s[i]) {
        run_end(s, i + 1, class)
    } else {
        i
    }
}

/// The token of a character that is a token by itself; `Illegal` for a
/// character that is none.
pub open spec fn symbol(c: char) -> TokenView {
    if c == '=' {
        TokenView::Assign
    } else if c == '+' {
        TokenView::Plus
    } else if c == '-' {
        TokenView::Minus
    } else if c == '!' {
        TokenView::Bang
    } else if c == '*' {
        TokenView::Asterisk
    } else if c == '/' {
        TokenView::Slash
    } else if c == '<' {
        TokenView::LT
    } else if c == '>' {
        TokenView::GT
    } else if c == ',' {
        TokenView::Comma
    } else if c == ';' {
        TokenView::Semicolon
    } else if c == '(' {
        TokenView::ParenL
    } else if c == ')' {
        TokenView::ParenR
    } else if c == '{' {
        TokenView::BraceL
    } else if c == '}' {
        TokenView::BraceR
    } else {
        TokenView::Illegal
    }
}

/// A token together with the position at which the text after it begins.
pub struct Lexeme {
    pub token: TokenView,
    pub end: int,
}

/// The token read with the cursor at `pos`.
///
/// Blanks before it are passed over. `==` and `!=` are one token each. A
/// `'\0'`, in the text or as the sentinel past its end, is the end of input;
/// past the end the cursor stays where it is. A letter or underscore starts a
/// word, which runs as far as letters and underscores go; a digit starts a
/// number, which runs as far as digits go. Every other character is a token
/// by itself.
pub open spec fn lexeme_at(s: Seq<char>, pos: int) -> Lexeme {
    let start = run_end(s, pos, CharClass::Blank);
    let c = char_at(s, start);
    if c == '=' && char_at(s, start + 1) == '=' {
        Lexeme { token: TokenView::Eq, end: start + 2 }
    } else if c == '!' && char_at(s, start + 1) == '=' {
        Lexeme { token: TokenView::NotEq, end: start + 2 }
    } else if c == '\0' {
        Lexeme { token: TokenView::EOF, end: if start < s.len() { start + 1 } else { start } }
    } else if CharClass::Letter.contains(c) {
        let end = run_end(s, start, CharClass::Letter);
        Lexeme { token: keyword_or_identifier(s.subrange(start, end)), end }
    } else if CharClass::Digit.contains(c) {
        let end = run_end(s, start, CharClass::Digit);
        Lexeme { token: TokenView::Int(decimal_value(s.subrange(start, end)) as int), end }
    } else {
        Lexeme { token: symbol(c), end: start + 1 }
    }
}

/// A run starts where it is asked for, ends within the text, holds only
/// characters of its class and is not followed by one.
pub proof fn lemma_run_end(s: Seq<char>, i: int, class: CharClass)
    requires
        0 <= i <= s.len(),
    ensures
        i <= run_end(s, i, class) <= s.len(),
        forall|j: int| i <= j < run_end(s, i, class) ==> class.contains(#[trigger] s[j]),
        !class.contains(char_at(s, run_end(s, i, class))),
    decreases s.len() - i,
{
    if i < s.len() && class.contains(s[i]) {
        lemma_run_end(s, i + 1, class);
    }
}

/// The end of a run is the only index that a run of the class leads up to
/// and at which no character of the class stands.
pub proof fn lemma_run_end_is(s: Seq<char>, i: int, end: int, class: CharClass)
    requires
        0 <= i <= end <= s.len(),
        forall|j: int| i <= j < end ==> class.contains(#[trigger] s[j]),
        !class.contains(char_at(s, end)),
    ensures
        run_end(s, i, class) == end,
    decreases end - i,
{
    if i < end {
        lemma_run_end_is(s, i + 1, end, class);
    }
}

/// Reading a token never moves the cursor backwards or out of the text, and
/// moves it forwards whenever text is left or the token is not the end of
/// input.
pub proof fn lemma_lexeme_end(s: Seq<char>, pos: int)
    ensures
        0 <= pos <= s.len() ==> pos <= lexeme_at(s, pos).end <= s.len(),
        0 <= pos < s.len() ==> pos < lexeme_at(s, pos).end,
        !(lexeme_at(s, pos).token is EOF) ==> 0 <= pos < lexeme_at(s, pos).end <= s.len(),
{
    if 0 <= pos <= s.len() {
        lemma_run_end(s, pos, CharClass::Blank);
        let start = run_end(s, pos, CharClass::Blank);
        lemma_run_end(s, start, CharClass::Letter);
        lemma_run_end(s, start, CharClass::Digit);
    }
}

/// The tokens read from `pos` on, up to and including the first end of
/// input.
pub open spec fn tokens(s: Seq<char>, pos: int) -> Seq<TokenView>
    decreases s.len() - pos,
    via tokens_decreases
{
    let lexeme = lexeme_at(s, pos);
    if lexeme.token is EOF {
        seq![TokenView::EOF]
    } else {
        seq![lexeme.token] + tokens(s, lexeme.end)
    }
}

#[via_fn]
proof fn tokens_decreases(s: Seq<char>, pos: int) {
    lemma_lexeme_end(s, pos);
}

/// Whether every integer literal read from `pos` on fits in 32 bits, signed.
pub open spec fn literals_fit(s: Seq<char>, pos: int) -> bool
    decreases s.len() - pos,
    via literals_fit_decreases
{
    let lexeme = lexeme_at(s, pos);
    lexeme.token.representable() && (0 <= pos < s.len() ==> literals_fit(s, lexeme.end))
}

#[via_fn]
proof fn literals_fit_decreases(s: Seq<char>, pos: int) {
    lemma_lexeme_end(s, pos);
}

/// The result of the `n`-th read after the cursor stood at `pos`, counting
/// from zero.
pub open spec fn poll(s: Seq<char>, pos: int, n: nat) -> Lexeme
    decreases n,
{
    if n == 0 {
        lexeme_at(s, pos)
    } else {
        poll(s, lexeme_at(s, pos).end, (n - 1) as nat)
    }
}

/// The literals fit from `pos` on exactly when every read from there on
/// yields a token that can be carried.
pub proof fn lemma_literals_fit(s: Seq<char>, pos: int)
    requires
        0 <= pos <= s.len(),
    ensures
        literals_fit(s, pos) <==> forall|n: nat| (#[trigger] poll(s, pos, n)).token.representable(),
    decreases s.len() - pos,
{
    let next = lexeme_at(s, pos).end;
    lemma_lexeme_end(s, pos);
    if pos < s.len() {
        lemma_literals_fit(s, next);
        if literals_fit(s, pos) {
            assert forall|n: nat| (#[trigger] poll(s, pos, n)).token.representable() by {
                if n > 0 {
                    assert(poll(s, next, (n - 1) as nat).token.representable());
                }
            }
        }
        if forall|n: nat| (#[trigger] poll(s, pos, n)).token.representable() {
            assert(poll(s, pos, 0).token.representable());
            assert forall|n: nat| (#[trigger] poll(s, next, n)).token.representable() by {
                assert(poll(s, pos, n + 1).token.representable());
            }
        }
    } else {
        assert forall|n: nat| (#[trigger] poll(s, pos, n)).token.representable() by {
            lemma_blank_tail(s, pos, n);
        }
    }
}

/// Whether nothing but blanks and `'\0'` follows any `'\0'` that stands at
/// `pos` or later: the text from `pos` on ends at its first `'\0'`, if it has
/// one.
pub open spec fn ends_at_nul(s: Seq<char>, pos: int) -> bool {
    forall|i: int, j: int|
        #![trigger s[i], s[j]]
        pos <= i < j < s.len() && s[i] == '\0' ==> CharClass::Blank.contains(s[j]) || s[j] == '\0'
}

/// Whether only blanks and `'\0'` stand at `pos` and later.
pub open spec fn blank_from(s: Seq<char>, pos: int) -> bool {
    forall|j: int| pos <= j < s.len() ==> CharClass::Blank.contains(#[trigger] s[j]) || s[j] == '\0'
}

/// Past the last token every read yields the end of input.
pub proof fn lemma_blank_tail(s: Seq<char>, pos: int, n: nat)
    requires
        0 <= pos <= s.len(),
        blank_from(s, pos),
    ensures
        poll(s, pos, n).token is EOF,
    decreases n,
{
    lemma_run_end(s, pos, CharClass::Blank);
    lemma_lexeme_end(s, pos);
    if n > 0 {
        lemma_blank_tail(s, lexeme_at(s, pos).end, (n - 1) as nat);
    }
}

/// The token stream is never empty, ends with the end of input and holds it
/// nowhere else.
pub proof fn lemma_tokens_end_once(s: Seq<char>, pos: int)
    ensures
        tokens(s, pos).len() >= 1,
        tokens(s, pos).last() is EOF,
        forall|n: int| 0 <= n < tokens(s, pos).len() - 1 ==> !(#[trigger] tokens(s, pos)[n] is EOF),
    decreases s.len() - pos,
{
    let lexeme = lexeme_at(s, pos);
    if !(lexeme.token is EOF) {
        lemma_lexeme_end(s, pos);
        lemma_tokens_end_once(s, lexeme.end);
        let rest = tokens(s, lexeme.end);
        assert forall|n: int| 0 <= n < tokens(s, pos).len() - 1 implies !(#[trigger] tokens(
            s,
            pos,
        )[n] is EOF) by {
            if n > 0 {
            }
        }
    }
}

/// The token stream holds, in order, what the successive reads yield.
pub proof fn lemma_tokens_are_polls(s: Seq<char>, pos: int, n: nat)
    requires
        n < tokens(s, pos).len(),
    ensures
        poll(s, pos, n).token == tokens(s, pos)[n as int],
    decreases n,
{
    if n > 0 {
        lemma_tokens_are_polls(s, lexeme_at(s, pos).end, (n - 1) as nat);
    }
}

/// The reads from `pos` on yield the token stream, which ends with its only
/// end of input, and after it the end of input again, however often it is
/// asked for.
///
/// A `'\0'` in the text is read as the end of input wherever it stands, so
/// this holds only of a text that ends there: one in which nothing but
/// blanks and `'\0'` follows a `'\0'`.
pub proof fn lemma_stream_ends_once(s: Seq<char>, pos: int)
    requires
        0 <= pos <= s.len(),
        ends_at_nul(s, pos),
    ensures
        tokens(s, pos).len() >= 1,
        forall|n: nat|
            n < tokens(s, pos).len() ==> (#[trigger] poll(s, pos, n)).token == tokens(
                s,
                pos,
            )[n as int],
        forall|n: nat|
            n < tokens(s, pos).len() - 1 ==> !((#[trigger] poll(s, pos, n)).token is EOF),
        forall|n: nat| n >= tokens(s, pos).len() - 1 ==> (#[trigger] poll(s, pos, n)).token is EOF,
{
    lemma_tokens_end_once(s, pos);
    assert forall|n: nat| n < tokens(s, pos).len() implies (#[trigger] poll(s, pos, n)).token
        == tokens(s, pos)[n as int] by {
        lemma_tokens_are_polls(s, pos, n);
    }
    assert forall|n: nat| n >= tokens(s, pos).len() - 1 implies (#[trigger] poll(
        s,
        pos,
        n,
    )).token is EOF by {
        lemma_end_of_input_repeats(s, pos, n);
    }
}

proof fn lemma_end_of_input_repeats(s: Seq<char>, pos: int, n: nat)
    requires
        0 <= pos <= s.len(),
        ends_at_nul(s, pos),
        n >= tokens(s, pos).len() - 1,
    ensures
        poll(s, pos, n).token is EOF,
    decreases n,
{
    let lexeme = lexeme_at(s, pos);
    lemma_lexeme_end(s, pos);
    lemma_run_end(s, pos, CharClass::Blank);
    if lexeme.token is EOF {
        let start = run_end(s, pos, CharClass::Blank);
        assert(blank_from(s, lexeme.end)) by {
            if start < s.len() {
            }
        }
        if n > 0 {
            lemma_blank_tail(s, lexeme.end, (n - 1) as nat);
        }
    } else {
        lemma_tokens_end_once(s, lexeme.end);
        lemma_end_of_input_repeats(s, lexeme.end, (n - 1) as nat);
    }
}

/// Whether `word` spells one of the seven keywords.
pub open spec fn is_keyword(word: Seq<char>) -> bool {
    word == "fn"@ || word == "let"@ || word == "true"@ || word == "false"@ || word == "if"@ || word
        == "else"@ || word == "return"@
}

/// Each keyword is read as its own token, and every other word as the
/// identifier of that very name.
pub proof fn lemma_keywords(word: Seq<char>)
    ensures
        keyword_or_identifier("fn"@) == TokenView::Function,
        keyword_or_identifier("let"@) == TokenView::Let,
        keyword_or_identifier("true"@) == TokenView::True,
        keyword_or_identifier("false"@) == TokenView::False,
        keyword_or_identifier("if"@) == TokenView::If,
        keyword_or_identifier("else"@) == TokenView::Else,
        keyword_or_identifier("return"@) == TokenView::Return,
        !is_keyword(word) ==> keyword_or_identifier(word) == TokenView::Ident(word),
{
    reveal_strlit("fn");
    reveal_strlit("let");
    reveal_strlit("true");
    reveal_strlit("false");
    reveal_strlit("if");
    reveal_strlit("else");
    reveal_strlit("return");
    assert("let"@.len() == 3);
    assert("true"@.len() == 4 && "true"@[0] == 't');
    assert("false"@.len() == 5);
    assert("if"@.len() == 2 && "if"@[0] == 'i');
    assert("else"@.len() == 4 && "else"@[0] == 'e');
    assert("return"@.len() == 6);
}

/// A run of letters and underscores that starts at `pos` and that no letter
/// or underscore follows is read whole, as the keyword it spells or else as
/// the identifier of that name.
pub proof fn lemma_word(s: Seq<char>, pos: int, end: int)
    requires
        0 <= pos < end <= s.len(),
        forall|j: int| pos <= j < end ==> CharClass::Letter.contains(#[trigger] s[j]),
        !CharClass::Letter.contains(char_at(s, end)),
    ensures
        lexeme_at(s, pos) == (Lexeme { token: keyword_or_identifier(s.subrange(pos, end)), end }),
{
    lemma_run_end_is(s, pos, end, CharClass::Letter);
}

/// `=` and `!` are read together with a `=` that follows at once, as one
/// token of two characters; before anything else they are read alone.
pub proof fn lemma_two_character_operators(s: Seq<char>, pos: int)
    requires
        0 <= pos < s.len(),
        s[pos] == '=' || s[pos] == '!',
    ensures
        char_at(s, pos + 1) == '=' ==> lexeme_at(s, pos) == (Lexeme {
            token: if s[pos] == '=' {
                TokenView::Eq
            } else {
                TokenView::NotEq
            },
            end: pos + 2,
        }),
        char_at(s, pos + 1) != '=' ==> lexeme_at(s, pos) == (Lexeme {
            token: if s[pos] == '=' {
                TokenView::Assign
            } else {
                TokenView::Bang
            },
            end: pos + 1,
        }),
{
}

/// Blanks before a token, however many and of whatever kind, change
/// neither the token nor anything that is read after it.
pub proof fn lemma_blanks_elided(s: Seq<char>, pos: int, next: int)
    requires
        0 <= pos <= next <= s.len(),
        forall|j: int| pos <= j < next ==> CharClass::Blank.contains(#[trigger] s[j]),
    ensures
        lexeme_at(s, pos) == lexeme_at(s, next),
        tokens(s, pos) == tokens(s, next),
{
    lemma_run_end(s, next, CharClass::Blank);
    lemma_run_end_is(s, pos, run_end(s, next, CharClass::Blank), CharClass::Blank);
}

} // verus!
