//! The lexer: a cursor over ASCII source text that hands out one token at a
//! time.

use crate::scan::{
    char_at, lemma_lexeme_end, lemma_run_end, lemma_run_end_is, lexeme_at, literals_fit, run_end,
    CharClass,
};
use crate::text::{decimal_value, parse_decimal};
use crate::token::{keyword_or_identifier, Token, TokenView};
use vstd::prelude::*;
use vstd::string::is_ascii_spec_bytes;

verus! {

/// A cursor over the source text.
///
/// `ch` is the character under the cursor, `'\0'` once the cursor has left
/// the text; `read_position` is the index of the character that is read
/// next.
pub struct Lexer {
    input: String,
    position: usize,
    read_position: usize,
    ch: char,
}

/// The mathematical value of a [`Lexer`]: the text and the index of the
/// character under the cursor.
pub struct LexerView {
    pub source: Seq<char>,
    pub cursor: int,
}

impl View for Lexer {
    type V = LexerView;

    closed spec fn view(&self) -> LexerView {
        LexerView { source: self.input@, cursor: self.position as int }
    }
}

impl Clone for Lexer {
    fn clone(&self) -> (copy: Lexer)
        ensures
            copy == *self,
    {
        Lexer {
            input: self.input.clone(),
            position: self.position,
            read_position: self.read_position,
            ch: self.ch,
        }
    }
}

impl Lexer {
    /// The invariant of the cursor: the text is ASCII, the cursor is in the
    /// text or just past it, the read position is one ahead of it, and `ch`
    /// is the character under it.
    pub closed spec fn wf(&self) -> bool {
        &&& self.input.is_ascii()
        &&& self.input@.len() < usize::MAX
        &&& self.position <= self.input@.len()
        &&& self.read_position == self.position + 1
        &&& self.ch == char_at(self.input@, self.position as int)
    }

    /// The cursor of a well-formed lexer is in the text or just past it.
    pub proof fn lemma_cursor_in_text(&self)
        requires
            self.wf(),
        ensures
            0 <= self@.cursor <= self@.source.len(),
    {
    }

    /// A lexer at the start of `input`.
    pub fn new(input: &str) -> (lexer: Lexer)
        requires
            input.is_ascii(),
            input@.len() < usize::MAX,
        ensures
            lexer.wf(),
            lexer@.source == input@,
            lexer@.cursor == 0,
    {
        let mut lexer = Lexer {
            input: String::from_str(input),
            position: 0,
            read_position: 0,
            ch: '\0',
        };
        lexer.read_char();
        lexer
    }

    /// Reads the next token and moves the cursor past it.
    pub fn next_token(&mut self) -> (token: Token)
        requires
            old(self).wf(),
            lexeme_at(old(self)@.source, old(self)@.cursor).token.representable(),
        ensures
            final(self).wf(),
            final(self)@.source == old(self)@.source,
            final(self)@.cursor == lexeme_at(old(self)@.source, old(self)@.cursor).end,
            token@ == lexeme_at(old(self)@.source, old(self)@.cursor).token,
    {
        self.skip_whitespace();
        let token = match self.ch {
            '=' => {
                if self.peek_char() == '=' {
                    self.read_char();
                    Token::Eq
                } else {
                    Token::Assign
                }
            },
            '+' => Token::Plus,
            '-' => Token::Minus,
            '!' => {
                if self.peek_char() == '=' {
                    self.read_char();
                    Token::NotEq
                } else {
                    Token::Bang
                }
            },
            '*' => Token::Asterisk,
            '/' => Token::Slash,
            '<' => Token::LT,
            '>' => Token::GT,
            ',' => Token::Comma,
            ';' => Token::Semicolon,
            '(' => Token::ParenL,
            ')' => Token::ParenR,
            '{' => Token::BraceL,
            '}' => Token::BraceR,
            '\0' => Token::EOF,
            _ => {
                if Self::is_letter(self.ch) {
                    return self.read_keyword_or_identifier();
                } else if Self::is_digit(self.ch) {
                    return self.read_number();
                } else {
                    Token::Illegal
                }
            },
        };
        self.read_char();
        token
    }

    /// Whether the token at the cursor can be read: it cannot when it is an
    /// integer literal that does not fit in 32 bits, signed.
    pub fn next_fits(&self) -> (fits: bool)
        requires
            self.wf(),
        ensures
            fits == lexeme_at(self@.source, self@.cursor).token.representable(),
    {
        let start = self.run_end_from(self.position, CharClass::Blank);
        let end = self.run_end_from(start, CharClass::Digit);
        if start < end {
            proof {
                lemma_run_end(self.input@, start as int, CharClass::Digit);
            }
            parse_decimal(self.input.as_str().substring_ascii(start, end)).is_some()
        } else {
            true
        }
    }

    /// Whether every token from the cursor on can be read.
    pub fn literals_fit(&self) -> (fit: bool)
        requires
            self.wf(),
        ensures
            fit == literals_fit(self@.source, self@.cursor),
    {
        let mut probe = self.clone();
        let text = self.input.as_str();
        let length = text.as_bytes().len();
        proof {
            is_ascii_spec_bytes(text);
        }
        loop
            invariant
                probe.wf(),
                probe.input@ == self.input@,
                length == self.input@.len(),
                literals_fit(self.input@, self.position as int) == literals_fit(
                    self.input@,
                    probe.position as int,
                ),
            decreases length - probe.position,
        {
            if !probe.next_fits() {
                return false;
            }
            if probe.position >= length {
                return true;
            }
            proof {
                lemma_lexeme_end(probe.input@, probe.position as int);
            }
            probe.next_token();
        }
    }

    fn read_char(&mut self)
        requires
            old(self).input.is_ascii(),
            old(self).input@.len() < usize::MAX,
        ensures
            final(self).wf(),
            final(self).input == old(self).input,
            final(self).position == if old(self).read_position < old(self).input@.len() {
                old(self).read_position as int
            } else {
                old(self).input@.len() as int
            },
    {
        let text = self.input.as_str();
        let length = text.as_bytes().len();
        proof {
            is_ascii_spec_bytes(text);
        }
        if self.read_position >= length {
            self.ch = '\0';
            self.position = length;
        } else {
            self.ch = text.get_ascii(self.read_position) as char;
            self.position = self.read_position;
        }
        self.read_position = self.position + 1;
    }

    fn peek_char(&self) -> (c: char)
        requires
            self.wf(),
        ensures
            c == char_at(self.input@, self.position + 1),
    {
        let text = self.input.as_str();
        let length = text.as_bytes().len();
        proof {
            is_ascii_spec_bytes(text);
        }
        if self.read_position >= length {
            '\0'
        } else {
            text.get_ascii(self.read_position) as char
        }
    }

    fn read_keyword_or_identifier(&mut self) -> (token: Token)
        requires
            old(self).wf(),
        ensures
            final(self).wf(),
            final(self).input == old(self).input,
            final(self).position == run_end(
                old(self).input@,
                old(self).position as int,
                CharClass::Letter,
            ),
            token@ == keyword_or_identifier(
                old(self).input@.subrange(old(self).position as int, final(self).position as int),
            ),
    {
        let position = self.position;
        while Self::is_letter(self.ch)
            invariant
                self.wf(),
                self.input == old(self).input,
                position <= self.position,
                forall|j: int|
                    position <= j < self.position ==> CharClass::Letter.contains(
                        #[trigger] self.input@[j],
                    ),
            decreases self.input@.len() - self.position,
        {
            self.read_char();
        }
        proof {
            lemma_run_end_is(self.input@, position as int, self.position as int, CharClass::Letter);
        }
        Token::lookup_ident(self.input.as_str().substring_ascii(position, self.position))
    }

    fn read_number(&mut self) -> (token: Token)
        requires
            old(self).wf(),
            decimal_value(
                old(self).input@.subrange(
                    old(self).position as int,
                    run_end(old(self).input@, old(self).position as int, CharClass::Digit),
                ),
            ) <= i32::MAX,
        ensures
            final(self).wf(),
            final(self).input == old(self).input,
            final(self).position == run_end(
                old(self).input@,
                old(self).position as int,
                CharClass::Digit,
            ),
            token@ == TokenView::Int(
                decimal_value(
                    old(self).input@.subrange(
                        old(self).position as int,
                        final(self).position as int,
                    ),
                ) as int,
            ),
    {
        let position = self.position;
        while Self::is_digit(self.ch)
            invariant
                self.wf(),
                self.input == old(self).input,
                position <= self.position,
                forall|j: int|
                    position <= j < self.position ==> CharClass::Digit.contains(
                        #[trigger] self.input@[j],
                    ),
            decreases self.input@.len() - self.position,
        {
            self.read_char();
        }
        proof {
            lemma_run_end_is(self.input@, position as int, self.position as int, CharClass::Digit);
        }
        let value = parse_decimal(self.input.as_str().substring_ascii(position, self.position));
        Token::Int(value.unwrap())
    }

    fn is_letter(ch: char) -> (letter: bool)
        ensures
            letter == CharClass::Letter.contains(ch),
    {
        ('a' <= ch && ch <= 'z') || ('A' <= ch && ch <= 'Z') || ch == '_'
    }

    fn is_digit(ch: char) -> (digit: bool)
        ensures
            digit == CharClass::Digit.contains(ch),
    {
        '0' <= ch && ch <= '9'
    }

    fn is_blank(ch: char) -> (blank: bool)
        ensures
            blank == CharClass::Blank.contains(ch),
    {
        ch == ' ' || ch == '\t' || ch == '\n' || ch == '\r'
    }

    fn skip_whitespace(&mut self)
        requires
            old(self).wf(),
        ensures
            final(self).wf(),
            final(self).input == old(self).input,
            final(self).position == run_end(
                old(self).input@,
                old(self).position as int,
                CharClass::Blank,
            ),
    {
        let ghost start = self.position;
        while self.ch == ' ' || self.ch == '\t' || self.ch == '\n' || self.ch == '\r'
            invariant
                self.wf(),
                self.input == old(self).input,
                start <= self.position,
                forall|j: int|
                    start <= j < self.position ==> CharClass::Blank.contains(
                        #[trigger] self.input@[j],
                    ),
            decreases self.input@.len() - self.position,
        {
            self.read_char();
        }
        proof {
            lemma_run_end_is(self.input@, start as int, self.position as int, CharClass::Blank);
        }
    }

    /// The end of the run of `class` that starts at `from`; the cursor stays.
    fn run_end_from(&self, from: usize, class: CharClass) -> (end: usize)
        requires
            self.wf(),
            from <= self.input@.len(),
        ensures
            end == run_end(self.input@, from as int, class),
            from <= end <= self.input@.len(),
    {
        let text = self.input.as_str();
        let length = text.as_bytes().len();
        proof {
            is_ascii_spec_bytes(text);
        }
        let mut end = from;
        while end < length && Self::in_class(text.get_ascii(end) as char, &class)
            invariant
                self.wf(),
                text@ == self.input@,
                length == self.input@.len(),
                from <= end <= length,
                forall|j: int| from <= j < end ==> class.contains(#[trigger] self.input@[j]),
            decreases length - end,
        {
            end += 1;
        }
        proof {
            lemma_run_end_is(self.input@, from as int, end as int, class);
        }
        end
    }

    fn in_class(ch: char, class: &CharClass) -> (inside: bool)
        ensures
            inside == class.contains(ch),
    {
        match class {
            CharClass::Blank => Self::is_blank(ch),
            CharClass::Letter => Self::is_letter(ch),
            CharClass::Digit => Self::is_digit(ch),
        }
    }
}

} // verus!
