//! The lexical categories of the language.

use crate::text::{append_decimal, signed_decimal};
use vstd::prelude::*;
use vstd::std_specs::cmp::PartialEqSpecImpl;

verus! {

/// One lexical unit.
#[derive(Debug)]
pub enum Token {
    // single character
    Assign,
    Plus,
    Minus,
    Bang,
    Asterisk,
    Slash,
    LT,
    GT,
    Comma,
    Semicolon,
    ParenL,
    ParenR,
    BraceL,
    BraceR,
    // two character
    Eq,
    NotEq,
    // keywords
    Function,
    Let,
    True,
    False,
    If,
    Else,
    Return,
    // identifiers and literals
    Ident(String),
    Int(i32),
    // special
    EOF,
    Illegal,
}

/// The mathematical value of a [`Token`]: the same categories, an identifier
/// carrying its name as a sequence of characters and an integer literal its
/// value as an unbounded integer.
pub enum TokenView {
    Assign,
    Plus,
    Minus,
    Bang,
    Asterisk,
    Slash,
    LT,
    GT,
    Comma,
    Semicolon,
    ParenL,
    ParenR,
    BraceL,
    BraceR,
    Eq,
    NotEq,
    Function,
    Let,
    True,
    False,
    If,
    Else,
    Return,
    Ident(Seq<char>),
    Int(int),
    EOF,
    Illegal,
}

impl View for Token {
    type V = TokenView;

    open spec fn view(&self) -> TokenView {
        match self {
            Token::Assign => TokenView::Assign,
            Token::Plus => TokenView::Plus,
            Token::Minus => TokenView::Minus,
            Token::Bang => TokenView::Bang,
            Token::Asterisk => TokenView::Asterisk,
            Token::Slash => TokenView::Slash,
            Token::LT => TokenView::LT,
            Token::GT => TokenView::GT,
            Token::Comma => TokenView::Comma,
            Token::Semicolon => TokenView::Semicolon,
            Token::ParenL => TokenView::ParenL,
            Token::ParenR => TokenView::ParenR,
            Token::BraceL => TokenView::BraceL,
            Token::BraceR => TokenView::BraceR,
            Token::Eq => TokenView::Eq,
            Token::NotEq => TokenView::NotEq,
            Token::Function => TokenView::Function,
            Token::Let => TokenView::Let,
            Token::True => TokenView::True,
            Token::False => TokenView::False,
            Token::If => TokenView::If,
            Token::Else => TokenView::Else,
            Token::Return => TokenView::Return,
            Token::Ident(name) => TokenView::Ident(name@),
            Token::Int(value) => TokenView::Int(*value as int),
            Token::EOF => TokenView::EOF,
            Token::Illegal => TokenView::Illegal,
        }
    }
}

impl Clone for Token {
    fn clone(&self) -> (copy: Token)
        ensures
            copy@ == self@,
    {
        match self {
            Token::Assign => Token::Assign,
            Token::Plus => Token::Plus,
            Token::Minus => Token::Minus,
            Token::Bang => Token::Bang,
            Token::Asterisk => Token::Asterisk,
            Token::Slash => Token::Slash,
            Token::LT => Token::LT,
            Token::GT => Token::GT,
            Token::Comma => Token::Comma,
            Token::Semicolon => Token::Semicolon,
            Token::ParenL => Token::ParenL,
            Token::ParenR => Token::ParenR,
            Token::BraceL => Token::BraceL,
            Token::BraceR => Token::BraceR,
            Token::Eq => Token::Eq,
            Token::NotEq => Token::NotEq,
            Token::Function => Token::Function,
            Token::Let => Token::Let,
            Token::True => Token::True,
            Token::False => Token::False,
            Token::If => Token::If,
            Token::Else => Token::Else,
            Token::Return => Token::Return,
            Token::Ident(name) => Token::Ident(name.clone()),
            Token::Int(value) => Token::Int(*value),
            Token::EOF => Token::EOF,
            Token::Illegal => Token::Illegal,
        }
    }
}

impl PartialEq for Token {
    fn eq(&self, other: &Token) -> (same: bool) {
        match (self, other) {
            (Token::Ident(a), Token::Ident(b)) => *a == *b,
            (Token::Int(a), Token::Int(b)) => *a == *b,
            (Token::Assign, Token::Assign) => true,
            (Token::Plus, Token::Plus) => true,
            (Token::Minus, Token::Minus) => true,
            (Token::Bang, Token::Bang) => true,
            (Token::Asterisk, Token::Asterisk) => true,
            (Token::Slash, Token::Slash) => true,
            (Token::LT, Token::LT) => true,
            (Token::GT, Token::GT) => true,
            (Token::Comma, Token::Comma) => true,
            (Token::Semicolon, Token::Semicolon) => true,
            (Token::ParenL, Token::ParenL) => true,
            (Token::ParenR, Token::ParenR) => true,
            (Token::BraceL, Token::BraceL) => true,
            (Token::BraceR, Token::BraceR) => true,
            (Token::Eq, Token::Eq) => true,
            (Token::NotEq, Token::NotEq) => true,
            (Token::Function, Token::Function) => true,
            (Token::Let, Token::Let) => true,
            (Token::True, Token::True) => true,
            (Token::False, Token::False) => true,
            (Token::If, Token::If) => true,
            (Token::Else, Token::Else) => true,
            (Token::Return, Token::Return) => true,
            (Token::EOF, Token::EOF) => true,
            (Token::Illegal, Token::Illegal) => true,
            _ => false,
        }
    }
}

impl PartialEqSpecImpl for Token {
    open spec fn obeys_eq_spec() -> bool {
        true
    }

    open spec fn eq_spec(&self, other: &Token) -> bool {
        self@ == other@
    }
}

impl TokenView {
    /// Whether an executable [`Token`] can carry this value: an integer
    /// literal must fit in 32 bits, signed.
    pub open spec fn representable(self) -> bool {
        match self {
            TokenView::Int(value) => i32::MIN <= value <= i32::MAX,
            _ => true,
        }
    }

    /// Whether two tokens belong to the same category, whatever name or
    /// number they carry.
    pub open spec fn same_kind(self, other: TokenView) -> bool {
        match (self, other) {
            (TokenView::Ident(_), TokenView::Ident(_)) => true,
            (TokenView::Int(_), TokenView::Int(_)) => true,
            _ => self == other,
        }
    }

    /// How a token is written in a diagnostic: the name of its category,
    /// followed for an identifier by its name between double quotes and for
    /// an integer literal by its numeral, in parentheses.
    pub open spec fn description(self) -> Seq<char> {
        match self {
            TokenView::Assign => "Assign"@,
            TokenView::Plus => "Plus"@,
            TokenView::Minus => "Minus"@,
            TokenView::Bang => "Bang"@,
            TokenView::Asterisk => "Asterisk"@,
            TokenView::Slash => "Slash"@,
            TokenView::LT => "LT"@,
            TokenView::GT => "GT"@,
            TokenView::Comma => "Comma"@,
            TokenView::Semicolon => "Semicolon"@,
            TokenView::ParenL => "ParenL"@,
            TokenView::ParenR => "ParenR"@,
            TokenView::BraceL => "BraceL"@,
            TokenView::BraceR => "BraceR"@,
            TokenView::Eq => "Eq"@,
            TokenView::NotEq => "NotEq"@,
            TokenView::Function => "Function"@,
            TokenView::Let => "Let"@,
            TokenView::True => "True"@,
            TokenView::False => "False"@,
            TokenView::If => "If"@,
            TokenView::Else => "Else"@,
            TokenView::Return => "Return"@,
            TokenView::Ident(name) => "Ident(\""@ + name + "\")"@,
            TokenView::Int(value) => "Int("@ + signed_decimal(value) + ")"@,
            TokenView::EOF => "EOF"@,
            TokenView::Illegal => "Illegal"@,
        }
    }
}

/// The token that a run of letters and underscores stands for: the keyword
/// that is spelled so, and otherwise an identifier of that name. The match
/// is exact and case-sensitive.
pub open spec fn keyword_or_identifier(word: Seq<char>) -> TokenView {
    if word == "fn"@ {
        TokenView::Function
    } else if word == "let"@ {
        TokenView::Let
    } else if word == "true"@ {
        TokenView::True
    } else if word == "false"@ {
        TokenView::False
    } else if word == "if"@ {
        TokenView::If
    } else if word == "else"@ {
        TokenView::Else
    } else if word == "return"@ {
        TokenView::Return
    } else {
        TokenView::Ident(word)
    }
}

fn spells(word: &String, keyword: &str) -> (same: bool)
    ensures
        same == (word@ == keyword@),
{
    *word == String::from_str(keyword)
}

impl Token {
    /// Classifies a word as a keyword or an identifier.
    pub fn lookup_ident(input: &str) -> (token: Token)
        ensures
            token@ == keyword_or_identifier(input@),
    {
        let word = String::from_str(input);
        if spells(&word, "fn") {
            Token::Function
        } else if spells(&word, "let") {
            Token::Let
        } else if spells(&word, "true") {
            Token::True
        } else if spells(&word, "false") {
            Token::False
        } else if spells(&word, "if") {
            Token::If
        } else if spells(&word, "else") {
            Token::Else
        } else if spells(&word, "return") {
            Token::Return
        } else {
            Token::Ident(word)
        }
    }

    /// Whether `self` and `other` belong to the same category; the name of an
    /// identifier and the value of an integer literal are not compared.
    pub fn same_kind(&self, other: &Token) -> (same: bool)
        ensures
            same == self@.same_kind(other@),
    {
        match (self, other) {
            (Token::Ident(_), Token::Ident(_)) => true,
            (Token::Int(_), Token::Int(_)) => true,
            _ => *self == *other,
        }
    }

    /// Writes the token as it appears in a diagnostic.
    pub fn describe(&self) -> (text: String)
        ensures
            text@ == self@.description(),
    {
        match self {
            Token::Assign => String::from_str("Assign"),
            Token::Plus => String::from_str("Plus"),
            Token::Minus => String::from_str("Minus"),
            Token::Bang => String::from_str("Bang"),
            Token::Asterisk => String::from_str("Asterisk"),
            Token::Slash => String::from_str("Slash"),
            Token::LT => String::from_str("LT"),
            Token::GT => String::from_str("GT"),
            Token::Comma => String::from_str("Comma"),
            Token::Semicolon => String::from_str("Semicolon"),
            Token::ParenL => String::from_str("ParenL"),
            Token::ParenR => String::from_str("ParenR"),
            Token::BraceL => String::from_str("BraceL"),
            Token::BraceR => String::from_str("BraceR"),
            Token::Eq => String::from_str("Eq"),
            Token::NotEq => String::from_str("NotEq"),
            Token::Function => String::from_str("Function"),
            Token::Let => String::from_str("Let"),
            Token::True => String::from_str("True"),
            Token::False => String::from_str("False"),
            Token::If => String::from_str("If"),
            Token::Else => String::from_str("Else"),
            Token::Return => String::from_str("Return"),
            Token::Ident(name) => {
                let mut text = String::from_str("Ident(\"");
                text.append(name.as_str());
                text.append("\")");
                text
            },
            Token::Int(value) => {
                let mut text = String::from_str("Int(");
                let wide: i64 = *value as i64;
                if wide < 0 {
                    proof {
                        reveal_strlit("-");
                    }
                    text.append("-");
                    assert(text@ =~= "Int("@ + seq!['-']);
                    append_decimal(&mut text, (-wide) as u64);
                } else {
                    append_decimal(&mut text, wide as u64);
                }
                text.append(")");
                text
            },
            Token::EOF => String::from_str("EOF"),
            Token::Illegal => String::from_str("Illegal"),
        }
    }
}

} // verus!
