use monkey::lexer::Lexer;
use monkey::token::Token;

fn lex(input: &str) -> Vec<Token> {
    assert!(input.is_ascii());
    let mut lexer = Lexer::new(input);
    let mut tokens = Vec::new();
    loop {
        assert!(lexer.next_fits());
        let token = lexer.next_token();
        let done = token == Token::EOF;
        tokens.push(token);
        if done {
            return tokens;
        }
    }
}

fn ident(name: &str) -> Token {
    Token::Ident(String::from(name))
}

#[test]
fn lexer_test_next_token() {
    let input = "let five = 5;
            let ten = 10;
            
            let add = fn(x, y) {
                x + y;
            };
            
            let result = add(five, ten);
            !-/*5;
            5 < 10 > 5;
            
            if (5 < 10) {
                return true;
            } else {
                return false;
            }
            
            10 == 10;
            10 != 9;";
    let expected_tokens = vec![
        Token::Let,
        Token::Ident(String::from("five")),
        Token::Assign,
        Token::Int(5),
        Token::Semicolon,
        Token::Let,
        Token::Ident(String::from("ten")),
        Token::Assign,
        Token::Int(10),
        Token::Semicolon,
        Token::Let,
        Token::Ident(String::from("add")),
        Token::Assign,
        Token::Function,
        Token::ParenL,
        Token::Ident(String::from("x")),
        Token::Comma,
        Token::Ident(String::from("y")),
        Token::ParenR,
        Token::BraceL,
        Token::Ident(String::from("x")),
        Token::Plus,
        Token::Ident(String::from("y")),
        Token::Semicolon,
        Token::BraceR,
        Token::Semicolon,
        Token::Let,
        Token::Ident(String::from("result")),
        Token::Assign,
        Token::Ident(String::from("add")),
        Token::ParenL,
        Token::Ident(String::from("five")),
        Token::Comma,
        Token::Ident(String::from("ten")),
        Token::ParenR,
        Token::Semicolon,
        Token::Bang,
        Token::Minus,
        Token::Slash,
        Token::Asterisk,
        Token::Int(5),
        Token::Semicolon,
        Token::Int(5),
        Token::LT,
        Token::Int(10),
        Token::GT,
        Token::Int(5),
        Token::Semicolon,
        Token::If,
        Token::ParenL,
        Token::Int(5),
        Token::LT,
        Token::Int(10),
        Token::ParenR,
        Token::BraceL,
        Token::Return,
        Token::True,
        Token::Semicolon,
        Token::BraceR,
        Token::Else,
        Token::BraceL,
        Token::Return,
        Token::False,
        Token::Semicolon,
        Token::BraceR,
        Token::Int(10),
        Token::Eq,
        Token::Int(10),
        Token::Semicolon,
        Token::Int(10),
        Token::NotEq,
        Token::Int(9),
        Token::Semicolon,
        Token::EOF,
    ];

    let mut lexer = Lexer::new(input);

    for token in expected_tokens {
        let lexer_token = lexer.next_token();
        if lexer_token != token {
            panic!("mismatch! wanted: {:?}, got: {:?}", token, lexer_token);
        }
    }
}

#[test]
fn lib_test_next_token() {
    let input = "let five = 5;
            let ten = 10;
            
            let add = fn(x, y) {
                x + y;
            };
            
            let result = add(five, ten);";
    let expected_tokens = vec![
        Token::Let,
        Token::Ident(String::from("five")),
        Token::Assign,
        Token::Int(5),
        Token::Semicolon,
        Token::Let,
        Token::Ident(String::from("ten")),
        Token::Assign,
        Token::Int(10),
        Token::Semicolon,
        Token::Let,
        Token::Ident(String::from("add")),
        Token::Assign,
        Token::Function,
        Token::ParenL,
        Token::Ident(String::from("x")),
        Token::Comma,
        Token::Ident(String::from("y")),
        Token::ParenR,
        Token::BraceL,
        Token::Ident(String::from("x")),
        Token::Plus,
        Token::Ident(String::from("y")),
        Token::Semicolon,
        Token::BraceR,
        Token::Semicolon,
        Token::Let,
        Token::Ident(String::from("result")),
        Token::Assign,
        Token::Ident(String::from("add")),
        Token::ParenL,
        Token::Ident(String::from("five")),
        Token::Comma,
        Token::Ident(String::from("ten")),
        Token::ParenR,
        Token::Semicolon,
    ];

    let mut lexer = Lexer::new(input);

    for token in expected_tokens {
        let lexer_token = lexer.next_token();
        if lexer_token != token {
            panic!("mismatch! wanted: {:?}, got: {:?}", token, lexer_token);
        }
    }
}

#[test]
fn operator_trace() {
    assert_eq!(
        lex("!-/*5;"),
        vec![
            Token::Bang,
            Token::Minus,
            Token::Slash,
            Token::Asterisk,
            Token::Int(5),
            Token::Semicolon,
            Token::EOF,
        ]
    );
}

#[test]
fn end_of_input_repeats() {
    let mut lexer = Lexer::new("x");
    assert_eq!(lexer.next_token(), ident("x"));
    for _ in 0..5 {
        assert_eq!(lexer.next_token(), Token::EOF);
    }
}

#[test]
fn empty_input_is_end_of_input() {
    let mut lexer = Lexer::new("");
    assert_eq!(lexer.next_token(), Token::EOF);
    assert_eq!(lexer.next_token(), Token::EOF);
    assert_eq!(lex("  \t\r\n "), vec![Token::EOF]);
}

#[test]
fn nul_in_the_text_is_end_of_input_there() {
    let mut lexer = Lexer::new("a\0b");
    assert_eq!(lexer.next_token(), ident("a"));
    assert_eq!(lexer.next_token(), Token::EOF);
    assert_eq!(lexer.next_token(), ident("b"));
    assert_eq!(lexer.next_token(), Token::EOF);
    assert_eq!(lexer.next_token(), Token::EOF);
}

#[test]
fn keywords_and_identifiers() {
    assert_eq!(
        lex("fn let true false if else return"),
        vec![
            Token::Function,
            Token::Let,
            Token::True,
            Token::False,
            Token::If,
            Token::Else,
            Token::Return,
            Token::EOF,
        ]
    );
    assert_eq!(
        lex("Let lets _x foo_bar fnx RETURN"),
        vec![
            ident("Let"),
            ident("lets"),
            ident("_x"),
            ident("foo_bar"),
            ident("fnx"),
            ident("RETURN"),
            Token::EOF,
        ]
    );
}

#[test]
fn words_end_at_digits() {
    assert_eq!(lex("ab12cd"), vec![ident("ab"), Token::Int(12), ident("cd"), Token::EOF]);
}

#[test]
fn two_character_operators() {
    assert_eq!(lex("=="), vec![Token::Eq, Token::EOF]);
    assert_eq!(lex("="), vec![Token::Assign, Token::EOF]);
    assert_eq!(lex("!="), vec![Token::NotEq, Token::EOF]);
    assert_eq!(lex("!"), vec![Token::Bang, Token::EOF]);
    assert_eq!(lex("= ="), vec![Token::Assign, Token::Assign, Token::EOF]);
    assert_eq!(lex("==="), vec![Token::Eq, Token::Assign, Token::EOF]);
    assert_eq!(lex("!=="), vec![Token::NotEq, Token::Assign, Token::EOF]);
    assert_eq!(lex("!!="), vec![Token::Bang, Token::NotEq, Token::EOF]);
    assert_eq!(lex("=!"), vec![Token::Assign, Token::Bang, Token::EOF]);
}

#[test]
fn punctuation() {
    assert_eq!(
        lex("=+-!*/<>,;(){}"),
        vec![
            Token::Assign,
            Token::Plus,
            Token::Minus,
            Token::Bang,
            Token::Asterisk,
            Token::Slash,
            Token::LT,
            Token::GT,
            Token::Comma,
            Token::Semicolon,
            Token::ParenL,
            Token::ParenR,
            Token::BraceL,
            Token::BraceR,
            Token::EOF,
        ]
    );
}

#[test]
fn whitespace_is_elided() {
    let spaced = lex(" \t\n\r let \t\t x\r\n=\n\n5  ;  ");
    assert_eq!(spaced, lex("let x=5;"));
    assert_eq!(
        spaced,
        vec![Token::Let, ident("x"), Token::Assign, Token::Int(5), Token::Semicolon, Token::EOF]
    );
}

#[test]
fn unrecognised_characters_are_illegal() {
    assert_eq!(
        lex("a @ # b"),
        vec![ident("a"), Token::Illegal, Token::Illegal, ident("b"), Token::EOF]
    );
    assert_eq!(lex("\u{7f}\u{1}"), vec![Token::Illegal, Token::Illegal, Token::EOF]);
}

#[test]
fn integer_literals() {
    assert_eq!(lex("0"), vec![Token::Int(0), Token::EOF]);
    assert_eq!(lex("007"), vec![Token::Int(7), Token::EOF]);
    assert_eq!(lex("838383"), vec![Token::Int(838383), Token::EOF]);
    assert_eq!(lex("2147483647"), vec![Token::Int(2147483647), Token::EOF]);
    assert_eq!(lex("0000000000002147483647"), vec![Token::Int(2147483647), Token::EOF]);
    assert_eq!(lex("-5"), vec![Token::Minus, Token::Int(5), Token::EOF]);
}

#[test]
fn literal_out_of_range_is_reported() {
    let lexer = Lexer::new("2147483648");
    assert!(!lexer.next_fits());
    assert!(!lexer.literals_fit());

    let lexer = Lexer::new("  99999999999999999999;");
    assert!(!lexer.next_fits());

    let mut lexer = Lexer::new("x = 2147483648;");
    assert!(lexer.next_fits());
    assert!(!lexer.literals_fit());
    assert_eq!(lexer.next_token(), ident("x"));
    assert!(lexer.next_fits());
    assert_eq!(lexer.next_token(), Token::Assign);
    assert!(!lexer.next_fits());
}

#[test]
fn literals_in_range_are_accepted() {
    assert!(Lexer::new("").literals_fit());
    assert!(Lexer::new("let x = 2147483647; 0 12 x9").literals_fit());
    let mut lexer = Lexer::new("5 2147483648");
    assert!(!lexer.literals_fit());
    let mut later = lexer.clone();
    assert_eq!(lexer.next_token(), Token::Int(5));
    assert!(!lexer.literals_fit());
    assert_eq!(later.next_token(), Token::Int(5));
}

#[test]
fn probing_leaves_the_cursor() {
    let mut lexer = Lexer::new("  12 ab");
    assert!(lexer.next_fits());
    assert!(lexer.literals_fit());
    assert_eq!(lexer.next_token(), Token::Int(12));
    assert!(lexer.literals_fit());
    assert_eq!(lexer.next_token(), ident("ab"));
    assert_eq!(lexer.next_token(), Token::EOF);
}
