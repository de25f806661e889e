use monkey::ast::{Node, Program, Statement};
use monkey::lexer::Lexer;
use monkey::parser::Parser;

fn parse(input: &str) -> (Program, Parser) {
    assert!(input.is_ascii());
    let lexer = Lexer::new(input);
    assert!(lexer.literals_fit());
    let mut parser = Parser::new(lexer);
    let program = parser.parse_program();
    (program, parser)
}

fn names(program: &Program) -> Vec<String> {
    let mut names = Vec::new();
    for statement in &program.statements {
        match statement {
            Statement::Let(let_statement) => names.push(let_statement.name.value.clone()),
            _ => panic!("statement is not a LetStatement"),
        }
    }
    names
}

#[test]
fn test_let_statements() {
    let input = "let x = 5;
                     let y = 10;
                     let foobar = 838383;";
    let lexer = Lexer::new(input);
    let mut parser = Parser::new(lexer);

    let program = parser.parse_program();
    check_parser_errors(&parser);
    if program.statements.len() != 3 {
        panic!(
            "program.statements.len() != 3, got={}",
            program.statements.len()
        );
    }

    let expected_identifiers = vec!["x", "y", "foobar"];
    for (i, ident) in expected_identifiers.into_iter().enumerate() {
        let statement = &program.statements[i];
        test_let_statement(statement, ident);
    }
}

fn test_let_statement(statement: &Statement, name: &str) {
    match statement {
        Statement::Let(let_statement) => {
            if let_statement.name.value != name {
                panic!(
                    "wrong identifier name, expected={}, got={}",
                    name, let_statement.name.value
                );
            }
        }
        _ => panic!("statement is not a LetStatement"),
    }
}

fn check_parser_errors(parser: &Parser) {
    if parser.has_errors() {
        panic!("{}", parser.get_errors());
    }
}

#[test]
fn two_let_statements_end_to_end() {
    let (program, parser) = parse("let x = 5; let y = 10;");
    assert_eq!(program.statements.len(), 2);
    assert_eq!(names(&program), vec!["x", "y"]);
    assert!(!parser.has_errors());
    assert_eq!(parser.get_errors(), "0 parser error(s):");
    assert_eq!(program.to_string(), "let x = ...;let y = ...;");
}

#[test]
fn right_hand_side_is_passed_over() {
    let (program, parser) = parse("let f = fn(a, b) { let if == != 12 @ return } ;");
    assert_eq!(names(&program), vec!["f"]);
    assert!(!parser.has_errors());

    let (program, parser) = parse("let x = ;");
    assert_eq!(names(&program), vec!["x"]);
    assert!(!parser.has_errors());

    let (program, parser) = parse("let x = = = ; let y = let z = 1;");
    assert_eq!(names(&program), vec!["x", "y"]);
    assert!(!parser.has_errors());
}

#[test]
fn let_without_assign_is_one_error() {
    let (program, parser) = parse("let x 5;");
    assert_eq!(program.statements.len(), 0);
    assert!(parser.has_errors());
    assert_eq!(
        parser.get_errors(),
        "1 parser error(s):; expected next token to be Assign, got Int(5) instead"
    );
}

#[test]
fn let_without_identifier_is_one_error() {
    let (program, parser) = parse("let = 5;");
    assert_eq!(program.statements.len(), 0);
    assert_eq!(
        parser.get_errors(),
        "1 parser error(s):; expected next token to be Ident(\"\"), got Assign instead"
    );

    let (program, parser) = parse("let");
    assert_eq!(program.statements.len(), 0);
    assert_eq!(
        parser.get_errors(),
        "1 parser error(s):; expected next token to be Ident(\"\"), got EOF instead"
    );
}

#[test]
fn errors_accumulate_in_order() {
    let (program, parser) = parse("let x 5; let = 10; let y = 1; let 838383; let z w;");
    assert_eq!(names(&program), vec!["y"]);
    assert!(parser.has_errors());
    assert_eq!(
        parser.get_errors(),
        "4 parser error(s):; expected next token to be Assign, got Int(5) instead; expected next \
         token to be Ident(\"\"), got Assign instead; expected next token to be Ident(\"\"), got \
         Int(838383) instead; expected next token to be Assign, got Ident(\"w\") instead"
    );
}

#[test]
fn parsing_resumes_at_the_offending_token() {
    let (program, parser) = parse("let x let y = 5;");
    assert_eq!(names(&program), vec!["y"]);
    assert_eq!(
        parser.get_errors(),
        "1 parser error(s):; expected next token to be Assign, got Let instead"
    );
}

#[test]
fn missing_terminator_still_gives_the_statement() {
    let (program, parser) = parse("let x = 5");
    assert_eq!(names(&program), vec!["x"]);
    assert!(!parser.has_errors());

    let (program, parser) = parse("let x =");
    assert_eq!(names(&program), vec!["x"]);
    assert!(!parser.has_errors());
}

#[test]
fn other_statements_are_skipped() {
    let (program, parser) = parse("return 5; x + y; 12; if (a) { b }");
    assert_eq!(program.statements.len(), 0);
    assert!(!parser.has_errors());
    assert_eq!(program.to_string(), "");
}

#[test]
fn empty_input_is_an_empty_program() {
    let (program, parser) = parse("");
    assert_eq!(program.statements.len(), 0);
    assert!(!parser.has_errors());
    assert_eq!(parser.get_errors(), "0 parser error(s):");
}

#[test]
fn parsing_again_adds_nothing() {
    let (program, mut parser) = parse("let x 5; let y = 2;");
    assert_eq!(names(&program), vec!["y"]);
    let again = parser.parse_program();
    assert_eq!(again.statements.len(), 0);
    assert_eq!(
        parser.get_errors(),
        "1 parser error(s):; expected next token to be Assign, got Int(5) instead"
    );
}

#[test]
fn parser_starts_where_the_lexer_stands() {
    let mut lexer = Lexer::new("let a = 1; let b = 2;");
    for _ in 0..5 {
        lexer.next_token();
    }
    let mut parser = Parser::new(lexer);
    let program = parser.parse_program();
    assert_eq!(names(&program), vec!["b"]);
    assert!(!parser.has_errors());
}

#[test]
fn text_after_a_nul_is_not_parsed() {
    let (program, parser) = parse("let a = 1;\0 let b = 2;");
    assert_eq!(names(&program), vec!["a"]);
    assert!(!parser.has_errors());
}
