use monkey::ast::{
    ExpressionStatement, Identifier, LetStatement, Node, Program, ReturnStatement, Statement,
};

fn let_statement(name: &str) -> Statement {
    Statement::Let(LetStatement { name: Box::new(Identifier { value: String::from(name) }) })
}

#[test]
fn test_display() {
    let program = Program {
        statements: vec![Statement::Let(LetStatement {
            name: Box::new(Identifier {
                value: String::from("myVar"),
            }),
        })],
    };

    let a = program.to_string();
    assert_eq!(a, "let myVar = ...;");
}

#[test]
fn identifier_renders_as_its_name() {
    assert_eq!(Identifier { value: String::from("foobar") }.to_string(), "foobar");
    assert_eq!(Identifier { value: String::new() }.to_string(), "");
}

#[test]
fn statements_render_with_placeholders() {
    assert_eq!(let_statement("x").to_string(), "let x = ...;");
    assert_eq!(Statement::Return(ReturnStatement {}).to_string(), "return ...;");
    assert_eq!(Statement::Expression(ExpressionStatement {}).to_string(), "");
    assert_eq!(ReturnStatement {}.to_string(), "return ...;");
    assert_eq!(ExpressionStatement {}.to_string(), "");
}

#[test]
fn program_renders_statements_without_separator() {
    let program = Program {
        statements: vec![
            let_statement("x"),
            Statement::Return(ReturnStatement {}),
            Statement::Expression(ExpressionStatement {}),
            let_statement("y"),
        ],
    };
    assert_eq!(program.to_string(), "let x = ...;return ...;let y = ...;");
    assert_eq!(Program { statements: Vec::new() }.to_string(), "");
}
