//! The syntax tree: a program is a sequence of statements, each owned by the
//! program, and every node can be written back as source-like text.

use vstd::prelude::*;

verus! {

/// A node of the syntax tree.
pub trait Node {
    /// The node written as source-like text.
    spec fn text(&self) -> Seq<char>;

    /// Writes the node as source-like text.
    fn to_string(&self) -> (text: String)
        ensures
            text@ == self.text(),
    ;
}

/// A node that has a value.
pub trait Expression: Node {}

/// A name; as an expression, its value is what the name is bound to.
pub struct Identifier {
    pub value: String,
}

/// `let <name> = <expression>;`. The expression is not kept.
pub struct LetStatement {
    pub name: Box<Identifier>,
}

/// `return <expression>;`. The expression is not kept.
pub struct ReturnStatement {}

/// An expression that stands as a statement. The expression is not kept.
pub struct ExpressionStatement {}

/// A statement, of any of its kinds.
pub enum Statement {
    Let(LetStatement),
    Return(ReturnStatement),
    Expression(ExpressionStatement),
}

/// A sequence of statements in source order.
pub struct Program {
    pub statements: Vec<Statement>,
}

/// The mathematical value of a [`Statement`].
pub enum StatementView {
    Let { name: Seq<char> },
    Return,
    Expression,
}

impl StatementView {
    /// The statement as text. An expression that was not kept is written as
    /// three dots; an expression statement, which is nothing else, is written
    /// as nothing.
    pub open spec fn text(self) -> Seq<char> {
        match self {
            StatementView::Let { name } => "let "@ + name + " = ...;"@,
            StatementView::Return => "return ...;"@,
            StatementView::Expression => Seq::empty(),
        }
    }
}

/// The texts of `statements` one after another, with nothing between them.
pub open spec fn program_text(statements: Seq<StatementView>) -> Seq<char>
    decreases statements.len(),
{
    if statements.len() == 0 {
        Seq::empty()
    } else {
        program_text(statements.drop_last()) + statements.last().text()
    }
}

impl View for Identifier {
    type V = Seq<char>;

    open spec fn view(&self) -> Seq<char> {
        self.value@
    }
}

impl View for LetStatement {
    type V = StatementView;

    open spec fn view(&self) -> StatementView {
        StatementView::Let { name: self.name@ }
    }
}

impl View for ReturnStatement {
    type V = StatementView;

    open spec fn view(&self) -> StatementView {
        StatementView::Return
    }
}

impl View for ExpressionStatement {
    type V = StatementView;

    open spec fn view(&self) -> StatementView {
        StatementView::Expression
    }
}

impl View for Statement {
    type V = StatementView;

    open spec fn view(&self) -> StatementView {
        match self {
            Statement::Let(statement) => statement@,
            Statement::Return(statement) => statement@,
            Statement::Expression(statement) => statement@,
        }
    }
}

impl View for Program {
    type V = Seq<StatementView>;

    open spec fn view(&self) -> Seq<StatementView> {
        self.statements@.map_values(|statement: Statement| statement@)
    }
}

impl Node for Identifier {
    open spec fn text(&self) -> Seq<char> {
        self@
    }

    fn to_string(&self) -> (text: String) {
        self.value.clone()
    }
}

impl Expression for Identifier {}

impl Node for LetStatement {
    open spec fn text(&self) -> Seq<char> {
        self@.text()
    }

    fn to_string(&self) -> (text: String) {
        let mut text = String::from_str("let ");
        text.append(self.name.value.as_str());
        text.append(" = ...;");
        text
    }
}

impl Node for ReturnStatement {
    open spec fn text(&self) -> Seq<char> {
        self@.text()
    }

    fn to_string(&self) -> (text: String) {
        String::from_str("return ...;")
    }
}

impl Node for ExpressionStatement {
    open spec fn text(&self) -> Seq<char> {
        self@.text()
    }

    fn to_string(&self) -> (text: String) {
        String::new()
    }
}

impl Node for Statement {
    open spec fn text(&self) -> Seq<char> {
        self@.text()
    }

    fn to_string(&self) -> (text: String) {
        match self {
            Statement::Let(statement) => statement.to_string(),
            Statement::Return(statement) => statement.to_string(),
            Statement::Expression(statement) => statement.to_string(),
        }
    }
}

impl Node for Program {
    open spec fn text(&self) -> Seq<char> {
        program_text(self@)
    }

    fn to_string(&self) -> (text: String) {
        let mut text = String::new();
        let mut i: usize = 0;
        while i < self.statements.len()
            invariant
                i <= self.statements.len(),
                text@ == program_text(self@.take(i as int)),
            decreases self.statements.len() - i,
        {
            let statement = self.statements[i].to_string();
            text.append(statement.as_str());
            proof {
                assert(self@.take(i + 1).drop_last() =~= self@.take(i as int));
            }
            i += 1;
        }
        assert(self@.take(i as int) =~= self@);
        text
    }
}

} // verus!
