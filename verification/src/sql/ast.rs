//! The syntax tree, and the text that each of its nodes renders to.

use vstd::prelude::*;
use vstd::string::*;
use crate::sql::number::{
    canonical_number, canonical_text, contains_dot, decimal_string, decimal_text, has_fraction,
    is_number_text,
};

verus! {

/// The two kinds of number literal.
#[derive(Debug, PartialEq, Eq, Clone, Copy, Structural)]
pub enum NumberType {
    Int,
    Double,
}

/// A number literal: its kind, and its value as canonical decimal text.
#[derive(Debug, PartialEq, Eq, Clone)]
pub struct NumberExpr {
    pub number_type: NumberType,
    pub text: String,
}

/// An expression: a number literal, the wildcard `*`, or a column named by
/// an identifier.
#[derive(Debug, PartialEq, Eq, Clone)]
pub enum Expression {
    Number(NumberExpr),
    Wildcard,
    Column(String),
}

/// A `SELECT` statement.
#[derive(Debug, PartialEq, Eq, Clone)]
pub struct SelectStatement {
    pub selection: Vec<Expression>,
    pub from: Option<Expression>,
    pub joins: Vec<Expression>,
    pub group_by: Vec<Expression>,
    pub order_by: Vec<Expression>,
}

/// A statement.
#[derive(Debug, PartialEq, Eq, Clone)]
pub enum Statement {
    Select(SelectStatement),
}

/// A parsed request: its statements, in order.
#[derive(Debug, PartialEq, Eq, Clone)]
pub struct Ast {
    pub statements: Vec<Statement>,
}

/// A number literal as a mathematical value.
pub struct NumberView {
    pub number_type: NumberType,
    pub text: Seq<char>,
}

/// An expression as a mathematical value.
pub enum ExpressionView {
    Number(NumberView),
    Wildcard,
    Column(Seq<char>),
}

/// A `SELECT` statement as a mathematical value.
pub struct SelectView {
    pub selection: Seq<ExpressionView>,
    pub from: Option<ExpressionView>,
    pub joins: Seq<ExpressionView>,
    pub group_by: Seq<ExpressionView>,
    pub order_by: Seq<ExpressionView>,
}

/// A statement as a mathematical value.
pub enum StatementView {
    Select(SelectView),
}

impl View for NumberExpr {
    type V = NumberView;

    open spec fn view(&self) -> NumberView {
        NumberView { number_type: self.number_type, text: self.text@ }
    }
}

impl View for Expression {
    type V = ExpressionView;

    open spec fn view(&self) -> ExpressionView {
        match self {
            Expression::Number(number) => ExpressionView::Number(number@),
            Expression::Wildcard => ExpressionView::Wildcard,
            Expression::Column(name) => ExpressionView::Column(name@),
        }
    }
}

/// The views of a sequence of expressions, in order.
pub open spec fn expression_views(expressions: Seq<Expression>) -> Seq<ExpressionView> {
    expressions.map_values(|e: Expression| e@)
}

impl View for SelectStatement {
    type V = SelectView;

    open spec fn view(&self) -> SelectView {
        SelectView {
            selection: expression_views(self.selection@),
            from: match self.from {
                Some(from) => Some(from@),
                None => None,
            },
            joins: expression_views(self.joins@),
            group_by: expression_views(self.group_by@),
            order_by: expression_views(self.order_by@),
        }
    }
}

impl View for Statement {
    type V = StatementView;

    open spec fn view(&self) -> StatementView {
        match self {
            Statement::Select(select) => StatementView::Select(select@),
        }
    }
}

/// The views of a sequence of statements, in order.
pub open spec fn statement_views(statements: Seq<Statement>) -> Seq<StatementView> {
    statements.map_values(|s: Statement| s@)
}

impl View for Ast {
    type V = Seq<StatementView>;

    open spec fn view(&self) -> Seq<StatementView> {
        statement_views(self.statements@)
    }
}

/// The number literal that `text` denotes: a `Double` where the text holds a
/// `.`, an `Int` where it holds none.
pub open spec fn number_of_text(text: Seq<char>) -> NumberView {
    NumberView {
        number_type: if has_fraction(text) {
            NumberType::Double
        } else {
            NumberType::Int
        },
        text: canonical_number(text),
    }
}

/// The text of an expression.
pub open spec fn render_expression(expression: ExpressionView) -> Seq<char> {
    match expression {
        ExpressionView::Number(number) => number.text,
        ExpressionView::Wildcard => "*"@,
        ExpressionView::Column(name) => name,
    }
}

/// The texts of the expressions, with `", "` between each two.
pub open spec fn render_list(expressions: Seq<ExpressionView>) -> Seq<char>
    decreases expressions.len(),
{
    if expressions.len() == 0 {
        Seq::empty()
    } else if expressions.len() == 1 {
        render_expression(expressions[0])
    } else {
        render_list(expressions.drop_last()) + ", "@ + render_expression(expressions.last())
    }
}

/// The text of a `SELECT` statement: `select`, the selection, the source
/// after ` from ` where there is one, and `;`.
pub open spec fn render_select(select: SelectView) -> Seq<char> {
    let from = match select.from {
        Some(from) => " from "@ + render_expression(from),
        None => Seq::empty(),
    };
    "select "@ + render_list(select.selection) + from + ";"@
}

/// The text of a statement.
pub open spec fn render_statement(statement: StatementView) -> Seq<char> {
    match statement {
        StatementView::Select(select) => render_select(select),
    }
}

/// The text of a `SELECT` statement begins with `select ` and ends with `;`.
pub proof fn lemma_render_select_frame(select: SelectView)
    ensures
        render_select(select).len() >= 8,
        render_select(select).subrange(0, 7) == "select "@,
        render_select(select).last() == ';',
{
    reveal_strlit("select ");
    reveal_strlit(";");
    assert(render_select(select).subrange(0, 7) =~= "select "@);
}

/// A node of the syntax tree renders to query text.
pub trait Node {
    /// The text of the node.
    spec fn rendering(&self) -> Seq<char>;

    /// Renders the node.
    fn to_string(&self) -> (text: String)
        ensures
            text@ == self.rendering(),
    ;
}

impl NumberExpr {
    /// The number literal that `input` denotes.
    pub fn new(input: String) -> (number: NumberExpr)
        requires
            is_number_text(input@),
        ensures
            number@ == number_of_text(input@),
    {
        let number_type = if contains_dot(input.as_str()) {
            NumberType::Double
        } else {
            NumberType::Int
        };
        NumberExpr { number_type, text: canonical_text(input.as_str()) }
    }

    /// The whole number `i`.
    pub fn new_int(i: i32) -> (number: NumberExpr)
        ensures
            number@ == (NumberView {
                number_type: NumberType::Int,
                text: decimal_text(i as int),
            }),
    {
        NumberExpr { number_type: NumberType::Int, text: decimal_string(i) }
    }
}

impl Node for NumberExpr {
    open spec fn rendering(&self) -> Seq<char> {
        self.text@
    }

    fn to_string(&self) -> (text: String) {
        self.text.clone()
    }
}

impl Node for Expression {
    open spec fn rendering(&self) -> Seq<char> {
        render_expression(self@)
    }

    fn to_string(&self) -> (text: String) {
        match self {
            Expression::Number(number) => number.to_string(),
            Expression::Wildcard => "*".to_owned(),
            Expression::Column(name) => name.clone(),
        }
    }
}

impl SelectStatement {
    /// A statement that selects nothing yet.
    pub fn new() -> (select: SelectStatement)
        ensures
            select@ == (SelectView {
                selection: Seq::empty(),
                from: None,
                joins: Seq::empty(),
                group_by: Seq::empty(),
                order_by: Seq::empty(),
            }),
    {
        let select = SelectStatement {
            selection: Vec::new(),
            from: None,
            joins: Vec::new(),
            group_by: Vec::new(),
            order_by: Vec::new(),
        };
        assert(select@.selection =~= Seq::empty());
        assert(select@.joins =~= Seq::empty());
        assert(select@.group_by =~= Seq::empty());
        assert(select@.order_by =~= Seq::empty());
        select
    }
}

impl Node for SelectStatement {
    open spec fn rendering(&self) -> Seq<char> {
        render_select(self@)
    }

    fn to_string(&self) -> (text: String) {
        let mut text = "select ".to_owned();
        let mut i: usize = 0;
        while i < self.selection.len()
            invariant
                i <= self.selection@.len(),
                text@ == "select "@ + render_list(self@.selection.take(i as int)),
            decreases self.selection@.len() - i,
        {
            let ghost before = self@.selection.take(i as int);
            let ghost after = self@.selection.take(i + 1);
            proof {
                assert(after.drop_last() =~= before);
                assert(after.last() == self.selection@[i as int]@);
            }
            if i > 0 {
                text.append(", ");
            }
            let piece = self.selection[i].to_string();
            text.append(piece.as_str());
            assert(text@ =~= "select "@ + render_list(after));
            i += 1;
        }
        proof {
            assert(self@.selection.take(i as int) =~= self@.selection);
        }
        match &self.from {
            Some(from) => {
                let piece = from.to_string();
                text.append(" from ");
                text.append(piece.as_str());
                text.append(";");
                assert(text@ =~= render_select(self@));
            },
            None => {
                text.append(";");
                assert(text@ =~= render_select(self@));
            },
        }
        text
    }
}

impl Node for Statement {
    open spec fn rendering(&self) -> Seq<char> {
        render_statement(self@)
    }

    fn to_string(&self) -> (text: String) {
        match self {
            Statement::Select(select) => select.to_string(),
        }
    }
}

} // verus!
