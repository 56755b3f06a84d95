//! The parts of a parsed SQL statement that planning reads.
//!
//! Expression forms that planning does not translate are kept as variants
//! without payload, so that a plan can tell them apart from the forms it
//! handles.
use vstd::prelude::*;

verus! {

/// Binary operators.
#[derive(Clone, Copy, Debug, PartialEq, Eq, Structural)]
pub enum Operator {
    Add,
    And,
    ArrowRight,
    ArrowRightShift,
    BitwiseAnd,
    BitwiseOr,
    Concat,
    Equals,
    Divide,
    Greater,
    GreaterEquals,
    Is,
    IsNot,
    LeftShift,
    Less,
    LessEquals,
    Modulus,
    Multiply,
    NotEquals,
    Or,
    RightShift,
    Subtract,
}

/// Unary operators.
#[derive(Clone, Copy, Debug, PartialEq, Eq, Structural)]
pub enum UnaryOperator {
    BitwiseNot,
    Negative,
    Not,
    Positive,
}

/// Literal values, each carrying its text as written.
#[derive(Clone, Debug, PartialEq, Eq)]
pub enum Literal {
    /// A numeric literal, such as `42` or `1.5e3`.
    Numeric(String),
    /// A string literal including its surrounding quotes, such as `'abc'`.
    String(String),
    /// A blob literal.
    Blob(String),
    /// A keyword used as a literal.
    Keyword(String),
    Null,
    CurrentDate,
    CurrentTime,
    CurrentTimestamp,
}

/// SQL expressions.
#[derive(Debug)]
pub enum Expr {
    Between,
    Binary(Box<Expr>, Operator, Box<Expr>),
    Case,
    Cast,
    Collate,
    DoublyQualified,
    Exists,
    /// A call of a function by name; `args` is `None` when the call has no
    /// argument list at all.
    FunctionCall { name: String, args: Option<Vec<Expr>> },
    /// A call with `*` as its argument, such as `count(*)`.
    FunctionCallStar { name: String },
    /// An unqualified column name.
    Id(String),
    InList,
    InSelect,
    InTable,
    IsNull,
    Like,
    Literal(Literal),
    Name,
    NotNull,
    Parenthesized,
    /// A column name qualified by a table name or alias: `table.column`.
    Qualified(String, String),
    Raise,
    Subquery,
    Unary(UnaryOperator, Box<Expr>),
    Variable,
}

/// An alias, written with or without `AS`.
#[derive(Clone, Debug, PartialEq, Eq)]
pub enum As {
    As(String),
    Elided(String),
}

impl As {
    pub open spec fn spec_name(self) -> String {
        match self {
            As::As(n) => n,
            As::Elided(n) => n,
        }
    }

    /// The alias name, however it was written.
    pub fn name(&self) -> (res: &String)
        ensures
            *res == self.spec_name(),
    {
        match self {
            As::As(n) => n,
            As::Elided(n) => n,
        }
    }
}

/// One column of a `SELECT` list.
#[derive(Debug)]
pub enum ResultColumn {
    Expr(Expr, Option<As>),
    Star,
    TableStar(String),
}

/// A table reference in a `FROM` clause.
#[derive(Clone, Debug, PartialEq, Eq)]
pub enum SelectTable {
    /// A named table with an optional alias.
    Table(String, Option<As>),
    TableCall,
    Select,
    Sub,
}

/// The constraint of a join.
#[derive(Debug)]
pub enum JoinConstraint {
    On(Expr),
    Using(Vec<String>),
}

/// A table joined to the ones before it.
#[derive(Debug)]
pub struct JoinedSelectTable {
    pub table: SelectTable,
    pub constraint: Option<JoinConstraint>,
}

/// A `FROM` clause: a first table and the tables joined to it.
#[derive(Debug)]
pub struct FromClause {
    pub select: Option<SelectTable>,
    pub joins: Option<Vec<JoinedSelectTable>>,
}

/// The core of a `SELECT`.
#[derive(Debug)]
pub enum OneSelect {
    Select { columns: Vec<ResultColumn>, from: Option<FromClause>, where_clause: Option<Expr> },
    Values,
}

#[derive(Debug)]
pub struct SelectBody {
    pub select: OneSelect,
}

/// `LIMIT` with an optional `OFFSET`.
#[derive(Debug)]
pub struct Limit {
    pub expr: Expr,
    pub offset: Option<Expr>,
}

/// A `SELECT` statement.
#[derive(Debug)]
pub struct Select {
    pub body: SelectBody,
    pub limit: Option<Limit>,
}

} // verus!
