//! The syntax tree of statements.
use vstd::prelude::*;
use crate::value::{Val, Value, ValueV};

verus! {

/// Binary operators of filter expressions.
#[derive(Debug, Clone, Copy, PartialEq, Eq, Structural)]
pub enum BinOp {
    Eq,
    Ne,
    Lt,
    Le,
    Gt,
    Ge,
    And,
    Or,
}

/// An expression, generic over the representation of text.
#[derive(Debug, PartialEq)]
pub enum ExprOf<S> {
    Literal(Val<S>),
    Column(S),
    Binary { left: Box<ExprOf<S>>, op: BinOp, right: Box<ExprOf<S>> },
}

pub type Expr = ExprOf<String>;

/// The model of an expression.
pub type ExprV = ExprOf<Seq<char>>;

pub open spec fn expr_view(e: Expr) -> ExprV
    decreases e,
{
    match e {
        ExprOf::Literal(v) => ExprOf::Literal(v@),
        ExprOf::Column(c) => ExprOf::Column(c@),
        ExprOf::Binary { left, op, right } => ExprOf::Binary {
            left: Box::new(expr_view(*left)),
            op,
            right: Box::new(expr_view(*right)),
        },
    }
}

impl View for ExprOf<String> {
    type V = ExprV;

    open spec fn view(&self) -> ExprV {
        expr_view(*self)
    }
}

pub open spec fn opt_expr_view(e: Option<Expr>) -> Option<ExprV> {
    match e {
        Some(x) => Some(x@),
        None => None,
    }
}

/// Column types.
#[derive(Debug, Clone, Copy, PartialEq, Eq, Structural)]
pub enum DataType {
    Int,
    Float,
    Text,
    Bool,
}

/// A column definition of `CREATE TABLE`.
#[derive(Debug, Clone, PartialEq)]
pub struct ColumnDefOf<S> {
    pub name: S,
    pub data_type: DataType,
}

pub type ColumnDef = ColumnDefOf<String>;

pub type ColumnDefV = ColumnDefOf<Seq<char>>;

/// A parsed statement.
#[derive(Debug, PartialEq)]
pub enum Statement {
    CreateTable { name: String, columns: Vec<ColumnDef> },
    DropTable { name: String },
    Insert { table: String, values: Vec<Value> },
    Select {
        table: String,
        where_clause: Option<Expr>,
        limit: Option<u64>,
        offset: Option<u64>,
        /// The sort column and whether the order is descending.
        order_by: Option<(String, bool)>,
    },
    Update { table: String, assignments: Vec<(String, Value)>, where_clause: Option<Expr> },
    Delete { table: String, where_clause: Option<Expr> },
}

/// The model of a statement.
pub enum StatementV {
    CreateTable { name: Seq<char>, columns: Seq<ColumnDefV> },
    DropTable { name: Seq<char> },
    Insert { table: Seq<char>, values: Seq<ValueV> },
    Select {
        table: Seq<char>,
        where_clause: Option<ExprV>,
        limit: Option<u64>,
        offset: Option<u64>,
        order_by: Option<(Seq<char>, bool)>,
    },
    Update { table: Seq<char>, assignments: Seq<(Seq<char>, ValueV)>, where_clause: Option<ExprV> },
    Delete { table: Seq<char>, where_clause: Option<ExprV> },
}

pub open spec fn column_defs_view(cs: Seq<ColumnDef>) -> Seq<ColumnDefV> {
    cs.map_values(|c: ColumnDef| ColumnDefOf { name: c.name@, data_type: c.data_type })
}

pub open spec fn values_view(vs: Seq<Value>) -> Seq<ValueV> {
    vs.map_values(|v: Value| v@)
}

pub open spec fn assignments_view(a: Seq<(String, Value)>) -> Seq<(Seq<char>, ValueV)> {
    a.map_values(|p: (String, Value)| (p.0@, p.1@))
}

impl View for Statement {
    type V = StatementV;

    open spec fn view(&self) -> StatementV {
        match self {
            Statement::CreateTable { name, columns } => StatementV::CreateTable {
                name: name@,
                columns: column_defs_view(columns@),
            },
            Statement::DropTable { name } => StatementV::DropTable { name: name@ },
            Statement::Insert { table, values } => StatementV::Insert {
                table: table@,
                values: values_view(values@),
            },
            Statement::Select { table, where_clause, limit, offset, order_by } => StatementV::Select {
                table: table@,
                where_clause: opt_expr_view(*where_clause),
                limit: *limit,
                offset: *offset,
                order_by: match order_by {
                    Some((c, d)) => Some((c@, *d)),
                    None => None,
                },
            },
            Statement::Update { table, assignments, where_clause } => StatementV::Update {
                table: table@,
                assignments: assignments_view(assignments@),
                where_clause: opt_expr_view(*where_clause),
            },
            Statement::Delete { table, where_clause } => StatementV::Delete {
                table: table@,
                where_clause: opt_expr_view(*where_clause),
            },
        }
    }
}

} // verus!
