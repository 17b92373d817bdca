//! Query planning: from a statement to the plan the executor runs.
use vstd::prelude::*;
use crate::ast::{
    assignments_view, column_defs_view, opt_expr_view, values_view, ColumnDef, ColumnDefV, DataType,
    Expr, ExprV, Statement, StatementV,
};
use crate::catalog::columns_view;
use crate::error::Error;
use crate::text::text;
use crate::value::{Value, ValueV};

verus! {

/// A logical plan.
pub enum LogicalPlan {
    CreateTable { name: String, columns: Vec<(String, String)> },
    DropTable { name: String },
    Insert { table: String, values: Vec<Value> },
    Scan { table: String, filter: Option<Expr> },
    Update { table: String, assignments: Vec<(String, Value)>, filter: Option<Expr> },
    Delete { table: String, filter: Option<Expr> },
    Project { input: Box<LogicalPlan> },
    Filter { input: Box<LogicalPlan>, predicate: Expr },
    /// Rows from `offset` on, at most `limit` of them (`0` means no limit).
    Limit { input: Box<LogicalPlan>, limit: u64, offset: u64 },
    OrderBy { input: Box<LogicalPlan>, column: String, desc: bool },
}

/// The model of a logical plan.
pub enum LogicalPlanV {
    CreateTable { name: Seq<char>, columns: Seq<(Seq<char>, Seq<char>)> },
    DropTable { name: Seq<char> },
    Insert { table: Seq<char>, values: Seq<ValueV> },
    Scan { table: Seq<char>, filter: Option<ExprV> },
    Update { table: Seq<char>, assignments: Seq<(Seq<char>, ValueV)>, filter: Option<ExprV> },
    Delete { table: Seq<char>, filter: Option<ExprV> },
    Project { input: Box<LogicalPlanV> },
    Filter { input: Box<LogicalPlanV>, predicate: ExprV },
    Limit { input: Box<LogicalPlanV>, limit: u64, offset: u64 },
    OrderBy { input: Box<LogicalPlanV>, column: Seq<char>, desc: bool },
}

pub open spec fn logical_view(p: LogicalPlan) -> LogicalPlanV
    decreases p,
{
    match p {
        LogicalPlan::CreateTable { name, columns } => LogicalPlanV::CreateTable {
            name: name@,
            columns: columns_view(columns@),
        },
        LogicalPlan::DropTable { name } => LogicalPlanV::DropTable { name: name@ },
        LogicalPlan::Insert { table, values } => LogicalPlanV::Insert { table: table@, values: values_view(values@) },
        LogicalPlan::Scan { table, filter } => LogicalPlanV::Scan { table: table@, filter: opt_expr_view(filter) },
        LogicalPlan::Update { table, assignments, filter } => LogicalPlanV::Update {
            table: table@,
            assignments: assignments_view(assignments@),
            filter: opt_expr_view(filter),
        },
        LogicalPlan::Delete { table, filter } => LogicalPlanV::Delete { table: table@, filter: opt_expr_view(filter) },
        LogicalPlan::Project { input } => LogicalPlanV::Project { input: Box::new(logical_view(*input)) },
        LogicalPlan::Filter { input, predicate } => LogicalPlanV::Filter {
            input: Box::new(logical_view(*input)),
            predicate: predicate@,
        },
        LogicalPlan::Limit { input, limit, offset } => LogicalPlanV::Limit {
            input: Box::new(logical_view(*input)),
            limit,
            offset,
        },
        LogicalPlan::OrderBy { input, column, desc } => LogicalPlanV::OrderBy {
            input: Box::new(logical_view(*input)),
            column: column@,
            desc,
        },
    }
}

impl View for LogicalPlan {
    type V = LogicalPlanV;

    open spec fn view(&self) -> LogicalPlanV {
        logical_view(*self)
    }
}

/// A physical plan: what the executor runs.
pub enum PhysicalPlan {
    CreateTable { name: String, columns: Vec<(String, String)> },
    DropTable { name: String },
    Insert { table: String, values: Vec<Value> },
    Project { input: Box<LogicalPlan> },
    Update { table: String, assignments: Vec<(String, Value)>, filter: Option<Expr> },
    Delete { table: String, filter: Option<Expr> },
}

/// The model of a physical plan.
pub enum PhysicalPlanV {
    CreateTable { name: Seq<char>, columns: Seq<(Seq<char>, Seq<char>)> },
    DropTable { name: Seq<char> },
    Insert { table: Seq<char>, values: Seq<ValueV> },
    Project { input: LogicalPlanV },
    Update { table: Seq<char>, assignments: Seq<(Seq<char>, ValueV)>, filter: Option<ExprV> },
    Delete { table: Seq<char>, filter: Option<ExprV> },
}

impl View for PhysicalPlan {
    type V = PhysicalPlanV;

    open spec fn view(&self) -> PhysicalPlanV {
        match self {
            PhysicalPlan::CreateTable { name, columns } => PhysicalPlanV::CreateTable {
                name: name@,
                columns: columns_view(columns@),
            },
            PhysicalPlan::DropTable { name } => PhysicalPlanV::DropTable { name: name@ },
            PhysicalPlan::Insert { table, values } => PhysicalPlanV::Insert {
                table: table@,
                values: values_view(values@),
            },
            PhysicalPlan::Project { input } => PhysicalPlanV::Project { input: logical_view(**input) },
            PhysicalPlan::Update { table, assignments, filter } => PhysicalPlanV::Update {
                table: table@,
                assignments: assignments_view(assignments@),
                filter: opt_expr_view(*filter),
            },
            PhysicalPlan::Delete { table, filter } => PhysicalPlanV::Delete {
                table: table@,
                filter: opt_expr_view(*filter),
            },
        }
    }
}

/// The name under which a column type is recorded.
pub open spec fn data_type_name(d: DataType) -> Seq<char> {
    match d {
        DataType::Int => "Int"@,
        DataType::Float => "Float"@,
        DataType::Text => "Text"@,
        DataType::Bool => "Bool"@,
    }
}

/// The (name, type name) pairs of column definitions.
pub open spec fn column_pairs(cs: Seq<ColumnDefV>) -> Seq<(Seq<char>, Seq<char>)> {
    cs.map_values(|c: ColumnDefV| (c.name, data_type_name(c.data_type)))
}

/// The plan of a `SELECT`: a scan with the filter, sorted if asked, cut if asked.
pub open spec fn select_plan(
    table: Seq<char>,
    filter: Option<ExprV>,
    limit: Option<u64>,
    offset: Option<u64>,
    order_by: Option<(Seq<char>, bool)>,
) -> LogicalPlanV {
    let scan = LogicalPlanV::Scan { table, filter };
    let sorted = match order_by {
        Some((c, d)) => LogicalPlanV::OrderBy { input: Box::new(scan), column: c, desc: d },
        None => scan,
    };
    if limit is Some || offset is Some {
        LogicalPlanV::Limit {
            input: Box::new(sorted),
            limit: match limit { Some(l) => l, None => 0 },
            offset: match offset { Some(o) => o, None => 0 },
        }
    } else {
        sorted
    }
}

/// The plan of a statement.
pub open spec fn plan_of(s: StatementV) -> PhysicalPlanV {
    match s {
        StatementV::CreateTable { name, columns } => PhysicalPlanV::CreateTable {
            name,
            columns: column_pairs(columns),
        },
        StatementV::DropTable { name } => PhysicalPlanV::DropTable { name },
        StatementV::Insert { table, values } => PhysicalPlanV::Insert { table, values },
        StatementV::Select { table, where_clause, limit, offset, order_by } => PhysicalPlanV::Project {
            input: select_plan(table, where_clause, limit, offset, order_by),
        },
        StatementV::Update { table, assignments, where_clause } => PhysicalPlanV::Update {
            table,
            assignments,
            filter: where_clause,
        },
        StatementV::Delete { table, where_clause } => PhysicalPlanV::Delete { table, filter: where_clause },
    }
}

fn type_text(d: DataType) -> (s: String)
    ensures
        s@ == data_type_name(d),
{
    match d {
        DataType::Int => text("Int"),
        DataType::Float => text("Float"),
        DataType::Text => text("Text"),
        DataType::Bool => text("Bool"),
    }
}

fn column_pairs_of(cs: Vec<ColumnDef>) -> (out: Vec<(String, String)>)
    ensures
        columns_view(out@) == column_pairs(column_defs_view(cs@)),
{
    let ghost cv = column_defs_view(cs@);
    let mut out: Vec<(String, String)> = Vec::new();
    let mut cs = cs;
    let mut i: usize = 0;
    while i < cs.len()
        invariant
            0 <= i <= cs@.len(),
            cv == column_defs_view(cs@),
            out@.len() == i,
            forall|j: int| 0 <= j < i ==> ((#[trigger] out@[j]).0@, out@[j].1@) == column_pairs(cv)[j],
        decreases cs@.len() - i,
    {
        let name = cs[i].name.clone();
        let t = type_text(cs[i].data_type);
        out.push((name, t));
        i = i + 1;
    }
    assert(columns_view(out@) =~= column_pairs(cv));
    out
}

/// Turns statements into plans.
pub struct Planner;

impl Planner {
    /// A planner.
    pub fn new() -> (p: Self) {
        Planner
    }

    /// The plan of a statement; planning does not fail.
    pub fn plan(&self, stmt: Statement) -> (r: Result<PhysicalPlan, Error>)
        ensures
            r matches Ok(p) && p@ == plan_of(stmt@),
    {
        let ghost sv = stmt@;
        match stmt {
            Statement::CreateTable { name, columns } => {
                let cols = column_pairs_of(columns);
                Ok(PhysicalPlan::CreateTable { name, columns: cols })
            },
            Statement::DropTable { name } => Ok(PhysicalPlan::DropTable { name }),
            Statement::Insert { table, values } => Ok(PhysicalPlan::Insert { table, values }),
            Statement::Select { table, where_clause, limit, offset, order_by } => {
                let ghost scan_v = LogicalPlanV::Scan { table: table@, filter: opt_expr_view(where_clause) };
                let ghost want = select_plan(
                    table@,
                    opt_expr_view(where_clause),
                    limit,
                    offset,
                    crate::parser::order_view(order_by),
                );
                let mut plan = LogicalPlan::Scan { table, filter: where_clause };
                assert(plan@ == scan_v);
                let ghost sorted_v = match crate::parser::order_view(order_by) {
                    Some((c, d)) => LogicalPlanV::OrderBy { input: Box::new(scan_v), column: c, desc: d },
                    None => scan_v,
                };
                match order_by {
                    Some((col, desc)) => {
                        plan = LogicalPlan::OrderBy { input: Box::new(plan), column: col, desc };
                    },
                    None => {},
                }
                assert(plan@ == sorted_v);
                if limit.is_some() || offset.is_some() {
                    let l: u64 = match limit { Some(l) => l, None => 0 };
                    let o: u64 = match offset { Some(o) => o, None => 0 };
                    plan = LogicalPlan::Limit { input: Box::new(plan), limit: l, offset: o };
                }
                assert(plan@ == want);
                let p = PhysicalPlan::Project { input: Box::new(plan) };
                Ok(p)
            },
            Statement::Update { table, assignments, where_clause } => Ok(PhysicalPlan::Update {
                table,
                assignments,
                filter: where_clause,
            }),
            Statement::Delete { table, where_clause } => Ok(PhysicalPlan::Delete {
                table,
                filter: where_clause,
            }),
        }
    }
}

impl Default for Planner {
    fn default() -> (p: Self) {
        Planner::new()
    }
}

} // verus!
