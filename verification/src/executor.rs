//! The executor: runs plans against a store and the catalog.
use vstd::prelude::*;
use crate::ast::{BinOp, Expr, ExprOf, ExprV};
use crate::bytes::{flip, Order};
use crate::engine::{
    cell, compare_holds, literal_holds, name_ok, column_index, operand_ok, operand_value,
};
use crate::catalog::{copy_columns, Catalog};
use crate::engine::{
    exists_msg, matching_rows, not_found_msg, update_ok, update_rows, StorageEngine,
};
use crate::error::{Error, ErrorV};
use crate::planner::{LogicalPlan, LogicalPlanV, PhysicalPlan, PhysicalPlanV};
use crate::text::text;
use crate::value::{compare_values, copy_value, row_view, rows_view, value_order, Val, Value, ValueV};

verus! {

// ---------------------------------------------------------------------------
// Predicates of `WHERE` and of filter nodes

/// Whether a row satisfies a predicate: a literal by its truth, a bare column
/// always, a comparison by comparing its operands; `AND` and `OR` hold of no row.
pub open spec fn expr_true(e: ExprV, row: Seq<ValueV>) -> bool {
    match e {
        ExprOf::Literal(v) => literal_holds(v),
        ExprOf::Column(_) => true,
        ExprOf::Binary { left, op, right } => compare_holds(op, operand_value(*left, row), operand_value(*right, row)),
    }
}

/// The rows that satisfy the predicate, in order.
pub open spec fn select_rows(rows: Seq<Seq<ValueV>>, e: ExprV) -> Seq<Seq<ValueV>> {
    rows.filter(|r: Seq<ValueV>| expr_true(e, r))
}

/// What a comparison in a `SELECT`'s `WHERE` means, in terms of the values
/// of its two operands: `=` and `<>` test equality, `<` holds when the left
/// value comes first, `>` when the right one does (so never on equal
/// values), and `<=`, `>=` add equality.
pub proof fn law_where_comparisons(l: ExprV, r: ExprV, row: Seq<ValueV>)
    ensures
        ({
            let lv = crate::engine::operand_value(l, row);
            let rv = crate::engine::operand_value(r, row);
            &&& expr_true(crate::engine::comparison(l, BinOp::Eq, r), row) <==> lv == rv
            &&& expr_true(crate::engine::comparison(l, BinOp::Ne, r), row) <==> lv != rv
            &&& expr_true(crate::engine::comparison(l, BinOp::Lt, r), row) <==> value_order(lv, rv) == Order::Less
            &&& expr_true(crate::engine::comparison(l, BinOp::Gt, r), row) <==> value_order(rv, lv) == Order::Less
            &&& expr_true(crate::engine::comparison(l, BinOp::Le, r), row) <==> (value_order(lv, rv) == Order::Less || lv == rv)
            &&& expr_true(crate::engine::comparison(l, BinOp::Ge, r), row) <==> (value_order(rv, lv) == Order::Less || lv == rv)
            &&& expr_true(crate::engine::comparison(l, BinOp::Gt, r), row) <==> expr_true(crate::engine::comparison(r, BinOp::Lt, l), row)
        }),
{
    let lv = crate::engine::operand_value(l, row);
    let rv = crate::engine::operand_value(r, row);
    crate::value::lemma_value_order_equal(lv, rv);
    crate::value::lemma_value_order_equal(rv, lv);
    crate::value::lemma_value_order_flip(lv, rv);
}

/// On integer operands a `WHERE` comparison is the comparison of the numbers:
/// `c > 25` holds of a row whose `c` is 30 and not of one whose `c` is 25.
pub proof fn law_where_integer_comparisons(l: ExprV, r: ExprV, row: Seq<ValueV>, x: i64, y: i64)
    requires
        crate::engine::operand_value(l, row) == Val::<Seq<char>>::Int(x),
        crate::engine::operand_value(r, row) == Val::<Seq<char>>::Int(y),
    ensures
        expr_true(crate::engine::comparison(l, BinOp::Eq, r), row) <==> x == y,
        expr_true(crate::engine::comparison(l, BinOp::Ne, r), row) <==> x != y,
        expr_true(crate::engine::comparison(l, BinOp::Lt, r), row) <==> x < y,
        expr_true(crate::engine::comparison(l, BinOp::Le, r), row) <==> x <= y,
        expr_true(crate::engine::comparison(l, BinOp::Gt, r), row) <==> x > y,
        expr_true(crate::engine::comparison(l, BinOp::Ge, r), row) <==> x >= y,
{
    law_where_comparisons(l, r, row);
    crate::value::law_int_order(x, y);
    crate::value::law_int_order(y, x);
}

/// The columns a predicate looks up have valid names.
pub open spec fn pred_names_ok(e: ExprV) -> bool {
    match e {
        ExprOf::Binary { left, op: _, right } => operand_ok(*left) && operand_ok(*right),
        _ => true,
    }
}

// ---------------------------------------------------------------------------
// Sorting and windows

/// The value a row is sorted by: its cell at the column, `NULL` when missing.
pub open spec fn sort_key(row: Seq<ValueV>, ci: int) -> ValueV {
    match cell(row, ci) {
        Some(v) => v,
        None => Val::Null,
    }
}

/// The order of two rows by the column, reversed when descending.
pub open spec fn row_order(a: Seq<ValueV>, b: Seq<ValueV>, ci: int, desc: bool) -> Order {
    let o = value_order(sort_key(a, ci), sort_key(b, ci));
    if desc { flip(o) } else { o }
}

/// The position of the first row of `s` that comes strictly after `x`.
pub open spec fn first_after(s: Seq<Seq<ValueV>>, x: Seq<ValueV>, ci: int, desc: bool) -> int
    decreases s.len(),
{
    if s.len() == 0 {
        0
    } else if row_order(s[0], x, ci, desc) == Order::Greater {
        0
    } else {
        1 + first_after(s.drop_first(), x, ci, desc)
    }
}

/// The rows stably sorted by the column: each row, in input order, goes after
/// every row already placed that does not come after it.
pub open spec fn sort_rows(rows: Seq<Seq<ValueV>>, ci: int, desc: bool) -> Seq<Seq<ValueV>>
    decreases rows.len(),
{
    if rows.len() == 0 {
        rows
    } else {
        let s = sort_rows(rows.drop_last(), ci, desc);
        s.insert(first_after(s, rows.last(), ci, desc), rows.last())
    }
}

/// The rows are in order by the column: no row comes after a later one.
pub open spec fn sorted_by(s: Seq<Seq<ValueV>>, ci: int, desc: bool) -> bool {
    forall|i: int, j: int| 0 <= i < j < s.len() ==> row_order(#[trigger] s[i], #[trigger] s[j], ci, desc) != Order::Greater
}

/// The test for rows whose sort value is `k`.
pub open spec fn key_is(ci: int, k: ValueV) -> spec_fn(Seq<ValueV>) -> bool {
    |r: Seq<ValueV>| sort_key(r, ci) == k
}

/// The rows whose sort value is `k`, in their order.
pub open spec fn with_key(s: Seq<Seq<ValueV>>, ci: int, k: ValueV) -> Seq<Seq<ValueV>> {
    s.filter(key_is(ci, k))
}

/// The rows from `offset` on, at most `limit` of them; a `limit` of `0` keeps all.
pub open spec fn window(rows: Seq<Seq<ValueV>>, limit: u64, offset: u64) -> Seq<Seq<ValueV>> {
    let len = rows.len() as int;
    let start = if offset < len { offset as int } else { len };
    let end = if limit == 0 || start + limit >= len { len } else { start + limit };
    rows.subrange(start, end)
}

// ---------------------------------------------------------------------------
// Row-level executable pieces

fn cell_value(row: &Vec<Value>, i: usize) -> (v: Value)
    ensures
        v@ == sort_key(row_view(row@), i as int),
{
    if i < row.len() { copy_value(&row[i]) } else { Val::Null }
}

/// Whether the operands of a predicate look columns up only through valid names.
pub fn pred_ok_exec(e: &Expr) -> (b: bool)
    ensures
        b == pred_names_ok(e@),
{
    match e {
        ExprOf::Binary { left, op, right } => {
            proof {
                assert(e@ == ExprOf::Binary { left: Box::new((**left)@), op: *op, right: Box::new((**right)@) });
            }
            let l = match &**left {
                ExprOf::Column(n) => crate::engine::is_name_ok(n.as_str()),
                _ => true,
            };
            let r = match &**right {
                ExprOf::Column(n) => crate::engine::is_name_ok(n.as_str()),
                _ => true,
            };
            l && r
        },
        _ => true,
    }
}

/// The value of an operand in a row.
fn eval_scalar(expr: &Expr, row: &Vec<Value>) -> (v: Value)
    requires
        operand_ok(expr@),
    ensures
        v@ == operand_value(expr@, row_view(row@)),
{
    match expr {
        ExprOf::Literal(v) => copy_value(v),
        ExprOf::Column(name) => cell_value(row, crate::engine::letter_index(name.as_str())),
        ExprOf::Binary { .. } => Val::Null,
    }
}

/// Whether a row satisfies a predicate.
fn eval_expr(expr: &Expr, row: &Vec<Value>) -> (b: bool)
    requires
        pred_names_ok(expr@),
    ensures
        b == expr_true(expr@, row_view(row@)),
{
    match expr {
        ExprOf::Literal(v) => match v {
            Val::Bool(b) => *b,
            Val::Int(i) => *i != 0,
            _ => true,
        },
        ExprOf::Column(_) => true,
        ExprOf::Binary { left, op, right } => {
            let l = eval_scalar(left, row);
            let r = eval_scalar(right, row);
            let o = compare_values(&l, &r);
            match op {
                BinOp::Eq => o == Order::Equal,
                BinOp::Ne => o != Order::Equal,
                BinOp::Lt => o == Order::Less,
                BinOp::Le => o != Order::Greater,
                BinOp::Gt => o == Order::Greater,
                BinOp::Ge => o != Order::Less,
                _ => false,
            }
        },
    }
}

/// The rows that satisfy the predicate, in order.
fn filter_rows(rows: Vec<Vec<Value>>, pred: &Expr) -> (out: Vec<Vec<Value>>)
    requires
        rows@.len() > 0 ==> pred_names_ok(pred@),
    ensures
        rows_view(out@) == select_rows(rows_view(rows@), pred@),
{
    let ghost start = rows_view(rows@);
    let mut rows = rows;
    let mut out: Vec<Vec<Value>> = Vec::new();
    let mut i: usize = 0;
    while i < rows.len()
        invariant
            0 <= i <= rows@.len(),
            rows@.len() == start.len(),
            rows@.len() > 0 ==> pred_names_ok(pred@),
            forall|j: int| i <= j < rows@.len() ==> row_view((#[trigger] rows@[j])@) == start[j],
            rows_view(out@) == select_rows(start.take(i as int), pred@),
        decreases rows@.len() - i,
    {
        assert(start.take(i + 1).drop_last() =~= start.take(i as int));
        assert(start.take(i + 1).last() == start[i as int]);
        proof {
            reveal_with_fuel(Seq::filter, 1);
        }
        assert(select_rows(start.take(i + 1), pred@) == (if expr_true(pred@, start[i as int]) {
            select_rows(start.take(i as int), pred@).push(start[i as int])
        } else {
            select_rows(start.take(i as int), pred@)
        }));
        let ghost before = rows@;
        if eval_expr(pred, &rows[i]) {
            let mut row: Vec<Value> = Vec::new();
            std::mem::swap(&mut row, &mut rows[i]);
            let ghost prev = out@;
            out.push(row);
            assert(rows_view(out@) =~= rows_view(prev).push(start[i as int]));
        }
        assert forall|j: int| i < j < rows@.len() implies rows@[j] == before[j] by {}
        i = i + 1;
    }
    assert(start.take(start.len() as int) =~= start);
    out
}

/// The rows from `offset` on, at most `limit` of them (`0` keeps all).
fn window_rows(rows: Vec<Vec<Value>>, limit: u64, offset: u64) -> (out: Vec<Vec<Value>>)
    ensures
        rows_view(out@) == window(rows_view(rows@), limit, offset),
{
    let ghost rv = rows_view(rows@);
    let len = rows.len();
    let start: usize = if offset < len as u64 { offset as usize } else { len };
    let end: usize = if limit == 0 || limit >= (len - start) as u64 { len } else { start + limit as usize };
    let mut rows = rows;
    rows.truncate(end);
    let out = rows.split_off(start);
    assert(rows_view(out@) =~= rv.subrange(start as int, end as int));
    out
}

/// The order of two rows by a column.
fn compare_rows(a: &Vec<Value>, b: &Vec<Value>, ci: usize, desc: bool) -> (o: Order)
    ensures
        o == row_order(row_view(a@), row_view(b@), ci as int, desc),
{
    let x = cell_value(a, ci);
    let y = cell_value(b, ci);
    let o = compare_values(&x, &y);
    if desc {
        match o {
            Order::Less => Order::Greater,
            Order::Equal => Order::Equal,
            Order::Greater => Order::Less,
        }
    } else {
        o
    }
}

/// Where a row goes in sorted rows: before the first that comes after it.
fn insert_position(s: &Vec<Vec<Value>>, x: &Vec<Value>, ci: usize, desc: bool) -> (p: usize)
    ensures
        p as int == first_after(rows_view(s@), row_view(x@), ci as int, desc),
        p <= s@.len(),
{
    let ghost sv = rows_view(s@);
    let ghost xv = row_view(x@);
    let mut j: usize = 0;
    assert(sv.skip(0) =~= sv);
    while j < s.len()
        invariant
            0 <= j <= s@.len(),
            sv == rows_view(s@),
            xv == row_view(x@),
            first_after(sv, xv, ci as int, desc) == j + first_after(sv.skip(j as int), xv, ci as int, desc),
        decreases s@.len() - j,
    {
        assert(sv.skip(j as int)[0] == sv[j as int]);
        if compare_rows(&s[j], x, ci, desc) == Order::Greater {
            return j;
        }
        assert(sv.skip(j as int).drop_first() =~= sv.skip(j + 1));
        j = j + 1;
    }
    j
}

/// The rows stably sorted by a column.
fn sort_by_column(rows: Vec<Vec<Value>>, ci: usize, desc: bool) -> (out: Vec<Vec<Value>>)
    ensures
        rows_view(out@) == sort_rows(rows_view(rows@), ci as int, desc),
{
    let ghost start = rows_view(rows@);
    let mut rows = rows;
    let mut out: Vec<Vec<Value>> = Vec::new();
    let mut i: usize = 0;
    assert(start.take(0) =~= Seq::<Seq<ValueV>>::empty());
    while i < rows.len()
        invariant
            0 <= i <= rows@.len(),
            rows@.len() == start.len(),
            forall|j: int| i <= j < rows@.len() ==> row_view((#[trigger] rows@[j])@) == start[j],
            rows_view(out@) == sort_rows(start.take(i as int), ci as int, desc),
        decreases rows@.len() - i,
    {
        assert(start.take(i + 1).drop_last() =~= start.take(i as int));
        assert(start.take(i + 1).last() == start[i as int]);
        let ghost before = rows@;
        let mut row: Vec<Value> = Vec::new();
        std::mem::swap(&mut row, &mut rows[i]);
        let p = insert_position(&out, &row, ci, desc);
        let ghost prev = rows_view(out@);
        out.insert(p, row);
        assert(rows_view(out@) =~= prev.insert(p as int, start[i as int]));
        assert forall|j: int| i < j < rows@.len() implies rows@[j] == before[j] by {}
        i = i + 1;
    }
    assert(start.take(start.len() as int) =~= start);
    out
}

// ---------------------------------------------------------------------------
// Plans

/// The tables a store holds.
pub type Tables = Map<Seq<char>, Seq<Seq<ValueV>>>;

/// The columns of each table the catalog records.
pub type CatalogV = Map<Seq<char>, Seq<(Seq<char>, Seq<char>)>>;

pub open spec fn unsupported_msg() -> Seq<char> {
    "unsupported logical plan"@
}

/// The rows a logical plan yields over the tables, or the error it fails with.
pub open spec fn run_logical(t: Tables, p: LogicalPlanV) -> Result<Seq<Seq<ValueV>>, ErrorV>
    decreases p,
{
    match p {
        LogicalPlanV::Scan { table, filter } => if t.contains_key(table) {
            Ok(match filter {
                Some(e) => select_rows(t[table], e),
                None => t[table],
            })
        } else {
            Err(ErrorV::Storage(not_found_msg(table)))
        },
        LogicalPlanV::Project { input } => run_logical(t, *input),
        LogicalPlanV::Filter { input, predicate } => match run_logical(t, *input) {
            Ok(rows) => Ok(select_rows(rows, predicate)),
            Err(e) => Err(e),
        },
        LogicalPlanV::Limit { input, limit, offset } => match run_logical(t, *input) {
            Ok(rows) => Ok(window(rows, limit, offset)),
            Err(e) => Err(e),
        },
        LogicalPlanV::OrderBy { input, column, desc } => match run_logical(t, *input) {
            Ok(rows) => Ok(sort_rows(rows, column_index(column), desc)),
            Err(e) => Err(e),
        },
        _ => Err(ErrorV::Execution(unsupported_msg())),
    }
}

/// The column lookups a logical plan makes over the tables go through valid
/// names: a predicate's operands are looked up only when there is a row to
/// test, the sort column once the rows to sort are ready.
pub open spec fn logical_ok(t: Tables, p: LogicalPlanV) -> bool
    decreases p,
{
    match p {
        LogicalPlanV::Scan { table, filter } => match filter {
            Some(e) => (t.contains_key(table) && t[table].len() > 0) ==> pred_names_ok(e),
            None => true,
        },
        LogicalPlanV::Project { input } => logical_ok(t, *input),
        LogicalPlanV::Filter { input, predicate } => logical_ok(t, *input) && match run_logical(t, *input) {
            Ok(rows) => rows.len() > 0 ==> pred_names_ok(predicate),
            Err(_) => true,
        },
        LogicalPlanV::Limit { input, .. } => logical_ok(t, *input),
        LogicalPlanV::OrderBy { input, column, desc: _ } => logical_ok(t, *input) && (run_logical(t, *input) is Ok
            ==> name_ok(column)),
        _ => true,
    }
}

/// What running a physical plan needs: column lookups through valid names,
/// and an insert that the store can take.
pub open spec fn plan_ok<S: StorageEngine>(s: S, p: PhysicalPlanV) -> bool {
    match p {
        PhysicalPlanV::Insert { table, values } => s.insert_fits(table, values),
        PhysicalPlanV::Update { table, assignments, filter } => s.tables().contains_key(table) ==> update_ok(
            s.tables()[table],
            assignments,
            filter,
        ),
        PhysicalPlanV::Delete { table, filter } => s.tables().contains_key(table) ==> s.delete_ok(table, filter),
        PhysicalPlanV::Project { input } => logical_ok(s.tables(), input),
        _ => true,
    }
}

/// A one-row, one-column result holding a count.
pub open spec fn count_result(n: int) -> Seq<Seq<ValueV>> {
    seq![seq![Val::Int(n as i64)]]
}

/// What running a physical plan does to the store's tables and what it
/// returns, or the error it fails with (the tables then stay as they were).
pub open spec fn physical_effect<S: StorageEngine>(s: S, p: PhysicalPlanV) -> Result<(Tables, Seq<Seq<ValueV>>), ErrorV> {
    let t = s.tables();
    match p {
        PhysicalPlanV::CreateTable { name, columns: _ } => if t.contains_key(name) {
            Err(ErrorV::Storage(exists_msg(name)))
        } else {
            Ok((t.insert(name, Seq::empty()), Seq::empty()))
        },
        PhysicalPlanV::DropTable { name } => if t.contains_key(name) {
            Ok((t.remove(name), Seq::empty()))
        } else {
            Err(ErrorV::Storage(not_found_msg(name)))
        },
        PhysicalPlanV::Insert { table, values } => if t.contains_key(table) {
            Ok((t.insert(table, t[table].push(s.stored_row(table, values))), Seq::empty()))
        } else {
            Err(ErrorV::Storage(not_found_msg(table)))
        },
        PhysicalPlanV::Update { table, assignments, filter } => if t.contains_key(table) {
            Ok((
                t.insert(table, update_rows(t[table], assignments, filter, s.id_is_key())),
                count_result(matching_rows(t[table], filter).len() as int),
            ))
        } else {
            Err(ErrorV::Storage(not_found_msg(table)))
        },
        PhysicalPlanV::Delete { table, filter } => if t.contains_key(table) {
            Ok((
                t.insert(table, s.rows_after_delete(table, filter)),
                count_result(t[table].len() - s.rows_after_delete(table, filter).len()),
            ))
        } else {
            Err(ErrorV::Storage(not_found_msg(table)))
        },
        PhysicalPlanV::Project { input } => match run_logical(t, input) {
            Ok(rows) => Ok((t, rows)),
            Err(e) => Err(e),
        },
    }
}

/// What a physical plan does to the catalog: a created table is recorded
/// with its columns once the store has accepted it; a dropped one is
/// forgotten before the store is asked, so also when the store refuses.
pub open spec fn catalog_effect(c: CatalogV, p: PhysicalPlanV) -> CatalogV {
    match p {
        PhysicalPlanV::CreateTable { name, columns } => c.insert(name, columns),
        PhysicalPlanV::DropTable { name } => c.remove(name),
        _ => c,
    }
}

/// The outcome of running a plan: the store's new tables and the result,
/// both as [`physical_effect`] says.
pub open spec fn outcome_matches(
    effect: Result<(Tables, Seq<Seq<ValueV>>), ErrorV>,
    old_tables: Tables,
    new_tables: Tables,
    r: Result<Vec<Vec<Value>>, Error>,
) -> bool {
    match (effect, r) {
        (Ok((t, rows)), Ok(out)) => new_tables == t && rows_view(out@) == rows,
        (Err(e), Err(x)) => new_tables == old_tables && x@ == e,
        _ => false,
    }
}

// ---------------------------------------------------------------------------
// Laws of queries

proof fn lemma_row_order(a: Seq<ValueV>, b: Seq<ValueV>, c: Seq<ValueV>, ci: int, desc: bool)
    ensures
        row_order(a, b, ci, desc) == flip(row_order(b, a, ci, desc)),
        (row_order(a, b, ci, desc) == Order::Equal) <==> sort_key(a, ci) == sort_key(b, ci),
        row_order(a, a, ci, desc) == Order::Equal,
        row_order(a, b, ci, desc) != Order::Greater && row_order(b, c, ci, desc) != Order::Greater ==> {
            &&& row_order(a, c, ci, desc) != Order::Greater
            &&& (row_order(a, b, ci, desc) == Order::Less || row_order(b, c, ci, desc) == Order::Less)
                ==> row_order(a, c, ci, desc) == Order::Less
        },
{
    let (ka, kb, kc) = (sort_key(a, ci), sort_key(b, ci), sort_key(c, ci));
    crate::value::lemma_value_order_flip(ka, kb);
    crate::value::lemma_value_order_equal(ka, kb);
    crate::value::lemma_value_order_equal(ka, ka);
    if row_order(a, b, ci, desc) != Order::Greater && row_order(b, c, ci, desc) != Order::Greater {
        if desc {
            crate::value::lemma_value_order_flip(kb, kc);
            crate::value::lemma_value_order_flip(ka, kc);
            crate::value::lemma_value_order_trans(kc, kb, ka);
        } else {
            crate::value::lemma_value_order_trans(ka, kb, kc);
        }
    }
}

proof fn lemma_first_after(s: Seq<Seq<ValueV>>, x: Seq<ValueV>, ci: int, desc: bool)
    ensures
        0 <= first_after(s, x, ci, desc) <= s.len(),
        forall|j: int| 0 <= j < first_after(s, x, ci, desc) ==> row_order(#[trigger] s[j], x, ci, desc) != Order::Greater,
        first_after(s, x, ci, desc) < s.len() ==> row_order(s[first_after(s, x, ci, desc)], x, ci, desc) == Order::Greater,
    decreases s.len(),
{
    if s.len() > 0 && row_order(s[0], x, ci, desc) != Order::Greater {
        let t = s.drop_first();
        lemma_first_after(t, x, ci, desc);
        assert forall|j: int| 0 <= j < first_after(s, x, ci, desc) implies row_order(#[trigger] s[j], x, ci, desc) != Order::Greater by {
            if j > 0 {
                assert(s[j] == t[j - 1]);
            }
        }
    }
}

proof fn lemma_filter_none(s: Seq<Seq<ValueV>>, pred: spec_fn(Seq<ValueV>) -> bool)
    requires
        forall|i: int| 0 <= i < s.len() ==> !pred(#[trigger] s[i]),
    ensures
        s.filter(pred) == Seq::<Seq<ValueV>>::empty(),
    decreases s.len(),
{
    reveal_with_fuel(Seq::filter, 1);
    if s.len() > 0 {
        let d = s.drop_last();
        assert forall|i: int| 0 <= i < d.len() implies !pred(#[trigger] d[i]) by {
            assert(d[i] == s[i]);
        }
        lemma_filter_none(d, pred);
        assert(!pred(s[s.len() - 1]));
    } else {
        assert(s.filter(pred) =~= Seq::<Seq<ValueV>>::empty());
    }
}

/// Inserting a row before the first that comes after it keeps sorted rows sorted,
/// and every row from that point on comes strictly after it.
#[verifier::rlimit(40)]
proof fn lemma_insert_sorted(s: Seq<Seq<ValueV>>, x: Seq<ValueV>, ci: int, desc: bool)
    requires
        sorted_by(s, ci, desc),
    ensures
        sorted_by(s.insert(first_after(s, x, ci, desc), x), ci, desc),
        forall|j: int| first_after(s, x, ci, desc) <= j < s.len() ==> row_order(x, #[trigger] s[j], ci, desc) == Order::Less,
{
    let p = first_after(s, x, ci, desc);
    lemma_first_after(s, x, ci, desc);
    let out = s.insert(p, x);
    s.insert_ensures(p, x);
    assert forall|j: int| p <= j < s.len() implies row_order(x, #[trigger] s[j], ci, desc) == Order::Less by {
        lemma_row_order(s[p], x, s[j], ci, desc);
        lemma_row_order(x, s[p], s[j], ci, desc);
        if j > p {
            assert(row_order(s[p], s[j], ci, desc) != Order::Greater);
        }
    }
    assert forall|i: int, j: int| 0 <= i < j < out.len() implies row_order(#[trigger] out[i], #[trigger] out[j], ci, desc) != Order::Greater by {
        if j < p {
            assert(out[i] == s[i] && out[j] == s[j]);
        } else if j == p {
            assert(out[i] == s[i]);
        } else if i < p {
            lemma_row_order(s[i], x, s[j - 1], ci, desc);
            lemma_row_order(s[i], s[i], s[i], ci, desc);
            assert(out[i] == s[i]);
            assert(out[j] == s[j - 1]);
            if i < j - 1 {
                assert(row_order(s[i], s[j - 1], ci, desc) != Order::Greater);
            }
        } else if i == p {
            assert(out[j] == s[j - 1]);
            assert(row_order(x, s[j - 1], ci, desc) == Order::Less);
        } else {
            assert(out[i] == s[i - 1]);
            assert(out[j] == s[j - 1]);
            assert(row_order(s[i - 1], s[j - 1], ci, desc) != Order::Greater);
        }
    }
}

/// Inserting a row after every row with its sort value adds it at the end of
/// the rows with that value and changes no other value's rows.
proof fn lemma_insert_stable(s: Seq<Seq<ValueV>>, x: Seq<ValueV>, ci: int, desc: bool, k: ValueV)
    requires
        0 <= first_after(s, x, ci, desc) <= s.len(),
        forall|j: int| first_after(s, x, ci, desc) <= j < s.len() ==> row_order(x, #[trigger] s[j], ci, desc) == Order::Less,
    ensures
        with_key(s.insert(first_after(s, x, ci, desc), x), ci, k) == (if sort_key(x, ci) == k {
            with_key(s, ci, k).push(x)
        } else {
            with_key(s, ci, k)
        }),
{
    let p = first_after(s, x, ci, desc);
    let pr = key_is(ci, k);
    let a = s.subrange(0, p);
    let b = s.subrange(p, s.len() as int);
    let out = s.insert(p, x);
    assert(s =~= a + b);
    assert(out =~= (a + seq![x]) + b);
    Seq::filter_distributes_over_add(a + seq![x], b, pr);
    Seq::filter_distributes_over_add(a, seq![x], pr);
    Seq::filter_distributes_over_add(a, b, pr);
    reveal_with_fuel(Seq::filter, 2);
    assert(seq![x].drop_last() =~= Seq::<Seq<ValueV>>::empty());
    if pr(x) {
        assert forall|i: int| 0 <= i < b.len() implies !pr(#[trigger] b[i]) by {
            assert(b[i] == s[p + i]);
            lemma_row_order(x, s[p + i], x, ci, desc);
        }
        lemma_filter_none(b, pr);
        assert(seq![x].filter(pr) =~= seq![x]);
        assert(a.filter(pr) + b.filter(pr) =~= a.filter(pr));
        assert((a.filter(pr) + seq![x]) + b.filter(pr) =~= a.filter(pr).push(x));
    } else {
        assert(seq![x].filter(pr) =~= Seq::<Seq<ValueV>>::empty());
        assert((a.filter(pr) + Seq::<Seq<ValueV>>::empty()) + b.filter(pr) =~= a.filter(pr) + b.filter(pr));
    }
}

/// `ORDER BY` is a stable sort: the result holds the same rows, in order by
/// the column, and rows with the same sort value keep their relative order.
pub proof fn law_sort_rows(rows: Seq<Seq<ValueV>>, ci: int, desc: bool)
    ensures
        sort_rows(rows, ci, desc).len() == rows.len(),
        sort_rows(rows, ci, desc).to_multiset() == rows.to_multiset(),
        sorted_by(sort_rows(rows, ci, desc), ci, desc),
        forall|k: ValueV| #[trigger] with_key(sort_rows(rows, ci, desc), ci, k) == with_key(rows, ci, k),
    decreases rows.len(),
{
    if rows.len() == 0 {
        return;
    }
    let d = rows.drop_last();
    let x = rows.last();
    law_sort_rows(d, ci, desc);
    let s = sort_rows(d, ci, desc);
    let p = first_after(s, x, ci, desc);
    lemma_first_after(s, x, ci, desc);
    let out = s.insert(p, x);
    assert(sort_rows(rows, ci, desc) == out);
    s.insert_ensures(p, x);
    vstd::seq_lib::to_multiset_insert(s, p, x);
    vstd::seq_lib::to_multiset_build(d, x);
    assert(d.push(x) =~= rows);
    lemma_insert_sorted(s, x, ci, desc);
    assert forall|k: ValueV| #[trigger] with_key(out, ci, k) == with_key(rows, ci, k) by {
        lemma_insert_stable(s, x, ci, desc, k);
        reveal_with_fuel(Seq::filter, 1);
        assert(with_key(rows, ci, k) == (if sort_key(x, ci) == k { with_key(d, ci, k).push(x) } else { with_key(d, ci, k) }));
    }
}

/// After a successful insert, scanning the table gives its earlier rows
/// followed by the row the store stored.
pub proof fn law_scan_after_insert<S: StorageEngine>(s: S, t: Seq<char>, values: Seq<ValueV>)
    requires
        s.tables().contains_key(t),
    ensures
        physical_effect(s, PhysicalPlanV::Insert { table: t, values }) matches Ok((after, out)) && out.len() == 0
            && run_logical(after, LogicalPlanV::Scan { table: t, filter: None })
                == Ok::<Seq<Seq<ValueV>>, ErrorV>(s.tables()[t].push(s.stored_row(t, values))),
{
}

/// A scan with a condition, or a filter node, yields only rows that satisfy it.
pub proof fn law_selected_rows_satisfy(rows: Seq<Seq<ValueV>>, e: ExprV)
    ensures
        forall|i: int| 0 <= i < select_rows(rows, e).len() ==> expr_true(e, #[trigger] select_rows(rows, e)[i]),
        select_rows(rows, e).len() <= rows.len(),
{
    assert forall|i: int| 0 <= i < select_rows(rows, e).len() implies expr_true(e, #[trigger] select_rows(rows, e)[i]) by {
        rows.lemma_filter_pred(|r: Seq<ValueV>| expr_true(e, r), i);
    }
    rows.lemma_filter_len(|r: Seq<ValueV>| expr_true(e, r));
}

/// `LIMIT n OFFSET k` yields the rows from position `k` on, `n` of them
/// when there are that many (all of them when `n` is `0`).
pub proof fn law_window(rows: Seq<Seq<ValueV>>, limit: u64, offset: u64)
    ensures
        ({
            let start = if offset < rows.len() { offset as int } else { rows.len() as int };
            let rest = rows.len() - start;
            &&& window(rows, limit, offset).len() == (if limit == 0 || limit >= rest { rest } else { limit as int })
            &&& forall|i: int| 0 <= i < window(rows, limit, offset).len()
                ==> #[trigger] window(rows, limit, offset)[i] == rows[start + i]
        }),
{
}

/// A pull-based operator: opened once, then asked for rows one at a time
/// until it has none, then closed.
pub trait Operator {
    fn open(&mut self) -> Result<(), Error>;

    fn next(&mut self) -> Result<Option<Vec<Value>>, Error>;

    fn close(&mut self) -> Result<(), Error>;
}

/// Runs plans against a store, keeping the catalog in step.
pub struct Executor<S: StorageEngine> {
    storage: S,
    catalog: Catalog,
}

fn count_rows(n: usize) -> (out: Vec<Vec<Value>>)
    ensures
        rows_view(out@) == count_result(n as int),
{
    let mut row: Vec<Value> = Vec::new();
    row.push(Val::Int(n as i64));
    let mut out: Vec<Vec<Value>> = Vec::new();
    assert(row_view(row@) =~= seq![Val::Int((n as int) as i64)]);
    out.push(row);
    assert(rows_view(out@) =~= count_result(n as int));
    out
}

fn no_rows() -> (out: Vec<Vec<Value>>)
    ensures
        rows_view(out@) == Seq::<Seq<ValueV>>::empty(),
{
    let out: Vec<Vec<Value>> = Vec::new();
    assert(rows_view(out@) =~= Seq::<Seq<ValueV>>::empty());
    out
}

impl<S: StorageEngine> Executor<S> {
    /// The store.
    pub closed spec fn store(&self) -> S {
        self.storage
    }

    /// The catalog's records.
    pub closed spec fn meta(&self) -> CatalogV {
        self.catalog.view_map()
    }

    /// The store's and the catalog's invariants hold.
    pub closed spec fn wf(&self) -> bool {
        self.storage.inv() && self.catalog.wf()
    }

    /// The store.
    pub(crate) fn storage(&self) -> (s: &S)
        requires
            self.wf(),
        ensures
            *s == self.store(),
            s.inv(),
    {
        &self.storage
    }

    /// An executor over a store and a catalog.
    pub fn new(storage: S, catalog: Catalog) -> (e: Self)
        requires
            storage.inv(),
            catalog.wf(),
        ensures
            e.wf(),
            e.store() == storage,
            e.meta() == catalog.view_map(),
    {
        Executor { storage, catalog }
    }

    /// Runs a physical plan.
    pub fn execute(&mut self, plan: &PhysicalPlan) -> (r: Result<Vec<Vec<Value>>, Error>)
        requires
            old(self).wf(),
            plan_ok(old(self).store(), plan@),
        ensures
            final(self).wf(),
            final(self).meta() == (if physical_effect(old(self).store(), plan@) is Ok || plan@ is DropTable {
                catalog_effect(old(self).meta(), plan@)
            } else {
                old(self).meta()
            }),
            outcome_matches(
                physical_effect(old(self).store(), plan@),
                old(self).store().tables(),
                final(self).store().tables(),
                r,
            ),
    {
        match plan {
            PhysicalPlan::CreateTable { name, columns } => {
                match self.storage.create_table(name.as_str(), copy_columns(columns)) {
                    Ok(_) => {
                        self.catalog.create_table(name.as_str(), copy_columns(columns));
                        Ok(no_rows())
                    },
                    Err(e) => Err(e),
                }
            },
            PhysicalPlan::DropTable { name } => {
                self.catalog.drop_table(name.as_str());
                match self.storage.drop_table(name.as_str()) {
                    Ok(_) => Ok(no_rows()),
                    Err(e) => Err(e),
                }
            },
            PhysicalPlan::Insert { table, values } => {
                match self.storage.insert(table.as_str(), crate::value::copy_row(values)) {
                    Ok(_) => Ok(no_rows()),
                    Err(e) => Err(e),
                }
            },
            PhysicalPlan::Update { table, assignments, filter } => {
                let a = copy_assignments(assignments);
                match self.storage.update(table.as_str(), a, filter.as_ref()) {
                    Ok(count) => Ok(count_rows(count)),
                    Err(e) => Err(e),
                }
            },
            PhysicalPlan::Delete { table, filter } => {
                match self.storage.delete(table.as_str(), filter.as_ref()) {
                    Ok(count) => Ok(count_rows(count)),
                    Err(e) => Err(e),
                }
            },
            PhysicalPlan::Project { input } => self.execute_logical(input),
        }
    }

    /// Runs a logical plan and returns its rows.
    pub(crate) fn execute_logical(&self, plan: &LogicalPlan) -> (r: Result<Vec<Vec<Value>>, Error>)
        requires
            self.wf(),
            logical_ok(self.store().tables(), plan@),
        ensures
            match (run_logical(self.store().tables(), plan@), r) {
                (Ok(rows), Ok(out)) => rows_view(out@) == rows,
                (Err(e), Err(x)) => x@ == e,
                _ => false,
            },
        decreases plan,
    {
        match plan {
            LogicalPlan::Scan { table, filter } => {
                let rows = self.storage.scan(table.as_str())?;
                match filter {
                    Some(expr) => Ok(filter_rows(rows, expr)),
                    None => Ok(rows),
                }
            },
            LogicalPlan::Project { input } => self.execute_logical(input),
            LogicalPlan::Filter { input, predicate } => {
                let rows = self.execute_logical(input)?;
                Ok(filter_rows(rows, predicate))
            },
            LogicalPlan::Limit { input, limit, offset } => {
                let rows = self.execute_logical(input)?;
                Ok(window_rows(rows, *limit, *offset))
            },
            LogicalPlan::OrderBy { input, column, desc } => {
                let rows = self.execute_logical(input)?;
                let ci = crate::engine::letter_index(column.as_str());
                Ok(sort_by_column(rows, ci, *desc))
            },
            _ => Err(Error::Execution(text("unsupported logical plan"))),
        }
    }
}

/// Makes an independent copy of a list of assignments.
fn copy_assignments(a: &Vec<(String, Value)>) -> (out: Vec<(String, Value)>)
    ensures
        crate::ast::assignments_view(out@) == crate::ast::assignments_view(a@),
{
    let mut out: Vec<(String, Value)> = Vec::new();
    let mut i: usize = 0;
    while i < a.len()
        invariant
            0 <= i <= a@.len(),
            out@.len() == i,
            forall|j: int| 0 <= j < i ==> (#[trigger] out@[j]).0@ == a@[j].0@ && out@[j].1@ == a@[j].1@,
        decreases a@.len() - i,
    {
        out.push((a[i].0.clone(), copy_value(&a[i].1)));
        i = i + 1;
    }
    assert(crate::ast::assignments_view(out@) =~= crate::ast::assignments_view(a@));
    out
}

} // verus!
