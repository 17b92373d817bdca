//! The storage-engine interface and the evaluation of filters over rows.
use vstd::prelude::*;
use crate::ast::{BinOp, Expr, ExprOf, ExprV};
use crate::bytes::Order;
use crate::error::Error;
use crate::text::{append_str, text};
use crate::value::{compare_values, copy_value, utf8, value_order, Val, Value, ValueV};

verus! {

// ---------------------------------------------------------------------------
// Column names

/// A column name whose first byte is not below `a`: the names for which the
/// engine's column arithmetic does not underflow.
pub open spec fn name_ok(n: Seq<char>) -> bool {
    utf8(n).len() == 0 || utf8(n)[0] >= 97
}

/// The position a column name stands for: its first byte minus `a`
/// (the empty name stands for the first column).
pub open spec fn column_index(n: Seq<char>) -> int {
    if utf8(n).len() == 0 { 0 } else { utf8(n)[0] - 97 }
}

/// The column an assignment writes. When `id_key` holds (the store with a
/// key index), the name `id` stands for the key column, the first; any other
/// name goes by its first letter.
pub open spec fn assign_index(n: Seq<char>, id_key: bool) -> int {
    if id_key && n == "id"@ { 0 } else { column_index(n) }
}

/// The position a column name stands for: its first byte minus `a`.
pub fn letter_index(name: &str) -> (i: usize)
    requires
        name_ok(name@),
    ensures
        i == column_index(name@),
{
    let b = name.as_bytes();
    if b.len() == 0 { 0 } else { (b[0] - 97u8) as usize }
}

/// The column an assignment writes, as [`assign_index`] says.
fn assign_pos(name: &str, id_key: bool) -> (i: usize)
    requires
        name_ok(name@),
    ensures
        i == assign_index(name@, id_key),
{
    if id_key {
        crate::memory_v2::col_index(name)
    } else {
        letter_index(name)
    }
}

pub open spec fn opt_ref_view(f: Option<&Expr>) -> Option<ExprV> {
    match f {
        Some(e) => Some(e@),
        None => None,
    }
}

// ---------------------------------------------------------------------------
// Filter semantics

pub open spec fn cell(row: Seq<ValueV>, i: int) -> Option<ValueV> {
    if 0 <= i < row.len() { Some(row[i]) } else { None }
}

/// A literal as a condition: booleans as themselves, integers when non-zero, anything else holds.
pub open spec fn literal_holds(v: ValueV) -> bool {
    match v {
        Val::Bool(b) => b,
        Val::Int(i) => i != 0,
        _ => true,
    }
}

/// A column as a condition: booleans as themselves, integers when non-zero,
/// `NULL` fails, anything else (and a missing column) holds.
pub open spec fn cell_holds(c: Option<ValueV>) -> bool {
    match c {
        Some(Val::Bool(b)) => b,
        Some(Val::Int(i)) => i != 0,
        Some(Val::Null) => false,
        _ => true,
    }
}

/// The value of an operand: a literal, a column (`NULL` when missing); a nested comparison is `NULL`.
pub open spec fn operand_value(e: ExprV, row: Seq<ValueV>) -> ValueV {
    match e {
        ExprOf::Literal(v) => v,
        ExprOf::Column(n) => match cell(row, column_index(n)) {
            Some(v) => v,
            None => Val::Null,
        },
        ExprOf::Binary { .. } => Val::Null,
    }
}

/// The outcome of a comparison operator on two values.
pub open spec fn compare_holds(op: BinOp, l: ValueV, r: ValueV) -> bool {
    let o = value_order(l, r);
    match op {
        BinOp::Eq => o == Order::Equal,
        BinOp::Ne => o != Order::Equal,
        BinOp::Lt => o == Order::Less,
        BinOp::Le => o != Order::Greater,
        BinOp::Gt => o == Order::Greater,
        BinOp::Ge => o != Order::Less,
        _ => false,
    }
}

/// Whether a row satisfies an expression.
pub open spec fn expr_holds(e: ExprV, row: Seq<ValueV>) -> bool
    decreases e,
{
    match e {
        ExprOf::Literal(v) => literal_holds(v),
        ExprOf::Column(n) => cell_holds(cell(row, column_index(n))),
        ExprOf::Binary { left, op, right } => match op {
            BinOp::And => expr_holds(*left, row) && expr_holds(*right, row),
            BinOp::Or => expr_holds(*left, row) || expr_holds(*right, row),
            _ => compare_holds(op, operand_value(*left, row), operand_value(*right, row)),
        },
    }
}

/// Whether a row passes an optional filter (no filter passes every row).
pub open spec fn filter_holds(f: Option<ExprV>, row: Seq<ValueV>) -> bool {
    match f {
        Some(e) => expr_holds(e, row),
        None => true,
    }
}

/// The comparison `l op r` as an expression.
pub open spec fn comparison(l: ExprV, op: BinOp, r: ExprV) -> ExprV {
    ExprOf::Binary { left: Box::new(l), op, right: Box::new(r) }
}

/// What a comparison in a filter means, in terms of the values of its two
/// operands: `=` and `<>` test equality, `<` holds when the left value comes
/// first, `>` when the right one does (so never on equal values), and `<=`,
/// `>=` add equality.
pub proof fn law_filter_comparisons(l: ExprV, r: ExprV, row: Seq<ValueV>)
    ensures
        ({
            let lv = operand_value(l, row);
            let rv = operand_value(r, row);
            &&& expr_holds(comparison(l, BinOp::Eq, r), row) <==> lv == rv
            &&& expr_holds(comparison(l, BinOp::Ne, r), row) <==> lv != rv
            &&& expr_holds(comparison(l, BinOp::Lt, r), row) <==> value_order(lv, rv) == Order::Less
            &&& expr_holds(comparison(l, BinOp::Gt, r), row) <==> value_order(rv, lv) == Order::Less
            &&& expr_holds(comparison(l, BinOp::Le, r), row) <==> (value_order(lv, rv) == Order::Less || lv == rv)
            &&& expr_holds(comparison(l, BinOp::Ge, r), row) <==> (value_order(rv, lv) == Order::Less || lv == rv)
            &&& expr_holds(comparison(l, BinOp::Gt, r), row) <==> expr_holds(comparison(r, BinOp::Lt, l), row)
        }),
{
    let lv = operand_value(l, row);
    let rv = operand_value(r, row);
    crate::value::lemma_value_order_equal(lv, rv);
    crate::value::lemma_value_order_equal(rv, lv);
    crate::value::lemma_value_order_flip(lv, rv);
}

/// On integer operands a filter comparison is the comparison of the numbers.
pub proof fn law_filter_integer_comparisons(l: ExprV, r: ExprV, row: Seq<ValueV>, x: i64, y: i64)
    requires
        operand_value(l, row) == Val::<Seq<char>>::Int(x),
        operand_value(r, row) == Val::<Seq<char>>::Int(y),
    ensures
        expr_holds(comparison(l, BinOp::Eq, r), row) <==> x == y,
        expr_holds(comparison(l, BinOp::Ne, r), row) <==> x != y,
        expr_holds(comparison(l, BinOp::Lt, r), row) <==> x < y,
        expr_holds(comparison(l, BinOp::Le, r), row) <==> x <= y,
        expr_holds(comparison(l, BinOp::Gt, r), row) <==> x > y,
        expr_holds(comparison(l, BinOp::Ge, r), row) <==> x >= y,
{
    law_filter_comparisons(l, r, row);
    crate::value::law_int_order(x, y);
    crate::value::law_int_order(y, x);
}

/// An operand looks a column up only through a valid name.
pub open spec fn operand_ok(e: ExprV) -> bool {
    match e {
        ExprOf::Column(n) => name_ok(n),
        _ => true,
    }
}

/// Evaluating the expression on the row looks columns up only through valid
/// names. Both operands of a binary node are looked up first; the right side
/// of `AND` (`OR`) is evaluated only when the left side holds (fails).
pub open spec fn eval_ok(e: ExprV, row: Seq<ValueV>) -> bool
    decreases e,
{
    match e {
        ExprOf::Literal(_) => true,
        ExprOf::Column(n) => name_ok(n),
        ExprOf::Binary { left, op, right } => {
            &&& operand_ok(*left)
            &&& operand_ok(*right)
            &&& match op {
                BinOp::And => eval_ok(*left, row) && (expr_holds(*left, row) ==> eval_ok(*right, row)),
                BinOp::Or => eval_ok(*left, row) && (!expr_holds(*left, row) ==> eval_ok(*right, row)),
                _ => true,
            }
        },
    }
}

pub open spec fn filter_eval_ok(f: Option<ExprV>, row: Seq<ValueV>) -> bool {
    match f {
        Some(e) => eval_ok(e, row),
        None => true,
    }
}

/// Evaluating the filter on every row looks columns up only through valid names.
pub open spec fn rows_eval_ok(rows: Seq<Seq<ValueV>>, f: Option<ExprV>) -> bool {
    forall|i: int| 0 <= i < rows.len() ==> filter_eval_ok(f, #[trigger] rows[i])
}

/// An update looks columns up only through valid names: those of the filter on
/// every row, and those of the assignments when some row passes the filter.
pub open spec fn update_ok(rows: Seq<Seq<ValueV>>, a: Seq<(Seq<char>, ValueV)>, f: Option<ExprV>) -> bool {
    &&& rows_eval_ok(rows, f)
    &&& (exists|i: int| 0 <= i < rows.len() && filter_holds(f, #[trigger] rows[i])) ==> assignment_names_ok(a)
}

fn cell_at(row: &[Value], i: usize) -> (r: Option<&Value>)
    ensures
        match r {
            Some(v) => cell(crate::value::row_view(row@), i as int) == Some(v@),
            None => cell(crate::value::row_view(row@), i as int) is None,
        },
{
    if i < row.len() { Some(&row[i]) } else { None }
}

fn scalar(expr: &Expr, row: &[Value]) -> (v: Value)
    requires
        operand_ok(expr@),
    ensures
        v@ == operand_value(expr@, crate::value::row_view(row@)),
{
    match expr {
        ExprOf::Literal(v) => copy_value(v),
        ExprOf::Column(name) => {
            let idx = letter_index(name.as_str());
            match cell_at(row, idx) {
                Some(v) => copy_value(v),
                None => Val::Null,
            }
        },
        ExprOf::Binary { .. } => Val::Null,
    }
}

fn eval(expr: &Expr, row: &[Value]) -> (b: bool)
    requires
        eval_ok(expr@, crate::value::row_view(row@)),
    ensures
        b == expr_holds(expr@, crate::value::row_view(row@)),
    decreases expr,
{
    match expr {
        ExprOf::Literal(v) => match v {
            Val::Bool(b) => *b,
            Val::Int(i) => *i != 0,
            _ => true,
        },
        ExprOf::Column(name) => {
            let idx = letter_index(name.as_str());
            match cell_at(row, idx) {
                Some(Val::Bool(b)) => *b,
                Some(Val::Int(i)) => *i != 0,
                Some(Val::Null) => false,
                _ => true,
            }
        },
        ExprOf::Binary { left, op, right } => {
            let l = scalar(left, row);
            let r = scalar(right, row);
            match op {
                BinOp::And => eval(left, row) && eval(right, row),
                BinOp::Or => eval(left, row) || eval(right, row),
                _ => {
                    let o = compare_values(&l, &r);
                    match op {
                        BinOp::Eq => o == Order::Equal,
                        BinOp::Ne => o != Order::Equal,
                        BinOp::Lt => o == Order::Less,
                        BinOp::Le => o != Order::Greater,
                        BinOp::Gt => o == Order::Greater,
                        _ => o != Order::Less,
                    }
                },
            }
        },
    }
}

/// Whether a column name is valid.
pub fn is_name_ok(n: &str) -> (b: bool)
    ensures
        b == name_ok(n@),
{
    let bytes = n.as_bytes();
    bytes.len() == 0 || bytes[0] >= 97u8
}

fn operand_ok_exec(e: &Expr) -> (b: bool)
    ensures
        b == operand_ok(e@),
{
    match e {
        ExprOf::Column(n) => is_name_ok(n.as_str()),
        _ => true,
    }
}

/// Whether evaluating the expression on the row looks columns up only through valid names.
fn eval_ok_exec(e: &Expr, row: &[Value]) -> (b: bool)
    ensures
        b == eval_ok(e@, crate::value::row_view(row@)),
    decreases e,
{
    match e {
        ExprOf::Literal(_) => true,
        ExprOf::Column(n) => is_name_ok(n.as_str()),
        ExprOf::Binary { left, op, right } => {
            if !operand_ok_exec(left) || !operand_ok_exec(right) {
                return false;
            }
            match op {
                BinOp::And => eval_ok_exec(left, row) && (!eval(left, row) || eval_ok_exec(right, row)),
                BinOp::Or => eval_ok_exec(left, row) && (eval(left, row) || eval_ok_exec(right, row)),
                _ => true,
            }
        },
    }
}

/// Whether evaluating the filter on every row looks columns up only through valid names.
pub fn rows_eval_ok_exec(rows: &Vec<Vec<Value>>, filter: Option<&Expr>) -> (b: bool)
    ensures
        b == rows_eval_ok(crate::value::rows_view(rows@), opt_ref_view(filter)),
{
    let ghost rv = crate::value::rows_view(rows@);
    let mut i: usize = 0;
    while i < rows.len()
        invariant
            0 <= i <= rows@.len(),
            rv == crate::value::rows_view(rows@),
            forall|j: int| 0 <= j < i ==> filter_eval_ok(opt_ref_view(filter), #[trigger] rv[j]),
        decreases rows@.len() - i,
    {
        let ok = match filter {
            Some(e) => eval_ok_exec(e, rows[i].as_slice()),
            None => true,
        };
        if !ok {
            assert(!filter_eval_ok(opt_ref_view(filter), rv[i as int]));
            return false;
        }
        i = i + 1;
    }
    true
}

/// Whether an update looks columns up only through valid names.
pub fn update_ok_exec(rows: &Vec<Vec<Value>>, a: &Vec<(String, Value)>, filter: Option<&Expr>) -> (b: bool)
    ensures
        b == update_ok(crate::value::rows_view(rows@), crate::ast::assignments_view(a@), opt_ref_view(filter)),
{
    let ghost rv = crate::value::rows_view(rows@);
    let ghost f = opt_ref_view(filter);
    if !rows_eval_ok_exec(rows, filter) {
        return false;
    }
    let mut hit = false;
    let mut i: usize = 0;
    while i < rows.len()
        invariant
            0 <= i <= rows@.len(),
            rv == crate::value::rows_view(rows@),
            f == opt_ref_view(filter),
            rows_eval_ok(rv, f),
            hit == (exists|j: int| 0 <= j < i && filter_holds(f, #[trigger] rv[j])),
        decreases rows@.len() - i,
    {
        assert(filter_eval_ok(f, rv[i as int]));
        if eval_filter(filter, rows[i].as_slice()) {
            hit = true;
        }
        i = i + 1;
    }
    if !hit {
        return true;
    }
    let ghost av = crate::ast::assignments_view(a@);
    let mut k: usize = 0;
    while k < a.len()
        invariant
            0 <= k <= a@.len(),
            av == crate::ast::assignments_view(a@),
            rv == crate::value::rows_view(rows@),
            f == opt_ref_view(filter),
            rows_eval_ok(rv, f),
            exists|j: int| 0 <= j < rv.len() && filter_holds(f, #[trigger] rv[j]),
            forall|j: int| 0 <= j < k ==> name_ok(#[trigger] av[j].0),
        decreases a@.len() - k,
    {
        assert(av[k as int].0 == a@[k as int].0@);
        if !is_name_ok(a[k].0.as_str()) {
            return false;
        }
        k = k + 1;
    }
    true
}

/// Whether `row` passes the optional filter.
pub fn eval_filter(filter: Option<&Expr>, row: &[Value]) -> (b: bool)
    requires
        filter_eval_ok(opt_ref_view(filter), crate::value::row_view(row@)),
    ensures
        b == filter_holds(opt_ref_view(filter), crate::value::row_view(row@)),
{
    match filter {
        Some(e) => eval(e, row),
        None => true,
    }
}

// ---------------------------------------------------------------------------
// Row-level semantics shared by the stores

/// A row after the assignments, applied in order; an assignment whose column
/// lies beyond the row is skipped.
pub open spec fn assign_row(row: Seq<ValueV>, a: Seq<(Seq<char>, ValueV)>, id_key: bool) -> Seq<ValueV>
    decreases a.len(),
{
    if a.len() == 0 {
        row
    } else {
        let r = assign_row(row, a.drop_last(), id_key);
        let i = assign_index(a.last().0, id_key);
        if 0 <= i < r.len() { r.update(i, a.last().1) } else { r }
    }
}

/// The rows after an update: each row that passes the filter gets the assignments.
pub open spec fn update_rows(
    rows: Seq<Seq<ValueV>>,
    a: Seq<(Seq<char>, ValueV)>,
    f: Option<ExprV>,
    id_key: bool,
) -> Seq<Seq<ValueV>> {
    rows.map_values(|r: Seq<ValueV>| if filter_holds(f, r) { assign_row(r, a, id_key) } else { r })
}

/// The rows that pass the filter.
pub open spec fn matching_rows(rows: Seq<Seq<ValueV>>, f: Option<ExprV>) -> Seq<Seq<ValueV>> {
    rows.filter(|r: Seq<ValueV>| filter_holds(f, r))
}

/// The rows that fail the filter, in their order.
pub open spec fn kept_rows(rows: Seq<Seq<ValueV>>, f: Option<ExprV>) -> Seq<Seq<ValueV>> {
    rows.filter(|r: Seq<ValueV>| !filter_holds(f, r))
}

/// Every assignment names a valid column.
pub open spec fn assignment_names_ok(a: Seq<(Seq<char>, ValueV)>) -> bool {
    forall|i: int| 0 <= i < a.len() ==> name_ok(#[trigger] a[i].0)
}

pub open spec fn not_found_msg(t: Seq<char>) -> Seq<char> {
    "table `"@ + t + "` not found"@
}

pub open spec fn exists_msg(t: Seq<char>) -> Seq<char> {
    "table `"@ + t + "` already exists"@
}

/// `e` is a storage error with message `m`.
pub open spec fn storage_error(e: Error, m: Seq<char>) -> bool {
    e@ == crate::error::ErrorV::Storage(m)
}

// ---------------------------------------------------------------------------
// The storage interface

/// A store of named tables of rows.
pub trait StorageEngine: Sized {
    /// The tables by name, each with its rows in scan order.
    spec fn tables(&self) -> Map<Seq<char>, Seq<Seq<ValueV>>>;

    /// The store's internal invariant.
    spec fn inv(&self) -> bool;

    /// The row that inserting `values` into table `t` stores.
    spec fn stored_row(&self, t: Seq<char>, values: Seq<ValueV>) -> Seq<ValueV>;

    /// Whether inserting `values` into table `t` stays within the store's limits.
    spec fn insert_fits(&self, t: Seq<char>, values: Seq<ValueV>) -> bool;

    /// The rows of table `t` that a delete with `filter` leaves.
    spec fn rows_after_delete(&self, t: Seq<char>, filter: Option<ExprV>) -> Seq<Seq<ValueV>>;

    /// Whether an assignment to `id` writes the key column (rather than going by its first letter).
    spec fn id_is_key(&self) -> bool;

    /// A delete from table `t` with `filter` looks columns up only through valid names.
    spec fn delete_ok(&self, t: Seq<char>, filter: Option<ExprV>) -> bool;

    /// Creates an empty table; fails when the name is taken.
    fn create_table(&mut self, name: &str, columns: Vec<(String, String)>) -> (r: Result<(), Error>)
        requires
            old(self).inv(),
        ensures
            final(self).inv(),
            r is Ok <==> !old(self).tables().contains_key(name@),
            match r {
                Ok(_) => final(self).tables() == old(self).tables().insert(name@, Seq::empty()),
                Err(e) => final(self).tables() == old(self).tables() && storage_error(e, exists_msg(name@)),
            },
    ;

    /// Removes a table; fails when there is none of that name.
    fn drop_table(&mut self, name: &str) -> (r: Result<(), Error>)
        requires
            old(self).inv(),
        ensures
            final(self).inv(),
            r is Ok <==> old(self).tables().contains_key(name@),
            match r {
                Ok(_) => final(self).tables() == old(self).tables().remove(name@),
                Err(e) => final(self).tables() == old(self).tables() && storage_error(e, not_found_msg(name@)),
            },
    ;

    /// Appends a row to a table; fails when there is no such table.
    fn insert(&mut self, table: &str, values: Vec<Value>) -> (r: Result<(), Error>)
        requires
            old(self).inv(),
            old(self).insert_fits(table@, crate::value::row_view(values@)),
        ensures
            final(self).inv(),
            r is Ok <==> old(self).tables().contains_key(table@),
            match r {
                Ok(_) => final(self).tables() == old(self).tables().insert(
                    table@,
                    old(self).tables()[table@].push(old(self).stored_row(table@, crate::value::row_view(values@))),
                ),
                Err(e) => final(self).tables() == old(self).tables() && storage_error(e, not_found_msg(table@)),
            },
    ;

    /// The rows of a table, in order.
    fn scan(&self, table: &str) -> (r: Result<Vec<Vec<Value>>, Error>)
        requires
            self.inv(),
        ensures
            r is Ok <==> self.tables().contains_key(table@),
            match r {
                Ok(rows) => crate::value::rows_view(rows@) == self.tables()[table@],
                Err(e) => storage_error(e, not_found_msg(table@)),
            },
    ;

    /// Applies the assignments to every row that passes the filter; returns how many did.
    fn update(&mut self, table: &str, assignments: Vec<(String, Value)>, filter: Option<&Expr>) -> (r: Result<usize, Error>)
        requires
            old(self).inv(),
            old(self).tables().contains_key(table@) ==> update_ok(
                old(self).tables()[table@],
                crate::ast::assignments_view(assignments@),
                opt_ref_view(filter),
            ),
        ensures
            final(self).inv(),
            r is Ok <==> old(self).tables().contains_key(table@),
            match r {
                Ok(n) => {
                    &&& final(self).tables() == old(self).tables().insert(
                        table@,
                        update_rows(
                            old(self).tables()[table@],
                            crate::ast::assignments_view(assignments@),
                            opt_ref_view(filter),
                            old(self).id_is_key(),
                        ),
                    )
                    &&& n == matching_rows(old(self).tables()[table@], opt_ref_view(filter)).len()
                },
                Err(e) => final(self).tables() == old(self).tables() && storage_error(e, not_found_msg(table@)),
            },
    ;

    /// Removes rows of a table as [`StorageEngine::rows_after_delete`] says; returns how many.
    fn delete(&mut self, table: &str, filter: Option<&Expr>) -> (r: Result<usize, Error>)
        requires
            old(self).inv(),
            old(self).tables().contains_key(table@) ==> old(self).delete_ok(table@, opt_ref_view(filter)),
        ensures
            final(self).inv(),
            r is Ok <==> old(self).tables().contains_key(table@),
            match r {
                Ok(n) => {
                    &&& final(self).tables() == old(self).tables().insert(
                        table@,
                        old(self).rows_after_delete(table@, opt_ref_view(filter)),
                    )
                    &&& n + old(self).rows_after_delete(table@, opt_ref_view(filter)).len()
                        == old(self).tables()[table@].len()
                },
                Err(e) => final(self).tables() == old(self).tables() && storage_error(e, not_found_msg(table@)),
            },
    ;
}

// ---------------------------------------------------------------------------
// Laws of updates and deletes

/// An update with one assignment writes the value into that column of every
/// row that passes the filter (when the row has the column) and leaves every
/// other row as it was.
pub proof fn law_update_one_column(
    rows: Seq<Seq<ValueV>>,
    c: Seq<char>,
    v: ValueV,
    f: Option<ExprV>,
    id_key: bool,
    i: int,
)
    requires
        0 <= i < rows.len(),
    ensures
        update_rows(rows, seq![(c, v)], f, id_key).len() == rows.len(),
        update_rows(rows, seq![(c, v)], f, id_key)[i] == (if filter_holds(f, rows[i]) && 0 <= assign_index(c, id_key)
            < rows[i].len() {
            rows[i].update(assign_index(c, id_key), v)
        } else {
            rows[i]
        }),
{
    let a = seq![(c, v)];
    assert(a.drop_last() =~= Seq::<(Seq<char>, ValueV)>::empty());
    assert(assign_row(rows[i], a.drop_last(), id_key) == rows[i]);
}

/// A delete leaves no row that passes its filter, keeps every row that fails
/// it, and the rows kept and the rows removed together are all the rows.
pub proof fn law_delete_partition(rows: Seq<Seq<ValueV>>, f: Option<ExprV>)
    ensures
        forall|i: int| 0 <= i < kept_rows(rows, f).len() ==> !filter_holds(f, #[trigger] kept_rows(rows, f)[i]),
        forall|i: int| 0 <= i < matching_rows(rows, f).len() ==> filter_holds(f, #[trigger] matching_rows(rows, f)[i]),
        kept_rows(rows, f).len() + matching_rows(rows, f).len() == rows.len(),
    decreases rows.len(),
{
    let keep = |r: Seq<ValueV>| !filter_holds(f, r);
    let hit = |r: Seq<ValueV>| filter_holds(f, r);
    assert forall|i: int| 0 <= i < kept_rows(rows, f).len() implies !filter_holds(f, #[trigger] kept_rows(rows, f)[i]) by {
        rows.lemma_filter_pred(keep, i);
    }
    assert forall|i: int| 0 <= i < matching_rows(rows, f).len() implies filter_holds(f, #[trigger] matching_rows(rows, f)[i]) by {
        rows.lemma_filter_pred(hit, i);
    }
    reveal_with_fuel(Seq::filter, 1);
    if rows.len() > 0 {
        law_delete_partition(rows.drop_last(), f);
    }
}

/// Without a filter, an update reaches every row and a delete empties the table.
pub proof fn law_no_filter_reaches_all(rows: Seq<Seq<ValueV>>, a: Seq<(Seq<char>, ValueV)>, id_key: bool)
    ensures
        update_rows(rows, a, None, id_key) == rows.map_values(|r: Seq<ValueV>| assign_row(r, a, id_key)),
        kept_rows(rows, None).len() == 0,
        matching_rows(rows, None) == rows,
    decreases rows.len(),
{
    assert(update_rows(rows, a, None, id_key) =~= rows.map_values(|r: Seq<ValueV>| assign_row(r, a, id_key)));
    reveal_with_fuel(Seq::filter, 1);
    if rows.len() > 0 {
        law_no_filter_reaches_all(rows.drop_last(), a, id_key);
        assert(rows.drop_last().push(rows.last()) =~= rows);
    } else {
        assert(rows =~= Seq::<Seq<ValueV>>::empty());
    }
}

// ---------------------------------------------------------------------------
// Row operations shared by the stores

/// Applies the assignments, in order, to one row.
pub(crate) fn assign_in_place(row: &mut Vec<Value>, a: &Vec<(String, Value)>, id_key: bool)
    requires
        assignment_names_ok(crate::ast::assignments_view(a@)),
    ensures
        crate::value::row_view(final(row)@) == assign_row(
            crate::value::row_view(old(row)@),
            crate::ast::assignments_view(a@),
            id_key,
        ),
{
    let ghost av = crate::ast::assignments_view(a@);
    let ghost start = crate::value::row_view(row@);
    let mut k: usize = 0;
    while k < a.len()
        invariant
            0 <= k <= a@.len(),
            av == crate::ast::assignments_view(a@),
            assignment_names_ok(av),
            crate::value::row_view(row@) == assign_row(start, av.take(k as int), id_key),
        decreases a@.len() - k,
    {
        assert(av.take(k + 1).drop_last() =~= av.take(k as int));
        assert(name_ok(av[k as int].0));
        let idx = assign_pos(a[k].0.as_str(), id_key);
        if idx < row.len() {
            row[idx] = copy_value(&a[k].1);
        }
        assert(crate::value::row_view(row@) =~= assign_row(start, av.take(k + 1), id_key));
        k = k + 1;
    }
    assert(av.take(a@.len() as int) =~= av);
}

/// Applies the assignments to every row that passes the filter; returns how many did.
pub(crate) fn update_in_place(
    rows: &mut Vec<Vec<Value>>,
    a: &Vec<(String, Value)>,
    filter: Option<&Expr>,
    id_key: bool,
) -> (n: usize)
    requires
        update_ok(crate::value::rows_view(old(rows)@), crate::ast::assignments_view(a@), opt_ref_view(filter)),
    ensures
        crate::value::rows_view(final(rows)@) == update_rows(
            crate::value::rows_view(old(rows)@),
            crate::ast::assignments_view(a@),
            opt_ref_view(filter),
            id_key,
        ),
        n == matching_rows(crate::value::rows_view(old(rows)@), opt_ref_view(filter)).len(),
{
    let ghost start = crate::value::rows_view(rows@);
    let ghost f = opt_ref_view(filter);
    let ghost av = crate::ast::assignments_view(a@);
    let mut n: usize = 0;
    let mut i: usize = 0;
    while i < rows.len()
        invariant
            0 <= i <= rows@.len(),
            rows@.len() == start.len(),
            f == opt_ref_view(filter),
            av == crate::ast::assignments_view(a@),
            update_ok(start, av, f),
            forall|j: int| 0 <= j < i ==> crate::value::row_view((#[trigger] rows@[j])@)
                == (if filter_holds(f, start[j]) { assign_row(start[j], av, id_key) } else { start[j] }),
            forall|j: int| i <= j < rows@.len() ==> crate::value::row_view((#[trigger] rows@[j])@) == start[j],
            n == matching_rows(start.take(i as int), f).len(),
            n <= i,
        decreases rows@.len() - i,
    {
        assert(start.take(i + 1).drop_last() =~= start.take(i as int));
        assert(start.take(i + 1).last() == start[i as int]);
        proof {
            reveal_with_fuel(Seq::filter, 1);
        }
        assert(matching_rows(start.take(i + 1), f) == (if filter_holds(f, start[i as int]) {
            matching_rows(start.take(i as int), f).push(start[i as int])
        } else {
            matching_rows(start.take(i as int), f)
        }));
        let ghost before = rows@;
        assert(filter_eval_ok(f, start[i as int]));
        if eval_filter(filter, rows[i].as_slice()) {
            assert(filter_holds(f, start[i as int]));
            let mut row: Vec<Value> = Vec::new();
            std::mem::swap(&mut row, &mut rows[i]);
            assign_in_place(&mut row, a, id_key);
            rows[i] = row;
            n = n + 1;
        }
        assert forall|j: int| 0 <= j < rows@.len() && j != i implies rows@[j] == before[j] by {}
        i = i + 1;
    }
    assert(start.take(start.len() as int) =~= start);
    assert(crate::value::rows_view(rows@) =~= update_rows(start, av, f, id_key));
    n
}

/// The rows that fail the filter, in their order.
pub(crate) fn keep_unmatched(rows: Vec<Vec<Value>>, filter: Option<&Expr>) -> (out: Vec<Vec<Value>>)
    requires
        rows_eval_ok(crate::value::rows_view(rows@), opt_ref_view(filter)),
    ensures
        crate::value::rows_view(out@) == kept_rows(crate::value::rows_view(rows@), opt_ref_view(filter)),
{
    let ghost start = crate::value::rows_view(rows@);
    let ghost f = opt_ref_view(filter);
    let mut rows = rows;
    let mut out: Vec<Vec<Value>> = Vec::new();
    let mut i: usize = 0;
    while i < rows.len()
        invariant
            0 <= i <= rows@.len(),
            rows@.len() == start.len(),
            f == opt_ref_view(filter),
            rows_eval_ok(start, f),
            forall|j: int| i <= j < rows@.len() ==> crate::value::row_view((#[trigger] rows@[j])@) == start[j],
            crate::value::rows_view(out@) == kept_rows(start.take(i as int), f),
        decreases rows@.len() - i,
    {
        assert(start.take(i + 1).drop_last() =~= start.take(i as int));
        assert(start.take(i + 1).last() == start[i as int]);
        proof {
            reveal_with_fuel(Seq::filter, 1);
        }
        assert(kept_rows(start.take(i + 1), f) == (if !filter_holds(f, start[i as int]) {
            kept_rows(start.take(i as int), f).push(start[i as int])
        } else {
            kept_rows(start.take(i as int), f)
        }));
        let ghost before = rows@;
        assert(filter_eval_ok(f, start[i as int]));
        if !eval_filter(filter, rows[i].as_slice()) {
            let mut row: Vec<Value> = Vec::new();
            std::mem::swap(&mut row, &mut rows[i]);
            let ghost prev = out@;
            out.push(row);
            assert(crate::value::rows_view(out@) =~= crate::value::rows_view(prev).push(start[i as int]));
        }
        assert forall|j: int| i < j < rows@.len() implies rows@[j] == before[j] by {}
        i = i + 1;
    }
    assert(start.take(start.len() as int) =~= start);
    out
}

/// The error for a missing table.
pub fn table_not_found(name: &str) -> (e: Error)
    ensures
        storage_error(e, not_found_msg(name@)),
{
    let mut m = text("table `");
    append_str(&mut m, name);
    append_str(&mut m, "` not found");
    Error::Storage(m)
}

} // verus!
