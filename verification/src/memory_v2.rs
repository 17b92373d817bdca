//! The in-memory storage engine with a primary-key index.
//!
//! The first column of a row is its primary key when it holds an integer;
//! a row inserted without one gets the table's next row id in front. An
//! index from key to row position makes `DELETE ... WHERE id = N` a
//! constant-time swap-remove.
use std::collections::HashMap;
use vstd::prelude::*;
use crate::ast::{BinOp, Expr, ExprOf, ExprV};
use crate::bytes::str_eq;
use crate::engine::{
    assign_index, assignment_names_ok, column_index, keep_unmatched, kept_rows, name_ok, opt_ref_view,
    table_not_found, update_in_place, update_rows, StorageEngine,
};
use crate::error::Error;
use crate::memory::table_exists;
use crate::name_map::NameMap;
use crate::value::{copy_rows, row_view, rows_view, Val, Value, ValueV};

verus! {

broadcast use vstd::std_specs::hash::group_hash_axioms;

/// The column a name stands for in this store: `id` is the key column, the
/// first; any other name goes by its first letter.
pub fn col_index(name: &str) -> (i: usize)
    requires
        name_ok(name@),
    ensures
        i == assign_index(name@, true),
{
    proof {
        reveal_strlit("id");
    }
    if str_eq(name, "id") {
        0
    } else {
        crate::engine::letter_index(name)
    }
}

// ---------------------------------------------------------------------------
// The model of the index

/// The key a row carries: its first value when that is an integer.
pub open spec fn row_key(row: Seq<ValueV>) -> Option<i64> {
    if row.len() > 0 && row[0] is Int { Some(row[0]->Int_0) } else { None }
}

/// Every index entry names a row that carries its key.
pub open spec fn index_sound(rows: Seq<Seq<ValueV>>, index: Map<i64, usize>) -> bool {
    forall|p: i64| #[trigger] index.contains_key(p) ==> {
        &&& index[p] < rows.len()
        &&& row_key(rows[index[p] as int]) == Some(p)
    }
}

/// The index built from the rows in order: each key maps to the last row carrying it.
pub open spec fn index_of_rows(rows: Seq<Seq<ValueV>>) -> Map<i64, usize>
    decreases rows.len(),
{
    if rows.len() == 0 {
        Map::empty()
    } else {
        let m = index_of_rows(rows.drop_last());
        match row_key(rows.last()) {
            Some(p) => m.insert(p, (rows.len() - 1) as usize),
            None => m,
        }
    }
}

/// The rows after removing the one at `i`, the last row taking its place.
pub open spec fn swap_removed(rows: Seq<Seq<ValueV>>, i: int) -> Seq<Seq<ValueV>> {
    rows.update(i, rows.last()).drop_last()
}

/// The index after the row filed under `p` is swap-removed: `p` is dropped
/// and the row moved from the end into the gap is filed at its new place.
pub open spec fn repaired_index(rows: Seq<Seq<ValueV>>, m: Map<i64, usize>, p: i64) -> Map<i64, usize> {
    let i = m[p] as int;
    let last = rows.len() - 1;
    let m1 = m.remove(p);
    if i != last {
        match row_key(rows[last]) {
            Some(q) => m1.insert(q, i as usize),
            None => m1,
        }
    } else {
        m1
    }
}

/// The key of a filter of the form `id = N` or `N = id`, with `N` an integer literal.
pub open spec fn pk_eq(f: Option<ExprV>) -> Option<i64> {
    match f {
        Some(ExprOf::Binary { left, op: BinOp::Eq, right }) => match (*left, *right) {
            (ExprOf::Column(c), ExprOf::Literal(Val::Int(n))) => if c == "id"@ { Some(n) } else { None },
            (ExprOf::Literal(Val::Int(n)), ExprOf::Column(c)) => if c == "id"@ { Some(n) } else { None },
            _ => None,
        },
        _ => None,
    }
}

/// Some assignment writes the key column.
pub open spec fn writes_key(a: Seq<(Seq<char>, ValueV)>) -> bool {
    exists|i: int| 0 <= i < a.len() && assign_index(#[trigger] a[i].0, true) == 0
}

proof fn lemma_assign_keeps_key(row: Seq<ValueV>, a: Seq<(Seq<char>, ValueV)>)
    requires
        !writes_key(a),
    ensures
        row_key(crate::engine::assign_row(row, a, true)) == row_key(row),
        crate::engine::assign_row(row, a, true).len() == row.len(),
    decreases a.len(),
{
    if a.len() > 0 {
        assert(!writes_key(a.drop_last())) by {
            if writes_key(a.drop_last()) {
                let i = choose|i: int| 0 <= i < a.drop_last().len() && assign_index(#[trigger] a.drop_last()[i].0, true) == 0;
                assert(a[i] == a.drop_last()[i]);
            }
        }
        lemma_assign_keeps_key(row, a.drop_last());
        assert(assign_index(a[a.len() - 1].0, true) != 0);
    }
}

proof fn lemma_update_keeps_index(
    rows: Seq<Seq<ValueV>>,
    a: Seq<(Seq<char>, ValueV)>,
    f: Option<ExprV>,
    index: Map<i64, usize>,
)
    requires
        !writes_key(a),
        index_sound(rows, index),
    ensures
        index_sound(update_rows(rows, a, f, true), index),
{
    let u = update_rows(rows, a, f, true);
    assert forall|p: i64| #[trigger] index.contains_key(p) implies index[p] < u.len()
        && row_key(u[index[p] as int]) == Some(p) by {
        lemma_assign_keeps_key(rows[index[p] as int], a);
    }
}

proof fn lemma_index_of_rows_sound(rows: Seq<Seq<ValueV>>)
    requires
        rows.len() <= usize::MAX,
    ensures
        index_sound(rows, index_of_rows(rows)),
    decreases rows.len(),
{
    if rows.len() > 0 {
        let d = rows.drop_last();
        lemma_index_of_rows_sound(d);
        let m = index_of_rows(d);
        let m2 = index_of_rows(rows);
        let n = rows.len() - 1;
        assert(rows.last() == rows[n]);
        assert forall|p: i64| #[trigger] m2.contains_key(p) implies m2[p] < rows.len()
            && row_key(rows[m2[p] as int]) == Some(p) by {
            match row_key(rows.last()) {
                Some(q) => {
                    assert(m2 == m.insert(q, n as usize));
                    if p == q {
                        assert(m2[p] as int == n);
                    } else {
                        assert(m.contains_key(p));
                        assert(m2[p] == m[p]);
                        assert(d[m[p] as int] == rows[m[p] as int]);
                    }
                },
                None => {
                    assert(m2 == m);
                    assert(m.contains_key(p));
                    assert(d[m[p] as int] == rows[m[p] as int]);
                },
            }
        }
    }
}

proof fn lemma_sound_after_insert(before: Map<Seq<char>, PkTable>, t: Seq<char>, e: PkTable)
    requires
        forall|k: Seq<char>| #[trigger] before.contains_key(k) ==> table_ok(before[k]),
        table_ok(e),
    ensures
        forall|k: Seq<char>| #[trigger] before.insert(t, e).contains_key(k) ==> table_ok(before.insert(t, e)[k]),
{
    assert forall|k: Seq<char>| #[trigger] before.insert(t, e).contains_key(k) implies table_ok(before.insert(t, e)[k]) by {
        if k != t {
            assert(before.contains_key(k));
        }
    }
}

/// Removing a row by swapping the last row into its place removes exactly
/// that row: one row fewer, and every other row kept.
pub proof fn law_swap_removed(rows: Seq<Seq<ValueV>>, i: int)
    requires
        0 <= i < rows.len(),
    ensures
        swap_removed(rows, i).len() == rows.len() - 1,
        swap_removed(rows, i).to_multiset() == rows.to_multiset().remove(rows[i]),
{
    broadcast use vstd::multiset::group_multiset_axioms;
    let u = rows.update(i, rows.last());
    vstd::seq_lib::to_multiset_update(rows, i, rows.last());
    vstd::seq_lib::to_multiset_build(u.drop_last(), u.last());
    assert(u.drop_last().push(u.last()) =~= u);
    assert(u.last() == rows.last());
    vstd::seq_lib::to_multiset_contains(rows, rows[i]);
    assert(rows.contains(rows[i]));
    let x = u.drop_last().to_multiset();
    let y = rows.to_multiset().remove(rows[i]);
    assert forall|v: Seq<ValueV>| x.count(v) == y.count(v) by {
        assert(x.insert(rows.last()).count(v) == rows.to_multiset().insert(rows.last()).remove(rows[i]).count(v));
    }
    assert(x =~= y);
}

/// No two rows carry the same key.
pub open spec fn keys_distinct(rows: Seq<Seq<ValueV>>) -> bool {
    forall|i: int, j: int| 0 <= i < j < rows.len() && (#[trigger] row_key(rows[i])) is Some
        ==> row_key(rows[i]) != #[trigger] row_key(rows[j])
}

/// The index built from the rows files every key some row carries; when no
/// two rows carry the same key, each key is filed under the row that carries it.
pub proof fn law_index_of_rows_complete(rows: Seq<Seq<ValueV>>)
    requires
        rows.len() <= usize::MAX,
    ensures
        forall|j: int| 0 <= j < rows.len() && (#[trigger] row_key(rows[j])) is Some
            ==> index_of_rows(rows).contains_key(row_key(rows[j])->Some_0),
        keys_distinct(rows) ==> forall|j: int| 0 <= j < rows.len() && (#[trigger] row_key(rows[j])) is Some
            ==> index_of_rows(rows)[row_key(rows[j])->Some_0] == j,
    decreases rows.len(),
{
    if rows.len() > 0 {
        let d = rows.drop_last();
        law_index_of_rows_complete(d);
        let n = rows.len() - 1;
        let m = index_of_rows(d);
        let m2 = index_of_rows(rows);
        assert(rows.last() == rows[n]);
        assert(m2 == (match row_key(rows[n]) {
            Some(q) => m.insert(q, n as usize),
            None => m,
        }));
        assert forall|j: int| 0 <= j < rows.len() && (#[trigger] row_key(rows[j])) is Some
            implies m2.contains_key(row_key(rows[j])->Some_0) by {
            if j < n {
                assert(d[j] == rows[j]);
            }
        }
        if keys_distinct(rows) {
            assert(keys_distinct(d)) by {
                assert forall|i: int, j: int| 0 <= i < j < d.len() && (#[trigger] row_key(d[i])) is Some
                    implies row_key(d[i]) != #[trigger] row_key(d[j]) by {
                    assert(d[i] == rows[i] && d[j] == rows[j]);
                }
            }
            assert forall|j: int| 0 <= j < rows.len() && (#[trigger] row_key(rows[j])) is Some
                implies m2[row_key(rows[j])->Some_0] == j by {
                if j < n {
                    assert(d[j] == rows[j]);
                    assert(row_key(rows[j]) != row_key(rows[n]));
                }
            }
        }
    }
}

/// Keeping some of the rows, in order, keeps their keys distinct.
proof fn lemma_filter_keys_distinct(rows: Seq<Seq<ValueV>>, pred: spec_fn(Seq<ValueV>) -> bool)
    requires
        keys_distinct(rows),
    ensures
        keys_distinct(rows.filter(pred)),
    decreases rows.len(),
{
    reveal(Seq::filter);
    if rows.len() > 0 {
        let d = rows.drop_last();
        let n = rows.len() - 1;
        assert(keys_distinct(d)) by {
            assert forall|i: int, j: int| 0 <= i < j < d.len() && (#[trigger] row_key(d[i])) is Some
                implies row_key(d[i]) != #[trigger] row_key(d[j]) by {
                assert(d[i] == rows[i] && d[j] == rows[j]);
            }
        }
        lemma_filter_keys_distinct(d, pred);
        let f = d.filter(pred);
        if pred(rows.last()) {
            let g = f.push(rows.last());
            assert(rows.filter(pred) == g);
            assert forall|i: int| 0 <= i < f.len() && (#[trigger] row_key(f[i])) is Some
                implies row_key(f[i]) != row_key(rows.last()) by {
                d.lemma_filter_contains_rev(pred, f[i]);
                let j = choose|j: int| 0 <= j < d.len() && d[j] == f[i];
                assert(d[j] == rows[j]);
                assert(rows.last() == rows[n]);
            }
            assert forall|a: int, b: int| 0 <= a < b < g.len() && (#[trigger] row_key(g[a])) is Some
                implies row_key(g[a]) != #[trigger] row_key(g[b]) by {
                assert(g[a] == f[a]);
                if b < f.len() {
                    assert(g[b] == f[b]);
                }
            }
        } else {
            assert(rows.filter(pred) == f);
        }
    }
}

/// The index built from the rows depends only on the key each row carries.
proof fn lemma_index_same_keys(a: Seq<Seq<ValueV>>, b: Seq<Seq<ValueV>>)
    requires
        a.len() == b.len(),
        forall|j: int| 0 <= j < a.len() ==> row_key(#[trigger] a[j]) == row_key(b[j]),
    ensures
        index_of_rows(a) == index_of_rows(b),
    decreases a.len(),
{
    if a.len() > 0 {
        let (da, db) = (a.drop_last(), b.drop_last());
        assert forall|j: int| 0 <= j < da.len() implies row_key(#[trigger] da[j]) == row_key(db[j]) by {
            assert(da[j] == a[j] && db[j] == b[j]);
        }
        lemma_index_same_keys(da, db);
        assert(row_key(a.last()) == row_key(b.last()));
    }
}

/// An update that writes no key column leaves every row's key, and so the
/// index built from the rows, as it was.
pub proof fn law_update_keeps_keys(
    rows: Seq<Seq<ValueV>>,
    a: Seq<(Seq<char>, ValueV)>,
    f: Option<ExprV>,
)
    requires
        !writes_key(a),
    ensures
        forall|j: int| 0 <= j < rows.len() ==> row_key(#[trigger] update_rows(rows, a, f, true)[j]) == row_key(rows[j]),
        index_of_rows(update_rows(rows, a, f, true)) == index_of_rows(rows),
{
    let u = update_rows(rows, a, f, true);
    assert forall|j: int| 0 <= j < rows.len() implies row_key(#[trigger] u[j]) == row_key(rows[j]) by {
        lemma_assign_keeps_key(rows[j], a);
    }
    lemma_index_same_keys(u, rows);
}

/// Inserting a keyed row files its key under the new row's position.
pub proof fn law_index_of_rows_push(rows: Seq<Seq<ValueV>>, r: Seq<ValueV>)
    requires
        row_key(r) is Some,
    ensures
        index_of_rows(rows.push(r)) == index_of_rows(rows).insert(row_key(r)->Some_0, rows.len() as usize),
{
    assert(rows.push(r).drop_last() =~= rows);
}

/// When no two rows carry the same key and the index is the one built from
/// the rows, removing the row filed under `p` by a swap and repairing the
/// index gives the index built from the remaining rows, which still carry
/// distinct keys.
pub proof fn law_fast_delete_keeps_index_exact(rows: Seq<Seq<ValueV>>, p: i64)
    requires
        rows.len() <= usize::MAX,
        keys_distinct(rows),
        index_of_rows(rows).contains_key(p),
    ensures
        keys_distinct(swap_removed(rows, index_of_rows(rows)[p] as int)),
        repaired_index(rows, index_of_rows(rows), p) == index_of_rows(swap_removed(rows, index_of_rows(rows)[p] as int)),
{
    let m = index_of_rows(rows);
    let i = m[p] as int;
    let n = rows.len();
    let last = n - 1;
    let r2 = swap_removed(rows, i);
    lemma_index_of_rows_sound(rows);
    law_index_of_rows_complete(rows);
    assert(0 <= i < n && row_key(rows[i]) == Some(p));
    assert(r2.len() == n - 1);
    assert forall|j: int| 0 <= j < r2.len() implies #[trigger] r2[j] == (if j == i { rows[last] } else { rows[j] }) by {}
    assert(keys_distinct(r2)) by {
        assert forall|a: int, b: int| 0 <= a < b < r2.len() && (#[trigger] row_key(r2[a])) is Some
            implies row_key(r2[a]) != #[trigger] row_key(r2[b]) by {
            let ia = if a == i { last } else { a };
            let ib = if b == i { last } else { b };
            assert(r2[a] == rows[ia] && r2[b] == rows[ib]);
            if ia < ib {
            } else {
                assert(ib < ia);
                if row_key(rows[ib]) is Some {
                    assert(row_key(rows[ib]) != row_key(rows[ia]));
                }
            }
        }
    }
    lemma_index_of_rows_sound(r2);
    law_index_of_rows_complete(r2);
    let lhs = repaired_index(rows, m, p);
    let rhs = index_of_rows(r2);
    assert forall|k: i64| #[trigger] lhs.contains_key(k) implies rhs.contains_key(k) && rhs[k] == lhs[k] by {
        if i != last && row_key(rows[last]) == Some(k) {
            assert(r2[i] == rows[last]);
            assert(row_key(r2[i]) == Some(k));
        } else {
            assert(k != p && m.contains_key(k));
            let j = m[k] as int;
            assert(row_key(rows[j]) == Some(k));
            assert(j != i);
            if j == last {
                assert(i == last);
            }
            assert(r2[j] == rows[j]);
            assert(row_key(r2[j]) == Some(k));
        }
    }
    assert forall|k: i64| #[trigger] rhs.contains_key(k) implies lhs.contains_key(k) by {
        let j = rhs[k] as int;
        assert(row_key(r2[j]) == Some(k));
        if j == i {
            assert(r2[i] == rows[last]);
        } else {
            assert(r2[j] == rows[j]);
            assert(row_key(rows[j]) == Some(k));
            assert(m.contains_key(k));
            if k == p {
                assert(m[p] as int == j);
            }
        }
    }
    assert(lhs =~= rhs);
}

/// A table: column definitions, rows, the key index and the next row id.
struct PkTable {
    columns: Vec<(String, String)>,
    rows: Vec<Vec<Value>>,
    pk_index: HashMap<i64, usize>,
    next_id: i64,
}

spec fn pk_tables_view(m: Map<Seq<char>, PkTable>) -> Map<Seq<char>, Seq<Seq<ValueV>>> {
    m.map_values(|t: PkTable| rows_view(t.rows@))
}

spec fn table_ok(t: PkTable) -> bool {
    index_sound(rows_view(t.rows@), t.pk_index@)
}

/// Rebuilds the index from the rows.
fn build_index(rows: &Vec<Vec<Value>>) -> (m: HashMap<i64, usize>)
    ensures
        m@ == index_of_rows(rows_view(rows@)),
        index_sound(rows_view(rows@), m@),
{
    let ghost rv = rows_view(rows@);
    let mut m: HashMap<i64, usize> = HashMap::new();
    let mut i: usize = 0;
    while i < rows.len()
        invariant
            0 <= i <= rows@.len(),
            rv == rows_view(rows@),
            m@ == index_of_rows(rv.take(i as int)),
        decreases rows@.len() - i,
    {
        assert(rv.take(i + 1).drop_last() =~= rv.take(i as int));
        assert(rv.take(i + 1).last() == rv[i as int]);
        let row = &rows[i];
        if row.len() > 0 {
            match &row[0] {
                Val::Int(p) => {
                    m.insert(*p, i);
                },
                _ => {},
            }
        }
        i = i + 1;
    }
    assert(rv.take(rows@.len() as int) =~= rv);
    proof {
        lemma_index_of_rows_sound(rv);
    }
    m
}

/// Whether some assignment writes the key column: its name is `id`, or is
/// empty or starts with `a`.
fn assignments_write_key(a: &Vec<(String, Value)>) -> (b: bool)
    ensures
        b == writes_key(crate::ast::assignments_view(a@)),
{
    let ghost av = crate::ast::assignments_view(a@);
    let mut i: usize = 0;
    while i < a.len()
        invariant
            0 <= i <= a@.len(),
            av == crate::ast::assignments_view(a@),
            forall|j: int| 0 <= j < i ==> assign_index(#[trigger] av[j].0, true) != 0,
        decreases a@.len() - i,
    {
        let b = a[i].0.as_str().as_bytes();
        assert(av[i as int].0 == a@[i as int].0@);
        proof {
            reveal_strlit("id");
        }
        if str_eq(a[i].0.as_str(), "id") || b.len() == 0 || b[0] == 97u8 {
            assert(assign_index(av[i as int].0, true) == 0);
            return true;
        }
        i = i + 1;
    }
    false
}

/// The key of a filter of the form `id = N` or `N = id`.
fn extract_pk_eq(filter: Option<&Expr>) -> (r: Option<i64>)
    ensures
        r == pk_eq(opt_ref_view(filter)),
{
    match filter {
        Some(ExprOf::Binary { left, op: BinOp::Eq, right }) => {
            let l: &Expr = left;
            let rr: &Expr = right;
            proof {
                reveal_strlit("id");
                assert(opt_ref_view(filter) == Some(ExprOf::Binary { left: Box::new(l@), op: BinOp::Eq, right: Box::new(rr@) }));
            }
            match (l, rr) {
                (ExprOf::Column(c), ExprOf::Literal(Val::Int(n))) => {
                    if str_eq(c.as_str(), "id") { Some(*n) } else { None }
                },
                (ExprOf::Literal(Val::Int(n)), ExprOf::Column(c)) => {
                    if str_eq(c.as_str(), "id") { Some(*n) } else { None }
                },
                _ => None,
            }
        },
        _ => None,
    }
}

/// A store whose tables keep an index from primary key to row position.
pub struct MemoryStorageV2 {
    tables: NameMap<PkTable>,
}

impl MemoryStorageV2 {
    /// The key index of each table.
    pub closed spec fn indexes(&self) -> Map<Seq<char>, Map<i64, usize>> {
        self.tables.map().map_values(|e: PkTable| e.pk_index@)
    }

    /// The row id the next keyless insert into each table takes.
    pub closed spec fn next_ids(&self) -> Map<Seq<char>, i64> {
        self.tables.map().map_values(|e: PkTable| e.next_id)
    }

    /// The key index of table `t`.
    pub open spec fn pk_index(&self, t: Seq<char>) -> Map<i64, usize> {
        self.indexes()[t]
    }

    /// The row id the next keyless insert into table `t` takes.
    pub open spec fn next_id(&self, t: Seq<char>) -> i64 {
        self.next_ids()[t]
    }

    /// The key index of table `t` is the one built from its rows.
    pub open spec fn index_exact(&self, t: Seq<char>) -> bool {
        self.pk_index(t) == index_of_rows(self.tables()[t])
    }

    /// The key an insert of `values` into table `t` files the new row under.
    pub open spec fn stored_key(&self, t: Seq<char>, values: Seq<ValueV>) -> i64 {
        match row_key(values) {
            Some(k) => k,
            None => self.next_id(t),
        }
    }

    /// The key index of table `t` after a delete with `filter`: a key lookup
    /// removes the key and re-files the row moved into the gap; any other
    /// filter rebuilds the index from the rows kept.
    pub open spec fn index_after_delete(&self, t: Seq<char>, filter: Option<ExprV>) -> Map<i64, usize> {
        match pk_eq(filter) {
            Some(p) => if self.pk_index(t).contains_key(p) {
                repaired_index(self.tables()[t], self.pk_index(t), p)
            } else {
                self.pk_index(t)
            },
            None => index_of_rows(kept_rows(self.tables()[t], filter)),
        }
    }

    /// An empty store.
    pub fn new() -> (s: Self)
        ensures
            s.inv(),
            s.tables() == Map::<Seq<char>, Seq<Seq<ValueV>>>::empty(),
    {
        let s = MemoryStorageV2 { tables: NameMap::new() };
        assert(s.tables() =~= Map::<Seq<char>, Seq<Seq<ValueV>>>::empty());
        s
    }
}

impl Default for MemoryStorageV2 {
    fn default() -> (s: Self)
        ensures
            s.inv(),
            s.tables() == Map::<Seq<char>, Seq<Seq<ValueV>>>::empty(),
    {
        MemoryStorageV2::new()
    }
}

impl StorageEngine for MemoryStorageV2 {
    closed spec fn tables(&self) -> Map<Seq<char>, Seq<Seq<ValueV>>> {
        pk_tables_view(self.tables.map())
    }

    /// The table names are distinct and every table's key index is sound for its rows.
    open spec fn inv(&self) -> bool {
        &&& self.names_wf()
        &&& self.indexes_sound()
    }

    open spec fn stored_row(&self, t: Seq<char>, values: Seq<ValueV>) -> Seq<ValueV> {
        if row_key(values) is Some {
            values
        } else {
            seq![Val::Int(self.next_id(t))] + values
        }
    }

    open spec fn insert_fits(&self, t: Seq<char>, values: Seq<ValueV>) -> bool {
        !self.tables().contains_key(t) || row_key(values) is Some || self.next_id(t) < i64::MAX
    }

    open spec fn rows_after_delete(&self, t: Seq<char>, filter: Option<ExprV>) -> Seq<Seq<ValueV>> {
        match pk_eq(filter) {
            Some(p) => if self.pk_index(t).contains_key(p) {
                swap_removed(self.tables()[t], self.pk_index(t)[p] as int)
            } else {
                self.tables()[t]
            },
            None => kept_rows(self.tables()[t], filter),
        }
    }

    /// An assignment to `id` writes the key column.
    open spec fn id_is_key(&self) -> bool {
        true
    }

    /// A key lookup evaluates nothing; any other filter is evaluated on every row.
    open spec fn delete_ok(&self, t: Seq<char>, filter: Option<ExprV>) -> bool {
        pk_eq(filter) is Some || crate::engine::rows_eval_ok(self.tables()[t], filter)
    }

    fn create_table(&mut self, name: &str, columns: Vec<(String, String)>) -> (r: Result<(), Error>)
        ensures
            r is Ok ==> final(self).indexes() == old(self).indexes().insert(name@, Map::empty())
                && final(self).next_ids() == old(self).next_ids().insert(name@, 0i64),
            r is Ok ==> final(self).index_exact(name@) && keys_distinct(final(self).tables()[name@]),
            r is Err ==> final(self).indexes() == old(self).indexes() && final(self).next_ids() == old(self).next_ids(),
    {
        if self.tables.contains_key(name) {
            return Err(table_exists(name));
        }
        let ghost before = self.tables.map();
        self.tables.insert(
            name.to_string(),
            PkTable { columns, rows: Vec::new(), pk_index: HashMap::new(), next_id: 0 },
        );
        proof {
            assert(rows_view(Seq::<Vec<Value>>::empty()) =~= Seq::<Seq<ValueV>>::empty());
            assert(pk_tables_view(self.tables.map()) =~= pk_tables_view(before).insert(name@, Seq::empty()));
            assert(table_ok(self.tables.map()[name@]));
            lemma_sound_after_insert(before, name@, self.tables.map()[name@]);
            assert(self.indexes() =~= before.map_values(|e: PkTable| e.pk_index@).insert(name@, Map::empty()));
            assert(self.next_ids() =~= before.map_values(|e: PkTable| e.next_id).insert(name@, 0i64));
        }
        Ok(())
    }

    fn drop_table(&mut self, name: &str) -> (r: Result<(), Error>)
        ensures
            r is Ok ==> final(self).indexes() == old(self).indexes().remove(name@)
                && final(self).next_ids() == old(self).next_ids().remove(name@),
            r is Err ==> final(self).indexes() == old(self).indexes() && final(self).next_ids() == old(self).next_ids(),
    {
        let ghost before = self.tables.map();
        match self.tables.remove(name) {
            Some(_) => {
                assert(pk_tables_view(self.tables.map()) =~= pk_tables_view(before).remove(name@));
                assert forall|k: Seq<char>| #[trigger] self.tables.map().contains_key(k) implies table_ok(self.tables.map()[k]) by {
                    assert(before.contains_key(k));
                }
                assert(self.indexes() =~= before.map_values(|e: PkTable| e.pk_index@).remove(name@));
                assert(self.next_ids() =~= before.map_values(|e: PkTable| e.next_id).remove(name@));
                Ok(())
            },
            None => Err(table_not_found(name)),
        }
    }

    fn insert(&mut self, table: &str, values: Vec<Value>) -> (r: Result<(), Error>)
        ensures
            r is Ok ==> final(self).indexes() == old(self).indexes().insert(
                table@,
                old(self).pk_index(table@).insert(
                    old(self).stored_key(table@, row_view(values@)),
                    old(self).tables()[table@].len() as usize,
                ),
            ) && final(self).next_ids() == old(self).next_ids().insert(
                table@,
                if row_key(row_view(values@)) is Some { old(self).next_id(table@) } else { (old(self).next_id(table@) + 1) as i64 },
            ),
            r is Ok && old(self).index_exact(table@) ==> final(self).index_exact(table@),
            r is Ok && old(self).index_exact(table@) && keys_distinct(old(self).tables()[table@])
                && !old(self).pk_index(table@).contains_key(old(self).stored_key(table@, row_view(values@)))
                ==> keys_distinct(final(self).tables()[table@]),
            r is Err ==> final(self).indexes() == old(self).indexes() && final(self).next_ids() == old(self).next_ids(),
    {
        let ghost before = self.tables.map();
        let ghost old_self = *self;
        match self.tables.get_mut(table) {
            Some(entry) => {
                let ghost old_rows = rows_view(entry.rows@);
                let ghost old_m = entry.pk_index@;
                assert(table_ok(before[table@]));
                let ghost stored = old_self.stored_row(table@, row_view(values@));
                let mut values = values;
                let first: Option<i64> = if values.len() > 0 {
                    match &values[0] {
                        Val::Int(i) => Some(*i),
                        _ => None,
                    }
                } else {
                    None
                };
                let pk: i64 = if let Some(i) = first {
                    i
                } else {
                    let id = entry.next_id;
                    entry.next_id = entry.next_id + 1;
                    values.insert(0, Val::Int(id));
                    proof {
                        assert(row_view(values@) =~= stored);
                    }
                    id
                };
                let row_idx = entry.rows.len();
                entry.rows.push(values);
                entry.pk_index.insert(pk, row_idx);
                proof {
                    assert(rows_view(entry.rows@) =~= old_rows.push(stored));
                    assert(row_key(stored) == Some(pk));
                    let rv2 = rows_view(entry.rows@);
                    let m2 = entry.pk_index@;
                    assert forall|r: i64| #[trigger] m2.contains_key(r) implies m2[r] < rv2.len()
                        && row_key(rv2[m2[r] as int]) == Some(r) by {
                        if r != pk {
                            assert(old_m.contains_key(r));
                            assert(rv2[old_m[r] as int] == old_rows[old_m[r] as int]);
                        }
                    }
                    assert(table_ok(*entry));
                }
                assert(pk_tables_view(self.tables.map()) =~= pk_tables_view(before).insert(
                    table@, pk_tables_view(before)[table@].push(stored)));
                proof {
                    lemma_sound_after_insert(before, table@, self.tables.map()[table@]);
                    assert(self.indexes() =~= before.map_values(|e: PkTable| e.pk_index@).insert(
                        table@, old_m.insert(pk, old_rows.len() as usize)));
                    assert(self.next_ids() =~= before.map_values(|e: PkTable| e.next_id).insert(
                        table@, self.tables.map()[table@].next_id));
                    law_index_of_rows_push(old_rows, stored);
                    assert(old_rows.len() == row_idx);
                    law_index_of_rows_complete(old_rows);
                    let g = old_rows.push(stored);
                    if keys_distinct(old_rows) && !old_m.contains_key(pk) && old_m == index_of_rows(old_rows) {
                        assert forall|a: int, b: int| 0 <= a < b < g.len() && (#[trigger] row_key(g[a])) is Some
                            implies row_key(g[a]) != #[trigger] row_key(g[b]) by {
                            assert(g[a] == old_rows[a]);
                            if b < old_rows.len() {
                                assert(g[b] == old_rows[b]);
                            }
                        }
                    }
                }
                Ok(())
            },
            None => Err(table_not_found(table)),
        }
    }

    fn scan(&self, table: &str) -> (r: Result<Vec<Vec<Value>>, Error>) {
        match self.tables.get(table) {
            Some(entry) => Ok(copy_rows(&entry.rows)),
            None => Err(table_not_found(table)),
        }
    }

    fn update(&mut self, table: &str, assignments: Vec<(String, Value)>, filter: Option<&Expr>) -> (r: Result<usize, Error>)
        ensures
            r is Ok ==> final(self).indexes() == (if writes_key(crate::ast::assignments_view(assignments@)) {
                old(self).indexes().insert(table@, index_of_rows(final(self).tables()[table@]))
            } else {
                old(self).indexes()
            }) && final(self).next_ids() == old(self).next_ids(),
            r is Ok && old(self).index_exact(table@) ==> final(self).index_exact(table@),
            r is Ok && keys_distinct(old(self).tables()[table@]) && !writes_key(crate::ast::assignments_view(assignments@))
                ==> keys_distinct(final(self).tables()[table@]),
            r is Err ==> final(self).indexes() == old(self).indexes() && final(self).next_ids() == old(self).next_ids(),
    {
        let ghost before = self.tables.map();
        let ghost av = crate::ast::assignments_view(assignments@);
        let rekey = assignments_write_key(&assignments);
        match self.tables.get_mut(table) {
            Some(entry) => {
                let ghost old_rows = rows_view(entry.rows@);
                assert(table_ok(before[table@]));
                let n = update_in_place(&mut entry.rows, &assignments, filter, true);
                if rekey {
                    entry.pk_index = build_index(&entry.rows);
                    proof {
                        assert(table_ok(*entry));
                    }
                } else {
                    proof {
                        lemma_update_keeps_index(old_rows, av, opt_ref_view(filter), entry.pk_index@);
                        law_update_keeps_keys(old_rows, av, opt_ref_view(filter));
                        let u = update_rows(old_rows, av, opt_ref_view(filter), true);
                        if keys_distinct(old_rows) {
                            assert forall|i: int, j: int| 0 <= i < j < u.len() && (#[trigger] row_key(u[i])) is Some
                                implies row_key(u[i]) != #[trigger] row_key(u[j]) by {
                                assert(row_key(u[i]) == row_key(old_rows[i]));
                                assert(row_key(u[j]) == row_key(old_rows[j]));
                            }
                        }
                        assert(table_ok(*entry));
                    }
                }
                assert(pk_tables_view(self.tables.map()) =~= pk_tables_view(before).insert(
                    table@,
                    update_rows(pk_tables_view(before)[table@], av, opt_ref_view(filter), true),
                ));
                proof {
                    lemma_sound_after_insert(before, table@, self.tables.map()[table@]);
                    if rekey {
                        assert(self.indexes() =~= before.map_values(|e: PkTable| e.pk_index@).insert(
                            table@, index_of_rows(rows_view(self.tables.map()[table@].rows@))));
                    } else {
                        assert(self.indexes() =~= before.map_values(|e: PkTable| e.pk_index@));
                    }
                    assert(self.next_ids() =~= before.map_values(|e: PkTable| e.next_id));
                }
                Ok(n)
            },
            None => Err(table_not_found(table)),
        }
    }

    fn delete(&mut self, table: &str, filter: Option<&Expr>) -> (r: Result<usize, Error>)
        ensures
            r is Ok ==> final(self).indexes() == old(self).indexes().insert(
                table@,
                old(self).index_after_delete(table@, opt_ref_view(filter)),
            ) && final(self).next_ids() == old(self).next_ids(),
            r is Ok && old(self).index_exact(table@) && keys_distinct(old(self).tables()[table@])
                ==> final(self).index_exact(table@) && keys_distinct(final(self).tables()[table@]),
            r is Err ==> final(self).indexes() == old(self).indexes() && final(self).next_ids() == old(self).next_ids(),
    {
        let ghost before = self.tables.map();
        let ghost old_self = *self;
        let key = extract_pk_eq(filter);
        match self.tables.get_mut(table) {
            Some(entry) => {
                let ghost rv = rows_view(entry.rows@);
                let ghost m = entry.pk_index@;
                assert(table_ok(before[table@]));
                match key {
                    Some(pk) => {
                        let found: Option<usize> = match entry.pk_index.get(&pk) {
                            Some(i) => Some(*i),
                            None => None,
                        };
                        match found {
                            Some(idx) => {
                                assert(m.contains_key(pk) && m[pk] == idx);
                                let last = entry.rows.len() - 1;
                                let removed_pk: i64 = if entry.rows[idx].len() > 0 {
                                    match &entry.rows[idx][0] {
                                        Val::Int(i) => *i,
                                        _ => -1,
                                    }
                                } else {
                                    -1
                                };
                                assert(removed_pk == pk);
                                entry.rows.swap_remove(idx);
                                entry.pk_index.remove(&removed_pk);
                                let ghost m1 = entry.pk_index@;
                                assert(rows_view(entry.rows@) =~= swap_removed(rv, idx as int));
                                if idx != last {
                                    if entry.rows[idx].len() > 0 {
                                        match &entry.rows[idx][0] {
                                            Val::Int(q) => {
                                                let q: i64 = *q;
                                                entry.pk_index.insert(q, idx);
                                            },
                                            _ => {},
                                        }
                                    }
                                }
                                proof {
                                    let rv2 = rows_view(entry.rows@);
                                    let m2 = entry.pk_index@;
                                    assert forall|r: i64| #[trigger] m2.contains_key(r) implies m2[r] < rv2.len()
                                        && row_key(rv2[m2[r] as int]) == Some(r) by {
                                        if m1.contains_key(r) && m2[r] == m1[r] {
                                            assert(m.contains_key(r) && m[r] == m1[r]);
                                            assert(r != pk);
                                            if m[r] as int == last as int {
                                                assert(row_key(rv[last as int]) == Some(r));
                                            }
                                        }
                                    }
                                    assert(table_ok(*entry));
                                    assert(rv[last as int] == rv2[idx as int] || idx == last);
                                    assert(m2 =~= repaired_index(rv, m, pk));
                                    assert(rv.len() == last + 1);
                                    if m == index_of_rows(rv) && keys_distinct(rv) {
                                        law_fast_delete_keeps_index_exact(rv, pk);
                                    }
                                }
                                assert(pk_tables_view(self.tables.map()) =~= pk_tables_view(before).insert(
                                    table@,
                                    old_self.rows_after_delete(table@, opt_ref_view(filter)),
                                ));
                                proof {
                                    lemma_sound_after_insert(before, table@, self.tables.map()[table@]);
                                    assert(self.indexes() =~= before.map_values(|e: PkTable| e.pk_index@).insert(
                                        table@, repaired_index(rv, m, pk)));
                                    assert(self.next_ids() =~= before.map_values(|e: PkTable| e.next_id));
                                }
                                Ok(1)
                            },
                            None => {
                                assert(pk_tables_view(self.tables.map()) =~= pk_tables_view(before));
                                proof {
                                    lemma_sound_after_insert(before, table@, self.tables.map()[table@]);
                                    assert(self.indexes() =~= before.map_values(|e: PkTable| e.pk_index@));
                                    assert(self.next_ids() =~= before.map_values(|e: PkTable| e.next_id));
                                }
                                Ok(0)
                            },
                        }
                    },
                    None => {
                        let mut rows: Vec<Vec<Value>> = Vec::new();
                        std::mem::swap(&mut rows, &mut entry.rows);
                        let before_len = rows.len();
                        let kept = keep_unmatched(rows, filter);
                        proof {
                            let s = rows_view(rows@);
                            s.lemma_filter_len(|r: Seq<ValueV>| !crate::engine::filter_holds(opt_ref_view(filter), r));
                            if keys_distinct(s) {
                                lemma_filter_keys_distinct(s, |r: Seq<ValueV>| !crate::engine::filter_holds(opt_ref_view(filter), r));
                            }
                        }
                        let n = before_len - kept.len();
                        entry.rows = kept;
                        entry.pk_index = build_index(&entry.rows);
                        proof {
                            assert(table_ok(*entry));
                        }
                        assert(pk_tables_view(self.tables.map()) =~= pk_tables_view(before).insert(
                            table@,
                            kept_rows(pk_tables_view(before)[table@], opt_ref_view(filter)),
                        ));
                        proof {
                            lemma_sound_after_insert(before, table@, self.tables.map()[table@]);
                            assert(self.indexes() =~= before.map_values(|e: PkTable| e.pk_index@).insert(
                                table@, index_of_rows(kept_rows(pk_tables_view(before)[table@], opt_ref_view(filter)))));
                            assert(self.next_ids() =~= before.map_values(|e: PkTable| e.next_id));
                        }
                        Ok(n)
                    },
                }
            },
            None => Err(table_not_found(table)),
        }
    }
}

impl MemoryStorageV2 {
    /// `DELETE ... WHERE id = N` with `N` in the index removes exactly one row,
    /// one that carries the key `N`; with `N` not in the index it removes none.
    /// Any other filter removes exactly the rows it holds of, as the plain store does.
    pub proof fn law_delete(&self, t: Seq<char>, f: Option<ExprV>)
        requires
            self.inv(),
            self.tables().contains_key(t),
        ensures
            match pk_eq(f) {
                Some(p) => if self.pk_index(t).contains_key(p) {
                    let i = self.pk_index(t)[p] as int;
                    &&& 0 <= i < self.tables()[t].len()
                    &&& row_key(self.tables()[t][i]) == Some(p)
                    &&& self.rows_after_delete(t, f).len() == self.tables()[t].len() - 1
                    &&& self.rows_after_delete(t, f).to_multiset() == self.tables()[t].to_multiset().remove(
                        self.tables()[t][i],
                    )
                } else {
                    self.rows_after_delete(t, f) == self.tables()[t]
                },
                None => self.rows_after_delete(t, f) == kept_rows(self.tables()[t], f),
            },
    {
        self.lemma_index_sound(t);
        if let Some(p) = pk_eq(f) {
            if self.pk_index(t).contains_key(p) {
                law_swap_removed(self.tables()[t], self.pk_index(t)[p] as int);
            }
        }
    }

    /// While no two rows of a table carry the same key and its index is the
    /// one built from its rows, `DELETE ... WHERE id = N` finds a row exactly
    /// when some row carries `N`, removes that row and only it, and leaves the
    /// keys distinct and the index the one built from the remaining rows.
    pub proof fn law_delete_by_key(&self, t: Seq<char>, f: Option<ExprV>)
        requires
            self.inv(),
            self.tables().contains_key(t),
            self.tables()[t].len() <= usize::MAX,
            self.index_exact(t),
            keys_distinct(self.tables()[t]),
            pk_eq(f) is Some,
        ensures
            ({
                let p = pk_eq(f)->Some_0;
                let rows = self.tables()[t];
                let after = self.rows_after_delete(t, f);
                let found = exists|j: int| 0 <= j < rows.len() && row_key(#[trigger] rows[j]) == Some(p);
                &&& self.pk_index(t).contains_key(p) == found
                &&& after.len() == (if found { rows.len() - 1 } else { rows.len() as int })
                &&& forall|j: int| 0 <= j < after.len() ==> row_key(#[trigger] after[j]) != Some(p)
                &&& forall|j: int| 0 <= j < rows.len() && row_key(#[trigger] rows[j]) != Some(p)
                    ==> after.contains(rows[j])
                &&& keys_distinct(after)
                &&& self.index_after_delete(t, f) == index_of_rows(after)
            }),
    {
        let p = pk_eq(f)->Some_0;
        let rows = self.tables()[t];
        let m = self.pk_index(t);
        lemma_index_of_rows_sound(rows);
        law_index_of_rows_complete(rows);
        if m.contains_key(p) {
            let i = m[p] as int;
            assert(row_key(rows[i]) == Some(p));
            law_fast_delete_keeps_index_exact(rows, p);
            let after = swap_removed(rows, i);
            let last = rows.len() - 1;
            assert forall|j: int| 0 <= j < after.len() implies row_key(#[trigger] after[j]) != Some(p) by {
                if j == i {
                    assert(after[j] == rows[last]);
                } else {
                    assert(after[j] == rows[j]);
                }
            }
            assert forall|j: int| 0 <= j < rows.len() && row_key(#[trigger] rows[j]) != Some(p)
                implies after.contains(rows[j]) by {
                if j == last {
                    assert(after[i] == rows[j]);
                } else {
                    assert(after[j] == rows[j]);
                }
            }
        } else {
            assert forall|j: int| 0 <= j < rows.len() implies row_key(#[trigger] rows[j]) != Some(p) by {
                if row_key(rows[j]) == Some(p) {
                    assert(m.contains_key(p));
                }
            }
            assert forall|j: int| 0 <= j < rows.len() && row_key(#[trigger] rows[j]) != Some(p)
                implies rows.contains(rows[j]) by {}
        }
    }

    /// The table names are distinct.
    pub closed spec fn names_wf(&self) -> bool {
        self.tables.wf()
    }

    /// Every table's key index is sound for its rows.
    pub closed spec fn indexes_sound(&self) -> bool {
        forall|t: Seq<char>| #[trigger] self.tables.map().contains_key(t) ==> table_ok(self.tables.map()[t])
    }

    /// In every table, each entry of the key index names a row that carries its key.
    pub proof fn lemma_index_sound(&self, t: Seq<char>)
        requires
            self.inv(),
            self.tables().contains_key(t),
        ensures
            index_sound(self.tables()[t], self.pk_index(t)),
    {
        assert(self.tables.map().contains_key(t));
    }
}

} // verus!
