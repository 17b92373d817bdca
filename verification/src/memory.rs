//! The in-memory storage engine: named tables of rows, kept in insertion order.
use vstd::prelude::*;
use crate::ast::Expr;
use crate::engine::{
    keep_unmatched, kept_rows, opt_ref_view, table_not_found, update_in_place, StorageEngine,
};
use crate::error::Error;
use crate::name_map::NameMap;
use crate::text::{append_str, text};
use crate::value::{copy_rows, rows_view, Value, ValueV};

verus! {

/// A table: its column definitions and its rows.
pub struct Table {
    pub columns: Vec<(String, String)>,
    pub rows: Vec<Vec<Value>>,
}

/// The rows of each table, by name.
pub open spec fn tables_view(m: Map<Seq<char>, Table>) -> Map<Seq<char>, Seq<Seq<ValueV>>> {
    m.map_values(|t: Table| rows_view(t.rows@))
}

/// The error for a name that is taken.
pub(crate) fn table_exists(name: &str) -> (e: Error)
    ensures
        crate::engine::storage_error(e, crate::engine::exists_msg(name@)),
{
    let mut m = text("table `");
    append_str(&mut m, name);
    append_str(&mut m, "` already exists");
    Error::Storage(m)
}

/// A store whose tables are rows appended in order.
pub struct MemoryStorage {
    tables: NameMap<Table>,
}

impl MemoryStorage {
    /// An empty store.
    pub fn new() -> (s: Self)
        ensures
            s.inv(),
            s.tables() == Map::<Seq<char>, Seq<Seq<ValueV>>>::empty(),
    {
        let s = MemoryStorage { tables: NameMap::new() };
        assert(s.tables() =~= Map::<Seq<char>, Seq<Seq<ValueV>>>::empty());
        s
    }
}

/// Successive inserts into a table append their rows in the order they were
/// made: when each state is the one before it with `vs[i]` inserted into
/// table `t`, the last state holds the first state's rows of `t` followed by
/// `vs`, and every other table as it was.
pub proof fn law_inserts_append(states: Seq<MemoryStorage>, t: Seq<char>, vs: Seq<Seq<ValueV>>)
    requires
        states.len() == vs.len() + 1,
        states[0].tables().contains_key(t),
        forall|i: int| 0 <= i < vs.len() ==> (#[trigger] states[i + 1]).tables()
            == states[i].tables().insert(t, states[i].tables()[t].push(states[i].stored_row(t, vs[i]))),
    ensures
        states.last().tables()[t] == states[0].tables()[t] + vs,
        states.last().tables() == states[0].tables().insert(t, states[0].tables()[t] + vs),
    decreases vs.len(),
{
    if vs.len() > 0 {
        let n = vs.len() - 1;
        let s2 = states.drop_last();
        let v2 = vs.drop_last();
        assert forall|i: int| 0 <= i < v2.len() implies (#[trigger] s2[i + 1]).tables()
            == s2[i].tables().insert(t, s2[i].tables()[t].push(s2[i].stored_row(t, v2[i]))) by {
            assert(s2[i + 1] == states[i + 1] && s2[i] == states[i] && v2[i] == vs[i]);
        }
        law_inserts_append(s2, t, v2);
        assert(s2.last() == states[n]);
        assert(states.last() == states[n + 1]);
        assert(states[0].tables()[t] + v2.push(vs[n]) =~= (states[0].tables()[t] + v2).push(vs[n]));
        assert(v2.push(vs[n]) =~= vs);
    } else {
        assert(states[0].tables()[t] + vs =~= states[0].tables()[t]);
        assert(states[0].tables().insert(t, states[0].tables()[t]) =~= states[0].tables());
    }
}

impl Default for MemoryStorage {
    fn default() -> (s: Self)
        ensures
            s.inv(),
            s.tables() == Map::<Seq<char>, Seq<Seq<ValueV>>>::empty(),
    {
        MemoryStorage::new()
    }
}

impl StorageEngine for MemoryStorage {
    closed spec fn tables(&self) -> Map<Seq<char>, Seq<Seq<ValueV>>> {
        tables_view(self.tables.map())
    }

    closed spec fn inv(&self) -> bool {
        self.tables.wf()
    }

    open spec fn stored_row(&self, t: Seq<char>, values: Seq<ValueV>) -> Seq<ValueV> {
        values
    }

    open spec fn insert_fits(&self, t: Seq<char>, values: Seq<ValueV>) -> bool {
        true
    }

    open spec fn rows_after_delete(&self, t: Seq<char>, filter: Option<crate::ast::ExprV>) -> Seq<Seq<ValueV>> {
        kept_rows(self.tables()[t], filter)
    }

    /// Assignments go by the first letter of the column name.
    open spec fn id_is_key(&self) -> bool {
        false
    }

    /// The filter is evaluated on every row.
    open spec fn delete_ok(&self, t: Seq<char>, filter: Option<crate::ast::ExprV>) -> bool {
        crate::engine::rows_eval_ok(self.tables()[t], filter)
    }

    fn create_table(&mut self, name: &str, columns: Vec<(String, String)>) -> (r: Result<(), Error>) {
        if self.tables.contains_key(name) {
            return Err(table_exists(name));
        }
        let ghost before = self.tables.map();
        self.tables.insert(name.to_string(), Table { columns, rows: Vec::new() });
        proof {
            assert(rows_view(Seq::<Vec<Value>>::empty()) =~= Seq::<Seq<ValueV>>::empty());
            assert(tables_view(self.tables.map()) =~= tables_view(before).insert(name@, Seq::empty()));
        }
        Ok(())
    }

    fn drop_table(&mut self, name: &str) -> (r: Result<(), Error>) {
        let ghost before = self.tables.map();
        match self.tables.remove(name) {
            Some(_) => {
                assert(tables_view(self.tables.map()) =~= tables_view(before).remove(name@));
                Ok(())
            },
            None => Err(table_not_found(name)),
        }
    }

    fn insert(&mut self, table: &str, values: Vec<Value>) -> (r: Result<(), Error>) {
        let ghost before = self.tables.map();
        match self.tables.get_mut(table) {
            Some(entry) => {
                let ghost old_rows = entry.rows@;
                entry.rows.push(values);
                proof {
                    assert(rows_view(entry.rows@) =~= rows_view(old_rows).push(crate::value::row_view(values@)));
                }
                assert(tables_view(self.tables.map()) =~= tables_view(before).insert(
                    table@, tables_view(before)[table@].push(crate::value::row_view(values@))));
                Ok(())
            },
            None => Err(table_not_found(table)),
        }
    }

    fn scan(&self, table: &str) -> (r: Result<Vec<Vec<Value>>, Error>) {
        match self.tables.get(table) {
            Some(entry) => Ok(copy_rows(&entry.rows)),
            None => Err(table_not_found(table)),
        }
    }

    fn update(&mut self, table: &str, assignments: Vec<(String, Value)>, filter: Option<&Expr>) -> (r: Result<usize, Error>) {
        let ghost before = self.tables.map();
        match self.tables.get_mut(table) {
            Some(entry) => {
                let n = update_in_place(&mut entry.rows, &assignments, filter, false);
                assert(tables_view(self.tables.map()) =~= tables_view(before).insert(
                    table@,
                    crate::engine::update_rows(
                        tables_view(before)[table@],
                        crate::ast::assignments_view(assignments@),
                        opt_ref_view(filter),
                        false,
                    ),
                ));
                Ok(n)
            },
            None => Err(table_not_found(table)),
        }
    }

    fn delete(&mut self, table: &str, filter: Option<&Expr>) -> (r: Result<usize, Error>) {
        let ghost before = self.tables.map();
        match self.tables.get_mut(table) {
            Some(entry) => {
                let mut rows: Vec<Vec<Value>> = Vec::new();
                std::mem::swap(&mut rows, &mut entry.rows);
                let before_len = rows.len();
                let kept = keep_unmatched(rows, filter);
                proof {
                    let s = crate::value::rows_view(rows@);
                    s.lemma_filter_len(|r: Seq<ValueV>| !crate::engine::filter_holds(opt_ref_view(filter), r));
                }
                let n = before_len - kept.len();
                entry.rows = kept;
                assert(tables_view(self.tables.map()) =~= tables_view(before).insert(
                    table@,
                    kept_rows(tables_view(before)[table@], opt_ref_view(filter)),
                ));
                Ok(n)
            },
            None => Err(table_not_found(table)),
        }
    }
}

} // verus!
