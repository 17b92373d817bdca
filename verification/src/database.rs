//! A database instance: SQL text in, rows out.
use vstd::prelude::*;
use crate::catalog::Catalog;
use crate::engine::{is_name_ok, rows_eval_ok_exec, update_ok_exec, StorageEngine};
use crate::error::{Error, ErrorV};
use crate::executor::{
    catalog_effect, logical_ok, outcome_matches, physical_effect, plan_ok, pred_ok_exec, CatalogV, Executor,
    Tables,
};
use crate::memory::MemoryStorage;
use crate::parser::{parse_sql, sql_parse_error, Parser};
use crate::planner::{plan_of, LogicalPlan, PhysicalPlan, Planner};
use crate::value::{Value, ValueV};

verus! {

/// Running the statement `sql` stands for on the store looks columns up only
/// through valid names (or `sql` stands for no statement).
pub open spec fn sql_ok(s: MemoryStorage, sql: Seq<char>) -> bool {
    match parse_sql(sql) {
        Some(st) => plan_ok(s, plan_of(st)),
        None => true,
    }
}

/// A database over an in-memory store.
pub struct Database {
    executor: Executor<MemoryStorage>,
}

impl Database {
    /// The store.
    pub closed spec fn store(&self) -> MemoryStorage {
        self.executor.store()
    }

    /// The tables and their rows.
    pub closed spec fn tables(&self) -> Tables {
        self.executor.store().tables()
    }

    /// The catalog's records.
    pub closed spec fn meta(&self) -> CatalogV {
        self.executor.meta()
    }

    pub closed spec fn wf(&self) -> bool {
        self.executor.wf()
    }

    /// An empty database; creating one does not fail.
    pub fn new_in_memory() -> (r: Result<Self, Error>)
        ensures
            r matches Ok(db) && db.wf() && db.tables() == Map::<Seq<char>, Seq<Seq<ValueV>>>::empty()
                && db.meta() == Map::<Seq<char>, Seq<(Seq<char>, Seq<char>)>>::empty(),
    {
        let storage = MemoryStorage::new();
        let catalog = Catalog::new();
        let executor = Executor::new(storage, catalog);
        Ok(Database { executor })
    }

    fn logical_is_ok(&self, p: &LogicalPlan) -> (b: bool)
        requires
            self.wf(),
        ensures
            b == logical_ok(self.tables(), p@),
        decreases p,
    {
        match p {
            LogicalPlan::Scan { table, filter } => match filter {
                Some(e) => match self.executor.storage().scan(table.as_str()) {
                    Ok(rows) => rows.len() == 0 || pred_ok_exec(e),
                    Err(_) => true,
                },
                None => true,
            },
            LogicalPlan::Project { input } => self.logical_is_ok(input),
            LogicalPlan::Filter { input, predicate } => {
                if !self.logical_is_ok(input) {
                    return false;
                }
                match self.executor.execute_logical(input) {
                    Ok(rows) => rows.len() == 0 || pred_ok_exec(predicate),
                    Err(_) => true,
                }
            },
            LogicalPlan::Limit { input, .. } => self.logical_is_ok(input),
            LogicalPlan::OrderBy { input, column, desc: _ } => {
                if !self.logical_is_ok(input) {
                    return false;
                }
                match self.executor.execute_logical(input) {
                    Ok(_) => is_name_ok(column.as_str()),
                    Err(_) => true,
                }
            },
            _ => true,
        }
    }

    fn plan_is_ok(&self, plan: &PhysicalPlan) -> (b: bool)
        requires
            self.wf(),
        ensures
            b == plan_ok(self.store(), plan@),
    {
        match plan {
            PhysicalPlan::Update { table, assignments, filter } => match self.executor.storage().scan(table.as_str()) {
                Ok(rows) => update_ok_exec(&rows, assignments, filter.as_ref()),
                Err(_) => true,
            },
            PhysicalPlan::Delete { table, filter } => match self.executor.storage().scan(table.as_str()) {
                Ok(rows) => rows_eval_ok_exec(&rows, filter.as_ref()),
                Err(_) => true,
            },
            PhysicalPlan::Project { input } => self.logical_is_ok(input),
            _ => true,
        }
    }

    /// Whether [`Database::execute`] can run `sql` on the current tables: its
    /// statement looks columns up only through valid names.
    pub fn can_execute(&self, sql: &str) -> (b: bool)
        requires
            self.wf(),
        ensures
            b == sql_ok(self.store(), sql@),
    {
        let mut parser = Parser::new(sql);
        match parser.parse() {
            Ok(st) => match Planner::new().plan(st) {
                Ok(plan) => self.plan_is_ok(&plan),
                Err(_) => true,
            },
            Err(_) => true,
        }
    }

    /// Runs one SQL statement: parse, plan, execute.
    pub fn execute(&mut self, sql: &str) -> (r: Result<Vec<Vec<Value>>, Error>)
        requires
            old(self).wf(),
            sql_ok(old(self).store(), sql@),
        ensures
            final(self).wf(),
            match parse_sql(sql@) {
                None => {
                    &&& r matches Err(e) && e@ == ErrorV::Parse(sql_parse_error(sql@))
                    &&& final(self).tables() == old(self).tables()
                    &&& final(self).meta() == old(self).meta()
                },
                Some(st) => {
                    &&& final(self).meta() == (if physical_effect(old(self).store(), plan_of(st)) is Ok
                        || plan_of(st) is DropTable {
                        catalog_effect(old(self).meta(), plan_of(st))
                    } else {
                        old(self).meta()
                    })
                    &&& outcome_matches(
                        physical_effect(old(self).store(), plan_of(st)),
                        old(self).tables(),
                        final(self).tables(),
                        r,
                    )
                },
            },
    {
        let mut parser = Parser::new(sql);
        let stmt = parser.parse()?;
        let planner = Planner::new();
        let plan = planner.plan(stmt)?;
        self.executor.execute(&plan)
    }
}

} // verus!
