use sqlrustgo::catalog::Catalog;
use sqlrustgo::database::Database;
use sqlrustgo::error::Error;
use sqlrustgo::executor::Executor;
use sqlrustgo::memory::MemoryStorage;
use sqlrustgo::parser::Parser;
use sqlrustgo::planner::{LogicalPlan, PhysicalPlan, Planner};
use sqlrustgo::value::Value;

#[test]
fn catalog_lifecycle() {
    let mut c = Catalog::new();
    c.create_table("t", vec![("id".into(), "INT".into())]);
    assert!(c.table("t").is_some());
    assert!(c.drop_table("t"));
    assert!(c.table("t").is_none());
}

#[test]
fn catalog_lists_tables_and_replaces_columns() {
    let mut c = Catalog::default();
    c.create_table("a", vec![("x".into(), "Int".into())]);
    c.create_table("b", vec![]);
    c.create_table("a", vec![("y".into(), "Text".into())]);
    let mut names = c.tables();
    names.sort();
    assert_eq!(names, vec!["a".to_string(), "b".to_string()]);
    assert_eq!(c.table("a"), Some(vec![("y".to_string(), "Text".to_string())]));
    assert!(!c.drop_table("zzz"));
}

#[test]
fn smoke_database_lifecycle() {
    let mut db = Database::new_in_memory().unwrap();
    assert!(db.execute("CREATE TABLE t (id INT);").is_ok());
    assert!(db.execute("INSERT INTO t VALUES (1);").is_ok());
    let rows = db.execute("SELECT * FROM t;").unwrap();
    assert_eq!(rows.len(), 1);
}

#[test]
fn smoke_select_with_limit_and_offset() {
    let mut db = Database::new_in_memory().unwrap();
    assert!(db.execute("CREATE TABLE t (id INT);").is_ok());
    for i in 0..10 {
        assert!(db.execute(&format!("INSERT INTO t VALUES ({i});")).is_ok());
    }
    let rows = db.execute("SELECT * FROM t LIMIT 3 OFFSET 2;").unwrap();
    assert_eq!(rows.len(), 3);
}

fn ints(rows: &[Vec<Value>]) -> Vec<i64> {
    rows.iter()
        .map(|r| match r[0] {
            Value::Int(i) => i,
            _ => panic!("expected an integer"),
        })
        .collect()
}

#[test]
fn limit_offset_windows() {
    let mut db = Database::new_in_memory().unwrap();
    db.execute("CREATE TABLE t (id INT);").unwrap();
    for i in 0..10 {
        db.execute(&format!("INSERT INTO t VALUES ({i});")).unwrap();
    }
    assert_eq!(ints(&db.execute("SELECT * FROM t LIMIT 3 OFFSET 2;").unwrap()), vec![2, 3, 4]);
    assert_eq!(ints(&db.execute("SELECT * FROM t OFFSET 8;").unwrap()), vec![8, 9]);
    assert_eq!(ints(&db.execute("SELECT * FROM t LIMIT 0;").unwrap()).len(), 10);
    assert!(db.execute("SELECT * FROM t OFFSET 20;").unwrap().is_empty());
    assert_eq!(ints(&db.execute("SELECT * FROM t LIMIT 5 OFFSET 7;").unwrap()), vec![7, 8, 9]);
}

#[test]
fn order_by_sorts_stably() {
    let mut db = Database::new_in_memory().unwrap();
    db.execute("CREATE TABLE t (a INT, b INT);").unwrap();
    for (a, b) in [(2, 0), (1, 1), (2, 2), (3, 3), (1, 4)] {
        db.execute(&format!("INSERT INTO t VALUES ({a}, {b});")).unwrap();
    }
    let asc = db.execute("SELECT * FROM t ORDER BY a ASC;").unwrap();
    let b_asc: Vec<Value> = asc.iter().map(|r| r[1].clone()).collect();
    assert_eq!(b_asc, vec![Value::Int(1), Value::Int(4), Value::Int(0), Value::Int(2), Value::Int(3)]);
    let desc = db.execute("SELECT * FROM t ORDER BY a DESC LIMIT 3;").unwrap();
    let b_desc: Vec<Value> = desc.iter().map(|r| r[1].clone()).collect();
    assert_eq!(b_desc, vec![Value::Int(3), Value::Int(0), Value::Int(2)]);
}

#[test]
fn where_update_delete_through_sql() {
    let mut db = Database::new_in_memory().unwrap();
    db.execute("CREATE TABLE users (a INT, b TEXT, c INT)").unwrap();
    db.execute("INSERT INTO users VALUES (1, 'Alice', 25)").unwrap();
    db.execute("INSERT INTO users VALUES (2, 'Bob', 17)").unwrap();
    db.execute("INSERT INTO users VALUES (3, 'Carol', 30)").unwrap();
    let adults = db.execute("SELECT * FROM users WHERE c > 18").unwrap();
    assert_eq!(ints(&adults), vec![1, 3]);
    assert_eq!(db.execute("UPDATE users SET b = 'Bobby' WHERE a = 2").unwrap(), vec![vec![Value::Int(1)]]);
    let bob = db.execute("SELECT * FROM users WHERE a = 2").unwrap();
    assert_eq!(bob[0][1], Value::Text("Bobby".to_string()));
    assert_eq!(db.execute("DELETE FROM users WHERE c < 26").unwrap(), vec![vec![Value::Int(2)]]);
    assert_eq!(ints(&db.execute("SELECT * FROM users").unwrap()), vec![3]);
}

#[test]
fn database_errors() {
    let mut db = Database::new_in_memory().unwrap();
    assert!(matches!(db.execute("FOOBAR;"), Err(Error::Parse(_))));
    assert_eq!(
        db.execute("SELECT * FROM missing;"),
        Err(Error::Storage("table `missing` not found".to_string()))
    );
    db.execute("CREATE TABLE t (id INT);").unwrap();
    assert_eq!(
        db.execute("CREATE TABLE t (id INT);"),
        Err(Error::Storage("table `t` already exists".to_string()))
    );
    assert!(db.execute("DROP TABLE t;").is_ok());
    assert!(db.execute("DROP TABLE t;").is_err());
    assert!(db.execute("INSERT INTO t VALUES (1);").is_err());
}

#[test]
fn can_execute_flags_lookups_through_invalid_names() {
    let mut db = Database::new_in_memory().unwrap();
    db.execute("CREATE TABLE t (a INT, b INT);").unwrap();
    // nothing to test yet: no lookup happens
    assert!(db.can_execute("SELECT * FROM t WHERE Age = 1;"));
    assert!(db.can_execute("UPDATE t SET Name = 1;"));
    assert!(!db.can_execute("SELECT * FROM t ORDER BY Name;"));
    assert!(db.can_execute("SELECT * FROM missing ORDER BY Name;"));
    db.execute("INSERT INTO t VALUES (1, 2);").unwrap();
    assert!(!db.can_execute("SELECT * FROM t WHERE Age = 1;"));
    assert!(db.can_execute("SELECT * FROM t WHERE a = 1;"));
    assert!(!db.can_execute("UPDATE t SET Name = 1;"));
    assert!(db.can_execute("UPDATE t SET Name = 1 WHERE a = 5;"));
    assert!(!db.can_execute("DELETE FROM t WHERE Zed = 1;"));
    assert!(db.can_execute("garbage"));
    assert_eq!(db.execute("UPDATE t SET Name = 1 WHERE a = 5;").unwrap(), vec![vec![Value::Int(0)]]);
}

#[test]
fn planner_builds_select_plan() {
    let mut p = Parser::new("SELECT * FROM t WHERE a = 1 ORDER BY b DESC LIMIT 2;");
    let st = p.parse().unwrap();
    let plan = Planner::new().plan(st).unwrap();
    match plan {
        PhysicalPlan::Project { input } => match *input {
            LogicalPlan::Limit { input, limit, offset } => {
                assert_eq!((limit, offset), (2, 0));
                match *input {
                    LogicalPlan::OrderBy { input, column, desc } => {
                        assert_eq!(column, "b");
                        assert!(desc);
                        assert!(matches!(*input, LogicalPlan::Scan { filter: Some(_), .. }));
                    }
                    _ => panic!("expected OrderBy"),
                }
            }
            _ => panic!("expected Limit"),
        },
        _ => panic!("expected Project"),
    }
    let mut p = Parser::new("CREATE TABLE t (a INT, b FLOAT, c TEXT, d BOOL);");
    match Planner::default().plan(p.parse().unwrap()).unwrap() {
        PhysicalPlan::CreateTable { name, columns } => {
            assert_eq!(name, "t");
            assert_eq!(columns[1], ("b".to_string(), "Float".to_string()));
            assert_eq!(columns[3], ("d".to_string(), "Bool".to_string()));
        }
        _ => panic!("expected CreateTable"),
    }
}

#[test]
fn executor_runs_plans_and_rejects_unsupported() {
    let mut ex = Executor::new(MemoryStorage::new(), Catalog::new());
    let create = PhysicalPlan::CreateTable { name: "t".into(), columns: vec![("a".into(), "Int".into())] };
    assert_eq!(ex.execute(&create), Ok(vec![]));
    let ins = PhysicalPlan::Insert { table: "t".into(), values: vec![Value::Int(4)] };
    assert_eq!(ex.execute(&ins), Ok(vec![]));
    let scan = PhysicalPlan::Project { input: Box::new(LogicalPlan::Scan { table: "t".into(), filter: None }) };
    assert_eq!(ex.execute(&scan), Ok(vec![vec![Value::Int(4)]]));
    let bad = PhysicalPlan::Project { input: Box::new(LogicalPlan::DropTable { name: "t".into() }) };
    assert_eq!(ex.execute(&bad), Err(Error::Execution("unsupported logical plan".to_string())));
    let filtered = PhysicalPlan::Project {
        input: Box::new(LogicalPlan::Filter {
            input: Box::new(LogicalPlan::Scan { table: "t".into(), filter: None }),
            predicate: sqlrustgo::ast::Expr::Literal(Value::Int(0)),
        }),
    };
    assert_eq!(ex.execute(&filtered), Ok(vec![]));
}
