use sqlrustgo::ast::{BinOp, Expr};
use sqlrustgo::engine::{eval_filter, letter_index, table_not_found, StorageEngine};
use sqlrustgo::error::Error;
use sqlrustgo::memory::MemoryStorage;
use sqlrustgo::memory_v2::{col_index, MemoryStorageV2};
use sqlrustgo::value::Value;

fn eq(left: Expr, right: Expr) -> Expr {
    Expr::Binary {
        left: Box::new(left),
        op: BinOp::Eq,
        right: Box::new(right),
    }
}

fn setup() -> MemoryStorage {
    let mut s = MemoryStorage::new();
    s.create_table(
        "t",
        vec![("a".into(), "INT".into()), ("b".into(), "INT".into())],
    )
    .unwrap();
    s
}

fn fresh() -> MemoryStorage {
    setup()
}

fn setup_v2() -> MemoryStorageV2 {
    let mut s = MemoryStorageV2::new();
    s.create_table(
        "t",
        vec![("id".into(), "INT".into()), ("a".into(), "INT".into())],
    )
    .unwrap();
    s
}

#[test]
fn memory_insert_and_scan() {
    let mut s = setup();
    s.insert("t", vec![Value::Int(1), Value::Int(10)]).unwrap();
    s.insert("t", vec![Value::Int(2), Value::Int(20)]).unwrap();
    let rows = s.scan("t").unwrap();
    assert_eq!(rows.len(), 2);
}

#[test]
fn delete_with_filter() {
    let mut s = setup();
    s.insert("t", vec![Value::Int(1), Value::Int(10)]).unwrap();
    s.insert("t", vec![Value::Int(2), Value::Int(20)]).unwrap();
    let filter = Expr::Binary {
        left: Box::new(Expr::Column("a".into())),
        op: BinOp::Eq,
        right: Box::new(Expr::Literal(Value::Int(1))),
    };
    let n = s.delete("t", Some(&filter)).unwrap();
    assert_eq!(n, 1);
    assert_eq!(s.scan("t").unwrap().len(), 1);
}

#[test]
fn memory_v2_insert_and_scan() {
    let mut s = setup_v2();
    s.insert("t", vec![Value::Int(1), Value::Int(10)]).unwrap();
    s.insert("t", vec![Value::Int(2), Value::Int(20)]).unwrap();
    let rows = s.scan("t").unwrap();
    assert_eq!(rows.len(), 2);
}

#[test]
fn pk_delete_is_fast_path() {
    let mut s = setup_v2();
    for i in 0..1000 {
        s.insert("t", vec![Value::Int(i), Value::Int(i * 10)]).unwrap();
    }
    let n = s
        .delete(
            "t",
            Some(&Expr::Binary {
                left: Box::new(Expr::Column("id".into())),
                op: BinOp::Eq,
                right: Box::new(Expr::Literal(Value::Int(500))),
            }),
        )
        .unwrap();
    assert_eq!(n, 1);
    assert_eq!(s.scan("t").unwrap().len(), 999);
}

#[test]
fn pk_index_repaired_after_swap_remove() {
    let mut s = setup_v2();
    s.insert("t", vec![Value::Int(1), Value::Int(10)]).unwrap();
    s.insert("t", vec![Value::Int(2), Value::Int(20)]).unwrap();
    s.insert("t", vec![Value::Int(3), Value::Int(30)]).unwrap();
    s.delete(
        "t",
        Some(&Expr::Binary {
            left: Box::new(Expr::Column("id".into())),
            op: BinOp::Eq,
            right: Box::new(Expr::Literal(Value::Int(2))),
        }),
    )
    .unwrap();
    assert_eq!(
        s.delete(
            "t",
            Some(&Expr::Binary {
                left: Box::new(Expr::Column("id".into())),
                op: BinOp::Eq,
                right: Box::new(Expr::Literal(Value::Int(3))),
            }),
        )
        .unwrap(),
        1
    );
    assert_eq!(
        s.delete(
            "t",
            Some(&eq(Expr::Column("id".into()), Expr::Literal(Value::Int(1)))),
        )
        .unwrap(),
        1
    );
    assert_eq!(s.scan("t").unwrap().len(), 0);
}

#[test]
fn insert_5_rows_scan_returns_5() {
    let mut s = fresh();
    for i in 0..5 {
        s.insert("t", vec![Value::Int(i), Value::Int(i * 10)])
            .unwrap();
    }
    let rows = s.scan("t").unwrap();
    assert_eq!(rows.len(), 5);
}

#[test]
fn insert_into_unknown_table_errors() {
    let mut s = MemoryStorage::new();
    assert!(s.insert("missing", vec![Value::Int(1)]).is_err());
}

#[test]
fn create_duplicate_table_errors() {
    let mut s = fresh();
    let res = s.create_table("t", vec![("x".into(), "INT".into())]);
    assert!(res.is_err());
}

#[test]
fn drop_existing_table_works() {
    let mut s = fresh();
    assert!(s.drop_table("t").is_ok());
    assert!(s.scan("t").is_err());
}

#[test]
fn drop_unknown_table_errors() {
    let mut s = MemoryStorage::new();
    assert!(s.drop_table("ghost").is_err());
}

#[test]
fn update_modifies_matching_rows() {
    let mut s = fresh();
    s.insert("t", vec![Value::Int(1), Value::Int(10)]).unwrap();
    s.insert("t", vec![Value::Int(2), Value::Int(20)]).unwrap();
    s.insert("t", vec![Value::Int(3), Value::Int(30)]).unwrap();

    let filter = Expr::Binary {
        left: Box::new(Expr::Column("a".into())),
        op: BinOp::Eq,
        right: Box::new(Expr::Literal(Value::Int(2))),
    };
    let n = s
        .update("t", vec![("b".into(), Value::Int(999))], Some(&filter))
        .unwrap();
    assert_eq!(n, 1);
    let rows = s.scan("t").unwrap();
    let b_values: Vec<&Value> = rows.iter().map(|r| &r[1]).collect();
    assert!(b_values.contains(&&Value::Int(999)));
    assert!(b_values.contains(&&Value::Int(10)));
    assert!(b_values.contains(&&Value::Int(30)));
}

#[test]
fn delete_removes_matching_rows() {
    let mut s = fresh();
    for i in 0..10 {
        s.insert("t", vec![Value::Int(i), Value::Int(0)]).unwrap();
    }
    let filter = Expr::Binary {
        left: Box::new(Expr::Column("a".into())),
        op: BinOp::Lt,
        right: Box::new(Expr::Literal(Value::Int(5))),
    };
    let n = s.delete("t", Some(&filter)).unwrap();
    assert_eq!(n, 5);
    let rows = s.scan("t").unwrap();
    assert_eq!(rows.len(), 5);
}

#[test]
fn storage_errors_carry_messages() {
    let mut s = fresh();
    assert_eq!(
        s.create_table("t", vec![]),
        Err(Error::Storage("table `t` already exists".to_string()))
    );
    assert_eq!(
        s.scan("nope"),
        Err(Error::Storage("table `nope` not found".to_string()))
    );
    assert_eq!(table_not_found("x"), Error::Storage("table `x` not found".to_string()));
    assert_eq!(s.update("nope", vec![], None), Err(Error::Storage("table `nope` not found".to_string())));
    assert_eq!(s.delete("nope", None), Err(Error::Storage("table `nope` not found".to_string())));
}

#[test]
fn delete_without_filter_empties_table_and_keeps_order() {
    let mut s = fresh();
    for i in 0..4 {
        s.insert("t", vec![Value::Int(i), Value::Int(i)]).unwrap();
    }
    let odd = Expr::Binary {
        left: Box::new(Expr::Column("a".into())),
        op: BinOp::Ge,
        right: Box::new(Expr::Literal(Value::Int(2))),
    };
    assert_eq!(s.delete("t", Some(&odd)).unwrap(), 2);
    assert_eq!(
        s.scan("t").unwrap(),
        vec![vec![Value::Int(0), Value::Int(0)], vec![Value::Int(1), Value::Int(1)]]
    );
    assert_eq!(s.delete("t", None).unwrap(), 2);
    assert!(s.scan("t").unwrap().is_empty());
}

#[test]
fn update_skips_columns_beyond_row() {
    let mut s = fresh();
    s.insert("t", vec![Value::Int(1)]).unwrap();
    let n = s
        .update("t", vec![("b".into(), Value::Int(5)), ("a".into(), Value::Int(7))], None)
        .unwrap();
    assert_eq!(n, 1);
    assert_eq!(s.scan("t").unwrap(), vec![vec![Value::Int(7)]]);
}

#[test]
fn eval_filter_semantics() {
    let row = vec![Value::Int(3), Value::Null, Value::Bool(false)];
    assert!(eval_filter(None, &row));
    assert!(eval_filter(Some(&Expr::Column("a".into())), &row));
    assert!(!eval_filter(Some(&Expr::Column("b".into())), &row));
    assert!(!eval_filter(Some(&Expr::Column("c".into())), &row));
    assert!(eval_filter(Some(&Expr::Column("z".into())), &row));
    assert!(!eval_filter(Some(&Expr::Literal(Value::Int(0))), &row));
    let both = Expr::Binary {
        left: Box::new(eq(Expr::Column("a".into()), Expr::Literal(Value::Int(3)))),
        op: BinOp::And,
        right: Box::new(Expr::Column("c".into())),
    };
    assert!(!eval_filter(Some(&both), &row));
    let either = Expr::Binary {
        left: Box::new(eq(Expr::Column("a".into()), Expr::Literal(Value::Int(3)))),
        op: BinOp::Or,
        right: Box::new(Expr::Column("c".into())),
    };
    assert!(eval_filter(Some(&either), &row));
    let text_lt = Expr::Binary {
        left: Box::new(Expr::Literal(Value::Text("abc".into()))),
        op: BinOp::Lt,
        right: Box::new(Expr::Literal(Value::Text("abd".into()))),
    };
    assert!(eval_filter(Some(&text_lt), &row));
}

#[test]
fn column_index_maps_id_to_key_column() {
    assert_eq!(col_index("id"), 0);
    assert_eq!(col_index("a"), 0);
    assert_eq!(col_index("b"), 1);
    assert_eq!(col_index("idx"), 8);
    assert_eq!(col_index(""), 0);
    assert_eq!(letter_index("id"), 8);
    assert_eq!(letter_index("c"), 2);
}

#[test]
fn v2_update_of_id_rekeys_row() {
    let mut s = setup_v2();
    s.insert("t", vec![Value::Int(1), Value::Int(10)]).unwrap();
    s.insert("t", vec![Value::Int(2), Value::Int(20)]).unwrap();
    let f = eq(Expr::Column("b".into()), Expr::Literal(Value::Int(10)));
    assert_eq!(s.update("t", vec![("id".into(), Value::Int(7))], Some(&f)).unwrap(), 1);
    assert_eq!(
        s.scan("t").unwrap(),
        vec![vec![Value::Int(7), Value::Int(10)], vec![Value::Int(2), Value::Int(20)]]
    );
    assert_eq!(s.delete("t", Some(&eq(Expr::Column("id".into()), Expr::Literal(Value::Int(1))))).unwrap(), 0);
    assert_eq!(s.delete("t", Some(&eq(Expr::Column("id".into()), Expr::Literal(Value::Int(7))))).unwrap(), 1);
    assert_eq!(s.delete("t", Some(&eq(Expr::Column("id".into()), Expr::Literal(Value::Int(2))))).unwrap(), 1);
    assert!(s.scan("t").unwrap().is_empty());
}

#[test]
fn v2_delete_by_id_after_many_inserts() {
    let mut s = setup_v2();
    for i in 0..1000 {
        s.insert("t", vec![Value::Int(i), Value::Int(i * 10)]).unwrap();
    }
    for i in [500i64, 999, 0, 250] {
        assert_eq!(s.delete("t", Some(&eq(Expr::Column("id".into()), Expr::Literal(Value::Int(i))))).unwrap(), 1);
        assert_eq!(s.delete("t", Some(&eq(Expr::Column("id".into()), Expr::Literal(Value::Int(i))))).unwrap(), 0);
    }
    let rows = s.scan("t").unwrap();
    assert_eq!(rows.len(), 996);
    for r in &rows {
        assert!(![0i64, 250, 500, 999].iter().any(|k| r[0] == Value::Int(*k)));
    }
}

#[test]
fn v2_keyless_insert_gets_row_id() {
    let mut s = setup_v2();
    s.insert("t", vec![Value::Text("x".into())]).unwrap();
    s.insert("t", vec![]).unwrap();
    s.insert("t", vec![Value::Int(9)]).unwrap();
    assert_eq!(
        s.scan("t").unwrap(),
        vec![
            vec![Value::Int(0), Value::Text("x".into())],
            vec![Value::Int(1)],
            vec![Value::Int(9)],
        ]
    );
}

#[test]
fn v2_pk_delete_misses_and_slow_path() {
    let mut s = setup_v2();
    for i in 0..4 {
        s.insert("t", vec![Value::Int(i), Value::Int(i * 10)]).unwrap();
    }
    assert_eq!(s.delete("t", Some(&eq(Expr::Literal(Value::Int(42)), Expr::Column("id".into())))).unwrap(), 0);
    assert_eq!(s.delete("t", Some(&eq(Expr::Literal(Value::Int(0)), Expr::Column("id".into())))).unwrap(), 1);
    // swap-remove moved the last row into the gap
    assert_eq!(s.scan("t").unwrap()[0], vec![Value::Int(3), Value::Int(30)]);
    let big = Expr::Binary {
        left: Box::new(Expr::Column("b".into())),
        op: BinOp::Gt,
        right: Box::new(Expr::Literal(Value::Int(15))),
    };
    assert_eq!(s.delete("t", Some(&big)).unwrap(), 2);
    assert_eq!(s.scan("t").unwrap(), vec![vec![Value::Int(1), Value::Int(10)]]);
    assert_eq!(s.delete("t", Some(&eq(Expr::Column("id".into()), Expr::Literal(Value::Int(1))))).unwrap(), 1);
    assert!(s.scan("t").unwrap().is_empty());
}

#[test]
fn v2_update_of_key_column_keeps_index_usable() {
    let mut s = setup_v2();
    s.insert("t", vec![Value::Int(1), Value::Int(10)]).unwrap();
    s.insert("t", vec![Value::Int(2), Value::Int(20)]).unwrap();
    let f = eq(Expr::Column("b".into()), Expr::Literal(Value::Int(10)));
    assert_eq!(s.update("t", vec![("a".into(), Value::Int(5))], Some(&f)).unwrap(), 1);
    assert_eq!(s.delete("t", Some(&eq(Expr::Column("id".into()), Expr::Literal(Value::Int(1))))).unwrap(), 0);
    assert_eq!(s.delete("t", Some(&eq(Expr::Column("id".into()), Expr::Literal(Value::Int(5))))).unwrap(), 1);
    assert_eq!(s.scan("t").unwrap(), vec![vec![Value::Int(2), Value::Int(20)]]);
}
