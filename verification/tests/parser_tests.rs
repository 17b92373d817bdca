use sqlrustgo::ast::{BinOp, DataType, Expr, Statement};
use sqlrustgo::error::Error;
use sqlrustgo::lexer::{Keyword, Lexer, TokenKind};
use sqlrustgo::parser::Parser;
use sqlrustgo::value::Value;

#[test]
fn tokenize_keywords_and_idents() {
    let toks = Lexer::new("SELECT a FROM t").tokenize().unwrap();
    assert!(matches!(toks[0].kind, TokenKind::Keyword(Keyword::Select)));
    assert!(matches!(toks[1].kind, TokenKind::Ident));
}

#[test]
fn tokenize_numbers_and_strings() {
    let toks = Lexer::new("123 'hi'").tokenize().unwrap();
    assert!(matches!(toks[0].kind, TokenKind::Int(123)));
    assert!(matches!(&toks[1].kind, TokenKind::Text(s) if s == "hi"));
}

#[test]
fn tokenize_keyword_select_from_where() {
    let toks = Lexer::new("SELECT * FROM users WHERE id = 1")
        .tokenize()
        .expect("lex");
    assert!(matches!(toks[0].kind, TokenKind::Keyword(Keyword::Select)));
    assert!(matches!(toks[1].kind, TokenKind::Symbol('*')));
    assert!(matches!(toks[2].kind, TokenKind::Keyword(Keyword::From)));
    assert!(matches!(toks[3].kind, TokenKind::Ident));
    assert!(matches!(toks[4].kind, TokenKind::Keyword(Keyword::Where)));
}

#[test]
fn tokenize_all_keywords() {
    let sql = "CREATE TABLE DROP INSERT INTO VALUES SELECT FROM WHERE UPDATE SET DELETE INT FLOAT TEXT BOOL AND OR NULL TRUE FALSE";
    let toks = Lexer::new(sql).tokenize().expect("lex");
    let expected = [
        Keyword::Create, Keyword::Table, Keyword::Drop, Keyword::Insert, Keyword::Into, Keyword::Values,
        Keyword::Select, Keyword::From, Keyword::Where, Keyword::Update, Keyword::SetClause, Keyword::Delete,
        Keyword::Int, Keyword::Float, Keyword::Text, Keyword::Bool, Keyword::And, Keyword::Or, Keyword::Null,
        Keyword::True, Keyword::False,
    ];
    for (i, kw) in expected.iter().enumerate() {
        assert!(
            matches!(&toks[i].kind, TokenKind::Keyword(k) if k == kw),
            "token[{}] expected {:?}, got {:?}",
            i,
            kw,
            toks[i].kind
        );
    }
}

#[test]
fn tokenize_string_with_escaped_quote_fails_or_truncates() {
    let toks = Lexer::new("'unterminated").tokenize();
    assert!(toks.is_err());
}

#[test]
fn tokenize_negative_number_breaks_into_symbol_and_int() {
    let toks = Lexer::new("-42").tokenize().expect("lex");
    assert!(matches!(toks[0].kind, TokenKind::Symbol('-')));
    assert!(matches!(toks[1].kind, TokenKind::Int(42)));
}

#[test]
fn tokenize_identifier_with_underscore_and_digits() {
    let toks = Lexer::new("user_id_42").tokenize().expect("lex");
    assert!(matches!(toks[0].kind, TokenKind::Ident));
    assert_eq!(toks[0].lexeme, "user_id_42");
}

#[test]
fn tokenize_ends_with_eof() {
    let toks = Lexer::new("SELECT").tokenize().expect("lex");
    assert_eq!(toks.len(), 2);
    assert!(matches!(toks[1].kind, TokenKind::Eof));
    let toks = Lexer::new("").tokenize().expect("lex");
    assert_eq!(toks.len(), 1);
    assert!(matches!(toks[0].kind, TokenKind::Eof));
}

#[test]
fn tokenize_keywords_case_insensitive_and_float() {
    let toks = Lexer::new("select 3.140 007").tokenize().expect("lex");
    assert!(matches!(toks[0].kind, TokenKind::Keyword(Keyword::Select)));
    assert!(matches!(&toks[1].kind, TokenKind::Float(s) if s == "3.14"));
    assert_eq!(toks[1].lexeme, "3.140");
    assert!(matches!(toks[2].kind, TokenKind::Int(7)));
}

#[test]
fn tokenize_rejects_unknown_character_and_overflow() {
    assert_eq!(Lexer::new("a ? b").tokenize(), Err(Error::Lexer("unexpected char `?`".to_string())));
    assert_eq!(
        Lexer::new("1 99999999999999999999").tokenize(),
        Err(Error::Lexer("number too large to fit in target type".to_string()))
    );
    assert_eq!(Lexer::new("'abc").tokenize(), Err(Error::Lexer("unterminated string".to_string())));
    assert!(Lexer::new("9223372036854775807").tokenize().is_ok());
    assert_eq!(Lexer::new("x é").tokenize(), Err(Error::Lexer("unexpected char `\u{c3}`".to_string())));
}

#[test]
fn parse_create_table() {
    let mut p = Parser::new("CREATE TABLE users (id INT, name TEXT);");
    let s = p.parse().unwrap();
    match s {
        Statement::CreateTable { name, columns } => {
            assert_eq!(name, "users");
            assert_eq!(columns.len(), 2);
        }
        _ => panic!("wrong stmt"),
    }
}

#[test]
fn parse_insert_and_select() {
    let mut p = Parser::new("INSERT INTO users VALUES (1, 'a');");
    assert!(matches!(p.parse().unwrap(), Statement::Insert { .. }));

    let mut p = Parser::new("SELECT * FROM users WHERE id = 1;");
    let s = p.parse().unwrap();
    match s {
        Statement::Select { table, where_clause, .. } => {
            assert_eq!(table, "users");
            assert!(where_clause.is_some());
        }
        _ => panic!("wrong stmt"),
    }
}

#[test]
fn parse_create_table_with_three_columns() {
    let mut p = Parser::new("CREATE TABLE t (a INT, b TEXT, c BOOL);");
    let s = p.parse().expect("parse");
    match s {
        Statement::CreateTable { name, columns } => {
            assert_eq!(name, "t");
            assert_eq!(columns.len(), 3);
            assert_eq!(columns[0].name, "a");
            assert_eq!(columns[1].name, "b");
            assert_eq!(columns[2].name, "c");
            assert_eq!(columns[2].data_type, DataType::Bool);
        }
        _ => panic!("expected CreateTable"),
    }
}

#[test]
fn parse_insert_with_mixed_types() {
    let mut p = Parser::new("INSERT INTO t VALUES (1, 'hello', TRUE, 3.14);");
    let s = p.parse().expect("parse");
    match s {
        Statement::Insert { table, values } => {
            assert_eq!(table, "t");
            assert_eq!(values.len(), 4);
            assert_eq!(values[0], Value::Int(1));
            assert_eq!(values[1], Value::Text("hello".to_string()));
            assert_eq!(values[2], Value::Bool(true));
            assert_eq!(values[3], Value::Float("3.14".to_string()));
        }
        _ => panic!("expected Insert"),
    }
}

#[test]
fn parse_select_with_where_and_comparison() {
    let mut p = Parser::new("SELECT * FROM users WHERE age > 18;");
    let s = p.parse().expect("parse");
    match s {
        Statement::Select {
            table,
            where_clause,
            limit,
            offset,
            order_by,
        } => {
            assert_eq!(table, "users");
            assert!(where_clause.is_some());
            assert!(limit.is_none());
            assert!(offset.is_none());
            assert!(order_by.is_none());
            assert_eq!(
                where_clause.unwrap(),
                Expr::Binary {
                    left: Box::new(Expr::Column("age".to_string())),
                    op: BinOp::Gt,
                    right: Box::new(Expr::Literal(Value::Int(18))),
                }
            );
        }
        _ => panic!("expected Select"),
    }
}

#[test]
fn parse_select_with_limit() {
    let mut p = Parser::new("SELECT * FROM users LIMIT 10;");
    let s = p.parse().expect("parse");
    match s {
        Statement::Select { limit, offset, .. } => {
            assert_eq!(limit, Some(10));
            assert_eq!(offset, None);
        }
        _ => panic!("expected Select"),
    }
}

#[test]
fn parse_select_with_limit_and_offset() {
    let mut p = Parser::new("SELECT * FROM users LIMIT 10 OFFSET 20;");
    let s = p.parse().expect("parse");
    match s {
        Statement::Select { limit, offset, .. } => {
            assert_eq!(limit, Some(10));
            assert_eq!(offset, Some(20));
        }
        _ => panic!("expected Select"),
    }
}

#[test]
fn parse_select_with_offset_only() {
    let mut p = Parser::new("SELECT * FROM users OFFSET 5;");
    let s = p.parse().expect("parse");
    match s {
        Statement::Select { limit, offset, .. } => {
            assert_eq!(limit, None);
            assert_eq!(offset, Some(5));
        }
        _ => panic!("expected Select"),
    }
}

#[test]
fn parse_select_with_order_by_asc() {
    let mut p = Parser::new("SELECT * FROM users ORDER BY name ASC;");
    let s = p.parse().expect("parse");
    match s {
        Statement::Select { order_by, .. } => {
            assert_eq!(order_by, Some(("name".to_string(), false)));
        }
        _ => panic!("expected Select"),
    }
}

#[test]
fn parse_select_with_order_by_desc() {
    let mut p = Parser::new("SELECT * FROM users ORDER BY age DESC;");
    let s = p.parse().expect("parse");
    match s {
        Statement::Select { order_by, .. } => {
            assert_eq!(order_by, Some(("age".to_string(), true)));
        }
        _ => panic!("expected Select"),
    }
}

#[test]
fn parse_update_with_set_and_where() {
    let mut p = Parser::new("UPDATE users SET name = 'Bob' WHERE id = 1;");
    let s = p.parse().expect("parse");
    match s {
        Statement::Update {
            table,
            assignments,
            where_clause,
        } => {
            assert_eq!(table, "users");
            assert_eq!(assignments.len(), 1);
            assert_eq!(assignments[0].0, "name");
            assert_eq!(assignments[0].1, Value::Text("Bob".to_string()));
            assert!(where_clause.is_some());
        }
        _ => panic!("expected Update"),
    }
}

#[test]
fn parse_delete_with_where() {
    let mut p = Parser::new("DELETE FROM users WHERE id = 99;");
    let s = p.parse().expect("parse");
    match s {
        Statement::Delete {
            table,
            where_clause,
        } => {
            assert_eq!(table, "users");
            assert!(where_clause.is_some());
        }
        _ => panic!("expected Delete"),
    }
}

#[test]
fn parse_error_on_unknown_keyword() {
    let mut p = Parser::new("FOOBAR;");
    assert!(p.parse().is_err());
}

#[test]
fn parse_error_on_unclosed_string() {
    let mut p = Parser::new("INSERT INTO t VALUES ('abc);");
    assert!(p.parse().is_err());
}

#[test]
fn parse_error_on_missing_semicolon_via_trailing_tokens() {
    let mut p = Parser::new("INSERT INTO t VALUES (1) extra_garbage;");
    assert!(p.parse().is_err());
}

#[test]
fn parse_drop_and_errors_are_parse_errors() {
    let mut p = Parser::new("DROP TABLE t");
    assert_eq!(p.parse().unwrap(), Statement::DropTable { name: "t".to_string() });
    let mut p = Parser::new("DROP t;");
    assert!(matches!(p.parse(), Err(Error::Parse(_))));
    let mut p = Parser::new(";;SELECT * FROM t;;");
    assert!(p.parse().is_ok());
}

#[test]
fn parse_where_takes_one_comparison() {
    let mut p = Parser::new("DELETE FROM t WHERE a = 1 AND b < 2;");
    assert!(matches!(p.parse(), Err(Error::Parse(_))));
    let mut p = Parser::new("DELETE FROM t WHERE a = b = 1;");
    match p.parse().unwrap() {
        Statement::Delete { where_clause: Some(Expr::Binary { op, right, .. }), .. } => {
            assert_eq!(op, BinOp::Eq);
            assert!(matches!(*right, Expr::Binary { .. }));
        }
        _ => panic!("expected Delete"),
    }
}

fn parse_error_of(sql: &str) -> Error {
    Parser::new(sql).parse().unwrap_err()
}

#[test]
fn parse_errors_name_the_first_failing_step() {
    assert_eq!(parse_error_of("FOOBAR;"), Error::Parse("unexpected token: Ident".to_string()));
    assert_eq!(parse_error_of("CREATE t (a INT);"), Error::Parse("expected keyword Table".to_string()));
    assert_eq!(parse_error_of("CREATE TABLE t (a INT, b STRING);"), Error::Parse("expected type".to_string()));
    assert_eq!(parse_error_of("INSERT INTO t VALUES (1) extra_garbage;"), Error::Parse("trailing tokens".to_string()));
    assert_eq!(parse_error_of("INSERT INTO t VALUES (1, x);"), Error::Parse("expected literal".to_string()));
    assert_eq!(parse_error_of("SELECT * FROM t LIMIT x;"), Error::Parse("expected integer".to_string()));
    assert_eq!(parse_error_of("SELECT * FROM t ORDER name;"), Error::Parse("expected BY".to_string()));
    assert_eq!(parse_error_of("SELECT a FROM t;"), Error::Parse("expected symbol `*`".to_string()));
    assert_eq!(parse_error_of("UPDATE t SET a 1;"), Error::Parse("expected symbol `=`".to_string()));
    assert_eq!(parse_error_of("DELETE FROM t WHERE a = ;"), Error::Parse("expected expression".to_string()));
    assert_eq!(parse_error_of("DROP TABLE 5;"), Error::Parse("expected ident, got Int(5)".to_string()));
    assert_eq!(parse_error_of("SELECT * FROM 'x"), Error::Parse("unexpected token: Eof".to_string()));
}

#[test]
fn parse_errors_show_the_offending_token() {
    assert_eq!(parse_error_of("WHERE x"), Error::Parse("unexpected token: Keyword(Where)".to_string()));
    assert_eq!(parse_error_of("42"), Error::Parse("unexpected token: Int(42)".to_string()));
    assert_eq!(parse_error_of("007.50"), Error::Parse("unexpected token: Float(7.5)".to_string()));
    assert_eq!(parse_error_of("3.000"), Error::Parse("unexpected token: Float(3.0)".to_string()));
    assert_eq!(parse_error_of("'it\\s'"), Error::Parse("unexpected token: Text(\"it\\\\s\")".to_string()));
    assert_eq!(parse_error_of("'say \"hi\"'"), Error::Parse("unexpected token: Text(\"say \\\"hi\\\"\")".to_string()));
    assert_eq!(parse_error_of("'tab\there'"), Error::Parse("unexpected token: Text(\"tab\\there\")".to_string()));
    assert_eq!(parse_error_of("'图书'"), Error::Parse("unexpected token: Text(\"图书\")".to_string()));
    assert_eq!(parse_error_of("*"), Error::Parse("unexpected token: Symbol('*')".to_string()));
    assert_eq!(parse_error_of(""), Error::Parse("unexpected token: Eof".to_string()));
    assert_eq!(parse_error_of("CREATE TABLE (a INT);"), Error::Parse("expected ident, got Symbol('(')".to_string()));
    assert_eq!(parse_error_of("SELECT * FROM t ORDER BY 'x';"), Error::Parse("expected ident, got Text(\"x\")".to_string()));
    assert_eq!(parse_error_of("UPDATE SET a = 1;"), Error::Parse("expected ident, got Keyword(Set)".to_string()));
}
