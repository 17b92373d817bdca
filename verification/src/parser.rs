//! A recursive-descent parser from tokens to statements.
use vstd::prelude::*;
use crate::ast::{assignments_view, column_defs_view, expr_view, opt_expr_view, values_view, BinOp, ColumnDef, ColumnDefOf, ColumnDefV, DataType, Expr, ExprOf, ExprV, Statement, StatementV};
use crate::error::{Error, ErrorV};
use crate::lexer::{
    eof_terminated, eof_token, lemma_lex_from_eof_terminated, lex, range_matches_word, tokens_view,
    word_matches, Keyword, Lexer, Token, TokenKindOf, TokenKind, TokenKindV, TokenV,
};
use crate::text::{
    append_str, chars_of, escape_char, escape_text, push_char, push_escaped, push_escaped_char, push_signed,
    signed_decimal, text,
};
use crate::value::{Val, Value, ValueV};

verus! {

// ---------------------------------------------------------------------------
// The grammar, as functions from a token sequence and a position to the
// parsed item and the position after it (`None` on a syntax error).

pub open spec fn kind_at(ts: Seq<TokenV>, p: int) -> TokenKindV {
    if 0 <= p < ts.len() { ts[p].kind } else { TokenKindOf::Eof }
}

pub open spec fn skip_semicolons(ts: Seq<TokenV>, p: int) -> int
    decreases ts.len() - p,
{
    if 0 <= p < ts.len() && ts[p].kind == TokenKindOf::<Seq<char>>::Symbol(';') {
        skip_semicolons(ts, p + 1)
    } else {
        p
    }
}

pub open spec fn syn_keyword(ts: Seq<TokenV>, p: int, k: Keyword) -> Option<int> {
    if kind_at(ts, p) == TokenKindOf::<Seq<char>>::Keyword(k) { Some(p + 1) } else { None }
}

pub open spec fn syn_symbol(ts: Seq<TokenV>, p: int, c: char) -> Option<int> {
    if kind_at(ts, p) == TokenKindOf::<Seq<char>>::Symbol(c) { Some(p + 1) } else { None }
}

pub open spec fn syn_ident(ts: Seq<TokenV>, p: int) -> Option<(Seq<char>, int)> {
    if kind_at(ts, p) is Ident { Some((ts[p].lexeme, p + 1)) } else { None }
}

/// The token at `p` is an identifier spelling the upper-case word `w` in any case.
pub open spec fn is_word(ts: Seq<TokenV>, p: int, w: Seq<char>) -> bool {
    kind_at(ts, p) is Ident && word_matches(ts[p].lexeme, w)
}

pub open spec fn word_order() -> Seq<char> { seq!['O', 'R', 'D', 'E', 'R'] }
pub open spec fn word_by() -> Seq<char> { seq!['B', 'Y'] }
pub open spec fn word_asc() -> Seq<char> { seq!['A', 'S', 'C'] }
pub open spec fn word_desc() -> Seq<char> { seq!['D', 'E', 'S', 'C'] }

pub open spec fn syn_type(ts: Seq<TokenV>, p: int) -> Option<(DataType, int)> {
    match kind_at(ts, p) {
        TokenKindOf::Keyword(Keyword::Int) => Some((DataType::Int, p + 1)),
        TokenKindOf::Keyword(Keyword::Float) => Some((DataType::Float, p + 1)),
        TokenKindOf::Keyword(Keyword::Text) => Some((DataType::Text, p + 1)),
        TokenKindOf::Keyword(Keyword::Bool) => Some((DataType::Bool, p + 1)),
        _ => None,
    }
}

/// A literal value: an integer, a decimal, a string, `TRUE`, `FALSE` or `NULL`.
pub open spec fn syn_value(ts: Seq<TokenV>, p: int) -> Option<(ValueV, int)> {
    match kind_at(ts, p) {
        TokenKindOf::Int(n) => Some((Val::Int(n), p + 1)),
        TokenKindOf::Float(s) => Some((Val::Float(s), p + 1)),
        TokenKindOf::Text(s) => Some((Val::Text(s), p + 1)),
        TokenKindOf::Keyword(Keyword::True) => Some((Val::Bool(true), p + 1)),
        TokenKindOf::Keyword(Keyword::False) => Some((Val::Bool(false), p + 1)),
        TokenKindOf::Keyword(Keyword::Null) => Some((Val::Null, p + 1)),
        _ => None,
    }
}

/// The comparison operator at `p`: `=`, `<` or `>`.
pub open spec fn binop_at(ts: Seq<TokenV>, p: int) -> Option<BinOp> {
    match kind_at(ts, p) {
        TokenKindOf::Symbol('=') => Some(BinOp::Eq),
        TokenKindOf::Symbol('<') => Some(BinOp::Lt),
        TokenKindOf::Symbol('>') => Some(BinOp::Gt),
        _ => None,
    }
}

/// A primary expression: an integer or string literal, a column,
/// or a column compared with a primary expression.
pub open spec fn syn_primary(ts: Seq<TokenV>, p: int) -> Option<(ExprV, int)>
    decreases ts.len() - p,
{
    match kind_at(ts, p) {
        TokenKindOf::Int(n) => Some((ExprOf::Literal(Val::Int(n)), p + 1)),
        TokenKindOf::Text(s) => Some((ExprOf::Literal(Val::Text(s)), p + 1)),
        TokenKindOf::Ident => {
            let name = ts[p].lexeme;
            match binop_at(ts, p + 1) {
                Some(op) => if 0 <= p && p + 2 <= ts.len() {
                    match syn_primary(ts, p + 2) {
                        Some((right, q)) => Some((
                            ExprOf::Binary { left: Box::new(ExprOf::Column(name)), op, right: Box::new(right) },
                            q,
                        )),
                        None => None,
                    }
                } else {
                    None
                },
                None => Some((ExprOf::Column(name), p + 1)),
            }
        },
        _ => None,
    }
}

pub open spec fn prepend_item<T>(x: T, rest: Option<(Seq<T>, int)>) -> Option<(Seq<T>, int)> {
    match rest {
        Some((xs, q)) => Some((seq![x] + xs, q)),
        None => None,
    }
}

pub open spec fn prepend_items<T>(d: Seq<T>, rest: Option<(Seq<T>, int)>) -> Option<(Seq<T>, int)> {
    match rest {
        Some((xs, q)) => Some((d + xs, q)),
        None => None,
    }
}

/// `name type (, name type)*`
pub open spec fn syn_column_defs(ts: Seq<TokenV>, p: int) -> Option<(Seq<ColumnDefV>, int)>
    decreases ts.len() - p,
{
    match syn_ident(ts, p) {
        Some((name, q)) => match syn_type(ts, q) {
            Some((ty, r)) => {
                let col = ColumnDefOf { name, data_type: ty };
                if kind_at(ts, r) == TokenKindOf::<Seq<char>>::Symbol(',') && 0 <= p < r < ts.len() {
                    prepend_item(col, syn_column_defs(ts, r + 1))
                } else {
                    Some((seq![col], r))
                }
            },
            None => None,
        },
        None => None,
    }
}

/// `value (, value)*`
pub open spec fn syn_values(ts: Seq<TokenV>, p: int) -> Option<(Seq<ValueV>, int)>
    decreases ts.len() - p,
{
    match syn_value(ts, p) {
        Some((v, r)) => if kind_at(ts, r) == TokenKindOf::<Seq<char>>::Symbol(',') && 0 <= p < r < ts.len() {
            prepend_item(v, syn_values(ts, r + 1))
        } else {
            Some((seq![v], r))
        },
        None => None,
    }
}

/// `name = value (, name = value)*`
pub open spec fn syn_assignments(ts: Seq<TokenV>, p: int) -> Option<(Seq<(Seq<char>, ValueV)>, int)>
    decreases ts.len() - p,
{
    match syn_ident(ts, p) {
        Some((name, q)) => match syn_symbol(ts, q, '=') {
            Some(q2) => match syn_value(ts, q2) {
                Some((v, r)) => if kind_at(ts, r) == TokenKindOf::<Seq<char>>::Symbol(',') && 0 <= p < r < ts.len() {
                    prepend_item((name, v), syn_assignments(ts, r + 1))
                } else {
                    Some((seq![(name, v)], r))
                },
                None => None,
            },
            None => None,
        },
        None => None,
    }
}

// ---------------------------------------------------------------------------
// Laws of the list forms

/// A literal token stands for its value: an integer, a decimal, a string,
/// `TRUE`, `FALSE` and `NULL` each give the value they spell, and the value
/// takes exactly that one token.
pub proof fn law_literal_values(ts: Seq<TokenV>, p: int)
    ensures
        kind_at(ts, p) matches TokenKindOf::Int(n) ==> syn_value(ts, p) == Some((Val::<Seq<char>>::Int(n), p + 1)),
        kind_at(ts, p) matches TokenKindOf::Float(x) ==> syn_value(ts, p) == Some((Val::Float(x), p + 1)),
        kind_at(ts, p) matches TokenKindOf::Text(t) ==> syn_value(ts, p) == Some((Val::Text(t), p + 1)),
        kind_at(ts, p) == TokenKindOf::<Seq<char>>::Keyword(Keyword::True) ==> syn_value(ts, p) == Some((Val::<Seq<char>>::Bool(true), p + 1)),
        kind_at(ts, p) == TokenKindOf::<Seq<char>>::Keyword(Keyword::False) ==> syn_value(ts, p) == Some((Val::<Seq<char>>::Bool(false), p + 1)),
        kind_at(ts, p) == TokenKindOf::<Seq<char>>::Keyword(Keyword::Null) ==> syn_value(ts, p) == Some((Val::<Seq<char>>::Null, p + 1)),
        kind_at(ts, p) is Ident ==> syn_value(ts, p) is None,
{
}

/// `SET c1 = v1, ..., cn = vn`: when the tokens from `p` on are the `n`
/// items `name = literal`, separated by commas and followed by something
/// other than a comma, the assignments parsed are exactly the `n` pairs, in
/// the order of the text, and parsing stops after the last literal.
pub proof fn law_assignments_list(ts: Seq<TokenV>, p: int, a: Seq<(Seq<char>, ValueV)>)
    requires
        a.len() >= 1,
        0 <= p,
        forall|i: int| 0 <= i < a.len() ==> {
            &&& kind_at(ts, p + 4 * i) is Ident
            &&& ts[p + 4 * i].lexeme == (#[trigger] a[i]).0
            &&& kind_at(ts, p + 4 * i + 1) == TokenKindOf::<Seq<char>>::Symbol('=')
            &&& syn_value(ts, p + 4 * i + 2) == Some((a[i].1, p + 4 * i + 3))
            &&& i < a.len() - 1 ==> kind_at(ts, p + 4 * i + 3) == TokenKindOf::<Seq<char>>::Symbol(',')
        },
        kind_at(ts, p + 4 * a.len() - 1) != TokenKindOf::<Seq<char>>::Symbol(','),
    ensures
        syn_assignments(ts, p) == Some((a, p + 4 * a.len() - 1)),
    decreases a.len(),
{
    let x = a[0];
    assert(kind_at(ts, p) is Ident && ts[p].lexeme == x.0);
    assert(syn_ident(ts, p) == Some((x.0, p + 1)));
    assert(syn_symbol(ts, p + 1, '=') == Some(p + 2));
    if a.len() > 1 {
        let b = a.drop_first();
        assert(kind_at(ts, p + 3) == TokenKindOf::<Seq<char>>::Symbol(','));
        assert forall|i: int| 0 <= i < b.len() implies {
            &&& kind_at(ts, (p + 4) + 4 * i) is Ident
            &&& ts[(p + 4) + 4 * i].lexeme == (#[trigger] b[i]).0
            &&& kind_at(ts, (p + 4) + 4 * i + 1) == TokenKindOf::<Seq<char>>::Symbol('=')
            &&& syn_value(ts, (p + 4) + 4 * i + 2) == Some((b[i].1, (p + 4) + 4 * i + 3))
            &&& i < b.len() - 1 ==> kind_at(ts, (p + 4) + 4 * i + 3) == TokenKindOf::<Seq<char>>::Symbol(',')
        } by {
            assert(b[i] == a[i + 1]);
            assert((p + 4) + 4 * i == p + 4 * (i + 1));
        }
        assert(p + 4 * a.len() - 1 == (p + 4) + 4 * b.len() - 1);
        law_assignments_list(ts, p + 4, b);
        assert(seq![x] + b =~= a);
    } else {
        assert(seq![x] =~= a);
    }
}

/// `VALUES (v1, ..., vn)`: when the tokens from `p` on are `n` literals
/// separated by commas and followed by something other than a comma, the
/// values parsed are exactly those `n`, in order.
pub proof fn law_values_list(ts: Seq<TokenV>, p: int, vs: Seq<ValueV>)
    requires
        vs.len() >= 1,
        0 <= p,
        forall|i: int| 0 <= i < vs.len() ==> {
            &&& syn_value(ts, p + 2 * i) == Some((#[trigger] vs[i], p + 2 * i + 1))
            &&& i < vs.len() - 1 ==> kind_at(ts, p + 2 * i + 1) == TokenKindOf::<Seq<char>>::Symbol(',')
        },
        kind_at(ts, p + 2 * vs.len() - 1) != TokenKindOf::<Seq<char>>::Symbol(','),
    ensures
        syn_values(ts, p) == Some((vs, p + 2 * vs.len() - 1)),
    decreases vs.len(),
{
    let x = vs[0];
    if vs.len() > 1 {
        let b = vs.drop_first();
        assert(kind_at(ts, p + 1) == TokenKindOf::<Seq<char>>::Symbol(','));
        assert forall|i: int| 0 <= i < b.len() implies {
            &&& syn_value(ts, (p + 2) + 2 * i) == Some((#[trigger] b[i], (p + 2) + 2 * i + 1))
            &&& i < b.len() - 1 ==> kind_at(ts, (p + 2) + 2 * i + 1) == TokenKindOf::<Seq<char>>::Symbol(',')
        } by {
            assert(b[i] == vs[i + 1]);
            assert((p + 2) + 2 * i == p + 2 * (i + 1));
        }
        assert(p + 2 * vs.len() - 1 == (p + 2) + 2 * b.len() - 1);
        law_values_list(ts, p + 2, b);
        assert(seq![x] + b =~= vs);
    } else {
        assert(seq![x] =~= vs);
    }
}

/// `(c1 t1, ..., cn tn)`: when the tokens from `p` on are `n` items `name
/// type` separated by commas and followed by something other than a comma,
/// the column definitions parsed are exactly those `n`, in order.
pub proof fn law_column_defs_list(ts: Seq<TokenV>, p: int, c: Seq<ColumnDefV>)
    requires
        c.len() >= 1,
        0 <= p,
        forall|i: int| 0 <= i < c.len() ==> {
            &&& kind_at(ts, p + 3 * i) is Ident
            &&& ts[p + 3 * i].lexeme == (#[trigger] c[i]).name
            &&& syn_type(ts, p + 3 * i + 1) == Some((c[i].data_type, p + 3 * i + 2))
            &&& i < c.len() - 1 ==> kind_at(ts, p + 3 * i + 2) == TokenKindOf::<Seq<char>>::Symbol(',')
        },
        kind_at(ts, p + 3 * c.len() - 1) != TokenKindOf::<Seq<char>>::Symbol(','),
    ensures
        syn_column_defs(ts, p) == Some((c, p + 3 * c.len() - 1)),
    decreases c.len(),
{
    let x = c[0];
    assert(kind_at(ts, p) is Ident && ts[p].lexeme == x.name);
    assert(syn_ident(ts, p) == Some((x.name, p + 1)));
    assert(ColumnDefOf { name: x.name, data_type: x.data_type } == x);
    if c.len() > 1 {
        let b = c.drop_first();
        assert(kind_at(ts, p + 2) == TokenKindOf::<Seq<char>>::Symbol(','));
        assert forall|i: int| 0 <= i < b.len() implies {
            &&& kind_at(ts, (p + 3) + 3 * i) is Ident
            &&& ts[(p + 3) + 3 * i].lexeme == (#[trigger] b[i]).name
            &&& syn_type(ts, (p + 3) + 3 * i + 1) == Some((b[i].data_type, (p + 3) + 3 * i + 2))
            &&& i < b.len() - 1 ==> kind_at(ts, (p + 3) + 3 * i + 2) == TokenKindOf::<Seq<char>>::Symbol(',')
        } by {
            assert(b[i] == c[i + 1]);
            assert((p + 3) + 3 * i == p + 3 * (i + 1));
        }
        assert(p + 3 * c.len() - 1 == (p + 3) + 3 * b.len() - 1);
        law_column_defs_list(ts, p + 3, b);
        assert(seq![x] + b =~= c);
    } else {
        assert(seq![x] =~= c);
    }
}

/// An optional `WHERE expr`.
pub open spec fn syn_where(ts: Seq<TokenV>, p: int) -> Option<(Option<ExprV>, int)> {
    if kind_at(ts, p) == TokenKindOf::<Seq<char>>::Keyword(Keyword::Where) {
        match syn_primary(ts, p + 1) {
            Some((e, q)) => Some((Some(e), q)),
            None => None,
        }
    } else {
        Some((None, p))
    }
}

/// An optional `ORDER BY column [ASC | DESC]`; the flag tells a descending order.
pub open spec fn syn_order_by(ts: Seq<TokenV>, p: int) -> Option<(Option<(Seq<char>, bool)>, int)> {
    if is_word(ts, p, word_order()) {
        if is_word(ts, p + 1, word_by()) {
            match syn_ident(ts, p + 2) {
                Some((c, q)) => if is_word(ts, q, word_desc()) {
                    Some((Some((c, true)), q + 1))
                } else if is_word(ts, q, word_asc()) {
                    Some((Some((c, false)), q + 1))
                } else {
                    Some((Some((c, false)), q))
                },
                None => None,
            }
        } else {
            None
        }
    } else {
        Some((None, p))
    }
}

/// An optional `k n` clause (`LIMIT n` or `OFFSET n`) with an integer `n`.
pub open spec fn syn_count(ts: Seq<TokenV>, p: int, k: Keyword) -> Option<(Option<u64>, int)> {
    if kind_at(ts, p) == TokenKindOf::<Seq<char>>::Keyword(k) {
        match kind_at(ts, p + 1) {
            TokenKindOf::Int(n) => Some((Some(n as u64), p + 2)),
            _ => None,
        }
    } else {
        Some((None, p))
    }
}

pub open spec fn syn_create(ts: Seq<TokenV>, p: int) -> Option<(StatementV, int)> {
    match syn_keyword(ts, p, Keyword::Create) {
        Some(p1) => match syn_keyword(ts, p1, Keyword::Table) {
            Some(p2) => match syn_ident(ts, p2) {
                Some((name, p3)) => match syn_symbol(ts, p3, '(') {
                    Some(p4) => match syn_column_defs(ts, p4) {
                        Some((columns, p5)) => match syn_symbol(ts, p5, ')') {
                            Some(p6) => Some((StatementV::CreateTable { name, columns }, skip_semicolons(ts, p6))),
                            None => None,
                        },
                        None => None,
                    },
                    None => None,
                },
                None => None,
            },
            None => None,
        },
        None => None,
    }
}

pub open spec fn syn_drop(ts: Seq<TokenV>, p: int) -> Option<(StatementV, int)> {
    match syn_keyword(ts, p, Keyword::Drop) {
        Some(p1) => match syn_keyword(ts, p1, Keyword::Table) {
            Some(p2) => match syn_ident(ts, p2) {
                Some((name, p3)) => Some((StatementV::DropTable { name }, skip_semicolons(ts, p3))),
                None => None,
            },
            None => None,
        },
        None => None,
    }
}

pub open spec fn syn_insert(ts: Seq<TokenV>, p: int) -> Option<(StatementV, int)> {
    match syn_keyword(ts, p, Keyword::Insert) {
        Some(p1) => match syn_keyword(ts, p1, Keyword::Into) {
            Some(p2) => match syn_ident(ts, p2) {
                Some((table, p3)) => match syn_keyword(ts, p3, Keyword::Values) {
                    Some(p4) => match syn_symbol(ts, p4, '(') {
                        Some(p5) => match syn_values(ts, p5) {
                            Some((values, p6)) => match syn_symbol(ts, p6, ')') {
                                Some(p7) => Some((StatementV::Insert { table, values }, skip_semicolons(ts, p7))),
                                None => None,
                            },
                            None => None,
                        },
                        None => None,
                    },
                    None => None,
                },
                None => None,
            },
            None => None,
        },
        None => None,
    }
}

pub open spec fn syn_select(ts: Seq<TokenV>, p: int) -> Option<(StatementV, int)> {
    match syn_keyword(ts, p, Keyword::Select) {
        Some(p1) => match syn_symbol(ts, p1, '*') {
            Some(p2) => match syn_keyword(ts, p2, Keyword::From) {
                Some(p3) => match syn_ident(ts, p3) {
                    Some((table, p4)) => match syn_where(ts, p4) {
                        Some((where_clause, p5)) => match syn_order_by(ts, p5) {
                            Some((order_by, p6)) => match syn_count(ts, p6, Keyword::Limit) {
                                Some((limit, p7)) => match syn_count(ts, p7, Keyword::Offset) {
                                    Some((offset, p8)) => Some((
                                        StatementV::Select { table, where_clause, limit, offset, order_by },
                                        skip_semicolons(ts, p8),
                                    )),
                                    None => None,
                                },
                                None => None,
                            },
                            None => None,
                        },
                        None => None,
                    },
                    None => None,
                },
                None => None,
            },
            None => None,
        },
        None => None,
    }
}

pub open spec fn syn_update(ts: Seq<TokenV>, p: int) -> Option<(StatementV, int)> {
    match syn_keyword(ts, p, Keyword::Update) {
        Some(p1) => match syn_ident(ts, p1) {
            Some((table, p2)) => match syn_keyword(ts, p2, Keyword::SetClause) {
                Some(p3) => match syn_assignments(ts, p3) {
                    Some((assignments, p4)) => match syn_where(ts, p4) {
                        Some((where_clause, p5)) => Some((
                            StatementV::Update { table, assignments, where_clause },
                            skip_semicolons(ts, p5),
                        )),
                        None => None,
                    },
                    None => None,
                },
                None => None,
            },
            None => None,
        },
        None => None,
    }
}

pub open spec fn syn_delete(ts: Seq<TokenV>, p: int) -> Option<(StatementV, int)> {
    match syn_keyword(ts, p, Keyword::Delete) {
        Some(p1) => match syn_keyword(ts, p1, Keyword::From) {
            Some(p2) => match syn_ident(ts, p2) {
                Some((table, p3)) => match syn_where(ts, p3) {
                    Some((where_clause, p4)) => Some((StatementV::Delete { table, where_clause }, skip_semicolons(ts, p4))),
                    None => None,
                },
                None => None,
            },
            None => None,
        },
        None => None,
    }
}

/// One statement, chosen by its leading keyword.
pub open spec fn syn_statement(ts: Seq<TokenV>, p: int) -> Option<(StatementV, int)> {
    match kind_at(ts, p) {
        TokenKindOf::Keyword(Keyword::Create) => syn_create(ts, p),
        TokenKindOf::Keyword(Keyword::Drop) => syn_drop(ts, p),
        TokenKindOf::Keyword(Keyword::Insert) => syn_insert(ts, p),
        TokenKindOf::Keyword(Keyword::Select) => syn_select(ts, p),
        TokenKindOf::Keyword(Keyword::Update) => syn_update(ts, p),
        TokenKindOf::Keyword(Keyword::Delete) => syn_delete(ts, p),
        _ => None,
    }
}

/// A whole input: optional semicolons, one statement, optional semicolons, end of input.
pub open spec fn syn_parse(ts: Seq<TokenV>, p: int) -> Option<(StatementV, int)> {
    match syn_statement(ts, skip_semicolons(ts, p)) {
        Some((st, q)) => {
            let r = skip_semicolons(ts, q);
            if kind_at(ts, r) is Eof { Some((st, r)) } else { None }
        },
        None => None,
    }
}

// ---------------------------------------------------------------------------
// The message of a syntax error: the one of the first step of the grammar
// that fails.

/// `r` is a syntax error with message `m`.
pub open spec fn parse_failed<T>(r: Result<T, Error>, m: Seq<char>) -> bool {
    r matches Err(e) && e@ == ErrorV::Parse(m)
}

/// The name of a keyword as error messages show it.
pub open spec fn keyword_name_of(k: Keyword) -> Seq<char> {
    match k {
        Keyword::Create => "Create"@,
        Keyword::Table => "Table"@,
        Keyword::Drop => "Drop"@,
        Keyword::Insert => "Insert"@,
        Keyword::Into => "Into"@,
        Keyword::Values => "Values"@,
        Keyword::Select => "Select"@,
        Keyword::From => "From"@,
        Keyword::Where => "Where"@,
        Keyword::Update => "Update"@,
        Keyword::SetClause => "Set"@,
        Keyword::Delete => "Delete"@,
        Keyword::Limit => "Limit"@,
        Keyword::Offset => "Offset"@,
        Keyword::Int => "Int"@,
        Keyword::Float => "Float"@,
        Keyword::Text => "Text"@,
        Keyword::Bool => "Bool"@,
        Keyword::And => "And"@,
        Keyword::Or => "Or"@,
        Keyword::Null => "Null"@,
        Keyword::True => "True"@,
        Keyword::False => "False"@,
    }
}

pub open spec fn keyword_msg(k: Keyword) -> Seq<char> {
    "expected keyword "@ + keyword_name_of(k)
}

pub open spec fn symbol_msg(c: char) -> Seq<char> {
    "expected symbol `"@ + seq![c] + "`"@
}

/// A decimal literal as debug formatting shows its value: a numeral that
/// ends in the point gets a `0` after it.
pub open spec fn float_numeral(x: Seq<char>) -> Seq<char> {
    if x.len() > 0 && x.last() == '.' { x.push('0') } else { x }
}

/// A token kind as error messages show it, in the form of its debug formatting.
pub open spec fn kind_debug(k: TokenKindV) -> Seq<char> {
    match k {
        TokenKindOf::Keyword(w) => "Keyword("@ + keyword_name_of(w) + seq![')'],
        TokenKindOf::Ident => "Ident"@,
        TokenKindOf::Int(n) => "Int("@ + signed_decimal(n as int) + seq![')'],
        TokenKindOf::Float(x) => "Float("@ + float_numeral(x) + seq![')'],
        TokenKindOf::Text(t) => "Text(\""@ + escape_text(t, '"') + seq!['"', ')'],
        TokenKindOf::Symbol(c) => "Symbol('"@ + escape_char(c, '\'') + seq!['\'', ')'],
        TokenKindOf::Eof => "Eof"@,
    }
}

/// The message for a missing name, where the token of kind `k` stands.
pub open spec fn ident_msg(k: TokenKindV) -> Seq<char> {
    "expected ident, got "@ + kind_debug(k)
}

pub open spec fn primary_err(ts: Seq<TokenV>, p: int) -> Seq<char>
    decreases ts.len() - p,
{
    match kind_at(ts, p) {
        TokenKindOf::Ident => match binop_at(ts, p + 1) {
            Some(_) => if 0 <= p && p + 2 <= ts.len() { primary_err(ts, p + 2) } else { "expected expression"@ },
            None => "expected expression"@,
        },
        _ => "expected expression"@,
    }
}

pub open spec fn column_defs_err(ts: Seq<TokenV>, p: int) -> Seq<char>
    decreases ts.len() - p,
{
    match syn_ident(ts, p) {
        Some((_, q)) => match syn_type(ts, q) {
            Some((_, r)) => if kind_at(ts, r) == TokenKindOf::<Seq<char>>::Symbol(',') && 0 <= p < r < ts.len() {
                column_defs_err(ts, r + 1)
            } else {
                Seq::empty()
            },
            None => "expected type"@,
        },
        None => ident_msg(kind_at(ts, p)),
    }
}

pub open spec fn values_err(ts: Seq<TokenV>, p: int) -> Seq<char>
    decreases ts.len() - p,
{
    match syn_value(ts, p) {
        Some((_, r)) => if kind_at(ts, r) == TokenKindOf::<Seq<char>>::Symbol(',') && 0 <= p < r < ts.len() {
            values_err(ts, r + 1)
        } else {
            Seq::empty()
        },
        None => "expected literal"@,
    }
}

pub open spec fn assignments_err(ts: Seq<TokenV>, p: int) -> Seq<char>
    decreases ts.len() - p,
{
    match syn_ident(ts, p) {
        Some((_, q)) => match syn_symbol(ts, q, '=') {
            Some(q2) => match syn_value(ts, q2) {
                Some((_, r)) => if kind_at(ts, r) == TokenKindOf::<Seq<char>>::Symbol(',') && 0 <= p < r < ts.len() {
                    assignments_err(ts, r + 1)
                } else {
                    Seq::empty()
                },
                None => "expected literal"@,
            },
            None => symbol_msg('='),
        },
        None => ident_msg(kind_at(ts, p)),
    }
}

pub open spec fn where_err(ts: Seq<TokenV>, p: int) -> Seq<char> {
    primary_err(ts, p + 1)
}

pub open spec fn order_by_err(ts: Seq<TokenV>, p: int) -> Seq<char> {
    if is_word(ts, p + 1, word_by()) { ident_msg(kind_at(ts, p + 2)) } else { "expected BY"@ }
}

pub open spec fn count_err() -> Seq<char> {
    "expected integer"@
}

pub open spec fn create_err(ts: Seq<TokenV>, p: int) -> Seq<char> {
    match syn_keyword(ts, p, Keyword::Create) {
        Some(p1) => match syn_keyword(ts, p1, Keyword::Table) {
            Some(p2) => match syn_ident(ts, p2) {
                Some((_, p3)) => match syn_symbol(ts, p3, '(') {
                    Some(p4) => match syn_column_defs(ts, p4) {
                        Some((_, p5)) => symbol_msg(')'),
                        None => column_defs_err(ts, p4),
                    },
                    None => symbol_msg('('),
                },
                None => ident_msg(kind_at(ts, p2)),
            },
            None => keyword_msg(Keyword::Table),
        },
        None => keyword_msg(Keyword::Create),
    }
}

pub open spec fn drop_err(ts: Seq<TokenV>, p: int) -> Seq<char> {
    match syn_keyword(ts, p, Keyword::Drop) {
        Some(p1) => match syn_keyword(ts, p1, Keyword::Table) {
            Some(p2) => ident_msg(kind_at(ts, p2)),
            None => keyword_msg(Keyword::Table),
        },
        None => keyword_msg(Keyword::Drop),
    }
}

pub open spec fn insert_err(ts: Seq<TokenV>, p: int) -> Seq<char> {
    match syn_keyword(ts, p, Keyword::Insert) {
        Some(p1) => match syn_keyword(ts, p1, Keyword::Into) {
            Some(p2) => match syn_ident(ts, p2) {
                Some((_, p3)) => match syn_keyword(ts, p3, Keyword::Values) {
                    Some(p4) => match syn_symbol(ts, p4, '(') {
                        Some(p5) => match syn_values(ts, p5) {
                            Some((_, p6)) => symbol_msg(')'),
                            None => values_err(ts, p5),
                        },
                        None => symbol_msg('('),
                    },
                    None => keyword_msg(Keyword::Values),
                },
                None => ident_msg(kind_at(ts, p2)),
            },
            None => keyword_msg(Keyword::Into),
        },
        None => keyword_msg(Keyword::Insert),
    }
}

pub open spec fn select_err(ts: Seq<TokenV>, p: int) -> Seq<char> {
    match syn_keyword(ts, p, Keyword::Select) {
        Some(p1) => match syn_symbol(ts, p1, '*') {
            Some(p2) => match syn_keyword(ts, p2, Keyword::From) {
                Some(p3) => match syn_ident(ts, p3) {
                    Some((_, p4)) => match syn_where(ts, p4) {
                        Some((_, p5)) => match syn_order_by(ts, p5) {
                            Some((_, p6)) => count_err(),
                            None => order_by_err(ts, p5),
                        },
                        None => where_err(ts, p4),
                    },
                    None => ident_msg(kind_at(ts, p3)),
                },
                None => keyword_msg(Keyword::From),
            },
            None => symbol_msg('*'),
        },
        None => keyword_msg(Keyword::Select),
    }
}

pub open spec fn update_err(ts: Seq<TokenV>, p: int) -> Seq<char> {
    match syn_keyword(ts, p, Keyword::Update) {
        Some(p1) => match syn_ident(ts, p1) {
            Some((_, p2)) => match syn_keyword(ts, p2, Keyword::SetClause) {
                Some(p3) => match syn_assignments(ts, p3) {
                    Some((_, p4)) => where_err(ts, p4),
                    None => assignments_err(ts, p3),
                },
                None => keyword_msg(Keyword::SetClause),
            },
            None => ident_msg(kind_at(ts, p1)),
        },
        None => keyword_msg(Keyword::Update),
    }
}

pub open spec fn delete_err(ts: Seq<TokenV>, p: int) -> Seq<char> {
    match syn_keyword(ts, p, Keyword::Delete) {
        Some(p1) => match syn_keyword(ts, p1, Keyword::From) {
            Some(p2) => match syn_ident(ts, p2) {
                Some((_, p3)) => where_err(ts, p3),
                None => ident_msg(kind_at(ts, p2)),
            },
            None => keyword_msg(Keyword::From),
        },
        None => keyword_msg(Keyword::Delete),
    }
}

pub open spec fn statement_err(ts: Seq<TokenV>, p: int) -> Seq<char> {
    match kind_at(ts, p) {
        TokenKindOf::Keyword(Keyword::Create) => create_err(ts, p),
        TokenKindOf::Keyword(Keyword::Drop) => drop_err(ts, p),
        TokenKindOf::Keyword(Keyword::Insert) => insert_err(ts, p),
        TokenKindOf::Keyword(Keyword::Select) => select_err(ts, p),
        TokenKindOf::Keyword(Keyword::Update) => update_err(ts, p),
        TokenKindOf::Keyword(Keyword::Delete) => delete_err(ts, p),
        _ => "unexpected token: "@ + kind_debug(kind_at(ts, p)),
    }
}

/// The message of the syntax error of a whole input (meaningful when [`syn_parse`] fails).
pub open spec fn parse_err(ts: Seq<TokenV>, p: int) -> Seq<char> {
    match syn_statement(ts, skip_semicolons(ts, p)) {
        Some(_) => "trailing tokens"@,
        None => statement_err(ts, skip_semicolons(ts, p)),
    }
}

/// The message of the syntax error of a SQL text that stands for no statement.
pub open spec fn sql_parse_error(sql: Seq<char>) -> Seq<char> {
    parse_err(tokens_of(sql), 0)
}

/// The statement a SQL text stands for: `None` when it does not lex or does not parse.
/// A text that does not lex is parsed as the empty input.
pub open spec fn tokens_of(sql: Seq<char>) -> Seq<TokenV> {
    match lex(sql) {
        Some(ts) => ts,
        None => seq![eof_token()],
    }
}

pub open spec fn parse_sql(sql: Seq<char>) -> Option<StatementV> {
    match syn_parse(tokens_of(sql), 0) {
        Some((st, _)) => Some(st),
        None => None,
    }
}

} // verus!

verus! {

/// The name of a keyword as error messages show it.
fn keyword_name(k: Keyword) -> (s: &'static str)
    ensures
        s@ == keyword_name_of(k),
{
    match k {
        Keyword::Create => "Create",
        Keyword::Table => "Table",
        Keyword::Drop => "Drop",
        Keyword::Insert => "Insert",
        Keyword::Into => "Into",
        Keyword::Values => "Values",
        Keyword::Select => "Select",
        Keyword::From => "From",
        Keyword::Where => "Where",
        Keyword::Update => "Update",
        Keyword::SetClause => "Set",
        Keyword::Delete => "Delete",
        Keyword::Limit => "Limit",
        Keyword::Offset => "Offset",
        Keyword::Int => "Int",
        Keyword::Float => "Float",
        Keyword::Text => "Text",
        Keyword::Bool => "Bool",
        Keyword::And => "And",
        Keyword::Or => "Or",
        Keyword::Null => "Null",
        Keyword::True => "True",
        Keyword::False => "False",
    }
}

/// Appends a token kind as [`kind_debug`] shows it.
fn push_kind_debug(m: &mut String, k: &TokenKind)
    ensures
        final(m)@ == old(m)@ + kind_debug(k@),
{
    match k {
        TokenKindOf::Keyword(w) => {
            append_str(m, "Keyword(");
            append_str(m, keyword_name(*w));
            push_char(m, ')');
        },
        TokenKindOf::Ident => append_str(m, "Ident"),
        TokenKindOf::Int(n) => {
            append_str(m, "Int(");
            push_signed(m, *n);
            push_char(m, ')');
        },
        TokenKindOf::Float(x) => {
            append_str(m, "Float(");
            append_str(m, x.as_str());
            let xs = chars_of(x.as_str());
            if xs.len() > 0 && xs[xs.len() - 1] == '.' {
                push_char(m, '0');
            }
            push_char(m, ')');
        },
        TokenKindOf::Text(t) => {
            append_str(m, "Text(\"");
            push_escaped(m, t.as_str(), '"');
            push_char(m, '"');
            push_char(m, ')');
        },
        TokenKindOf::Symbol(c) => {
            append_str(m, "Symbol('");
            push_escaped_char(m, *c, '\'');
            push_char(m, '\'');
            push_char(m, ')');
        },
        TokenKindOf::Eof => append_str(m, "Eof"),
    }
    assert(final(m)@ =~= old(m)@ + kind_debug(k@));
}

/// A parser over the tokens of one SQL text.
pub struct Parser {
    tokens: Vec<Token>,
    pos: usize,
}

impl Parser {
    /// The tokens being parsed.
    pub closed spec fn tokens(&self) -> Seq<TokenV> {
        tokens_view(self.tokens@)
    }

    /// The position of the next token.
    pub closed spec fn position(&self) -> int {
        self.pos as int
    }

    /// The tokens end with `Eof` (and hold no other) and the position is within them.
    pub closed spec fn wf(&self) -> bool {
        eof_terminated(self.tokens()) && self.pos < self.tokens@.len()
    }

    /// A parser over the tokens of `sql`. A text that does not lex
    /// yields a parser over the empty input, which then fails to parse.
    pub fn new(sql: &str) -> (p: Self)
        ensures
            p.wf(),
            p.tokens() == tokens_of(sql@),
            p.position() == 0,
    {
        let lexer = Lexer::new(sql);
        let tokens = match lexer.tokenize() {
            Ok(t) => t,
            Err(_) => {
                let mut v: Vec<Token> = Vec::new();
                v.push(Token { kind: TokenKindOf::Eof, lexeme: String::new() });
                v
            },
        };
        proof {
            lemma_lex_from_eof_terminated(sql@, 0);
            if lex(sql@) is None {
                assert(tokens_view(tokens@) =~= seq![eof_token()]);
            }
        }
        Parser { tokens, pos: 0 }
    }

    fn kind(&self) -> (k: &TokenKind)
        requires
            self.wf(),
        ensures
            k@ == kind_at(self.tokens(), self.position()),
    {
        &self.tokens[self.pos].kind
    }

    /// Moves past the current token, which is not `Eof`.
    fn advance(&mut self)
        requires
            old(self).wf(),
            !(kind_at(old(self).tokens(), old(self).position()) is Eof),
        ensures
            final(self).wf(),
            final(self).tokens == old(self).tokens,
            final(self).pos == old(self).pos + 1,
    {
        let len = self.tokens.len();
        assert(self.tokens()[self.pos as int] == self.tokens@[self.pos as int]@);
        assert(self.tokens().last() == self.tokens()[len - 1]);
        self.pos = self.pos + 1;
    }

    fn at_symbol(&self, c: char) -> (b: bool)
        requires
            self.wf(),
        ensures
            b == (kind_at(self.tokens(), self.position()) == TokenKindOf::<Seq<char>>::Symbol(c)),
    {
        match self.kind() {
            TokenKindOf::Symbol(s) => *s == c,
            _ => false,
        }
    }

    fn at_keyword(&self, k: Keyword) -> (b: bool)
        requires
            self.wf(),
        ensures
            b == (kind_at(self.tokens(), self.position()) == TokenKindOf::<Seq<char>>::Keyword(k)),
    {
        match self.kind() {
            TokenKindOf::Keyword(x) => *x == k,
            _ => false,
        }
    }

    fn at_word(&self, w: &Vec<char>) -> (b: bool)
        requires
            self.wf(),
        ensures
            b == is_word(self.tokens(), self.position(), w@),
    {
        match self.kind() {
            TokenKindOf::Ident => {
                let cs = chars_of(self.tokens[self.pos].lexeme.as_str());
                assert(cs@.subrange(0, cs@.len() as int) =~= cs@);
                assert(self.tokens()[self.pos as int] == self.tokens@[self.pos as int]@);
                range_matches_word(&cs, 0, cs.len(), w)
            },
            _ => false,
        }
    }

    fn at_word_after(&self, w: &Vec<char>) -> (b: bool)
        requires
            self.wf(),
        ensures
            b == is_word(self.tokens(), self.position() + 1, w@),
    {
        let len = self.tokens.len();
        if self.pos + 1 >= len {
            return false;
        }
        assert(self.tokens()[self.pos + 1] == self.tokens@[self.pos + 1]@);
        match &self.tokens[self.pos + 1].kind {
            TokenKindOf::Ident => {
                let cs = chars_of(self.tokens[self.pos + 1].lexeme.as_str());
                assert(cs@.subrange(0, cs@.len() as int) =~= cs@);
                range_matches_word(&cs, 0, cs.len(), w)
            },
            _ => false,
        }
    }

    /// Skips any run of `;`.
    fn consume_optional_semicolon(&mut self)
        requires
            old(self).wf(),
        ensures
            final(self).wf(),
            final(self).tokens == old(self).tokens,
            final(self).position() == skip_semicolons(old(self).tokens(), old(self).position()),
    {
        let ghost ts = self.tokens();
        let ghost orig = self.tokens;
        let ghost p0 = self.position();
        while self.at_symbol(';')
            invariant
                self.wf(),
                self.tokens == orig,
                self.tokens() == ts,
                skip_semicolons(ts, p0) == skip_semicolons(ts, self.position()),
            decreases ts.len() - self.pos,
        {
            self.advance();
        }
    }

    fn expect_keyword(&mut self, kw: Keyword) -> (r: Result<(), Error>)
        requires
            old(self).wf(),
        ensures
            final(self).wf(),
            final(self).tokens == old(self).tokens,
            match syn_keyword(old(self).tokens(), old(self).position(), kw) {
                Some(q) => r is Ok && final(self).position() == q,
                None => parse_failed(r, keyword_msg(kw)),
            },
    {
        if self.at_keyword(kw) {
            self.advance();
            Ok(())
        } else {
            let mut m = text("expected keyword ");
            append_str(&mut m, keyword_name(kw));
            Err(Error::Parse(m))
        }
    }

    fn expect_symbol(&mut self, c: char) -> (r: Result<(), Error>)
        requires
            old(self).wf(),
        ensures
            final(self).wf(),
            final(self).tokens == old(self).tokens,
            match syn_symbol(old(self).tokens(), old(self).position(), c) {
                Some(q) => r is Ok && final(self).position() == q,
                None => parse_failed(r, symbol_msg(c)),
            },
    {
        if self.at_symbol(c) {
            self.advance();
            Ok(())
        } else {
            let mut m = text("expected symbol `");
            push_char(&mut m, c);
            push_char(&mut m, '`');
            proof {
                reveal_strlit("`");
                assert(m@ =~= symbol_msg(c));
            }
            Err(Error::Parse(m))
        }
    }

    fn expect_ident(&mut self) -> (r: Result<String, Error>)
        requires
            old(self).wf(),
        ensures
            final(self).wf(),
            final(self).tokens == old(self).tokens,
            match syn_ident(old(self).tokens(), old(self).position()) {
                Some((name, q)) => r matches Ok(s) && s@ == name && final(self).position() == q,
                None => parse_failed(r, ident_msg(kind_at(old(self).tokens(), old(self).position()))),
            },
    {
        match self.kind() {
            TokenKindOf::Ident => {
                let s = self.tokens[self.pos].lexeme.clone();
                self.advance();
                Ok(s)
            },
            _ => {
                let mut m = text("expected ident, got ");
                push_kind_debug(&mut m, self.kind());
                Err(Error::Parse(m))
            },
        }
    }

    fn parse_type(&mut self) -> (r: Result<DataType, Error>)
        requires
            old(self).wf(),
        ensures
            final(self).wf(),
            final(self).tokens == old(self).tokens,
            match syn_type(old(self).tokens(), old(self).position()) {
                Some((t, q)) => r == Ok::<DataType, Error>(t) && final(self).position() == q,
                None => parse_failed(r, "expected type"@),
            },
    {
        let t = match self.kind() {
            TokenKindOf::Keyword(Keyword::Int) => DataType::Int,
            TokenKindOf::Keyword(Keyword::Float) => DataType::Float,
            TokenKindOf::Keyword(Keyword::Text) => DataType::Text,
            TokenKindOf::Keyword(Keyword::Bool) => DataType::Bool,
            _ => { return Err(Error::Parse(text("expected type"))); },
        };
        self.advance();
        Ok(t)
    }

    fn parse_value(&mut self) -> (r: Result<Value, Error>)
        requires
            old(self).wf(),
        ensures
            final(self).wf(),
            final(self).tokens == old(self).tokens,
            match syn_value(old(self).tokens(), old(self).position()) {
                Some((v, q)) => r matches Ok(x) && x@ == v && final(self).position() == q,
                None => parse_failed(r, "expected literal"@),
            },
    {
        let v = match self.kind() {
            TokenKindOf::Int(n) => Val::Int(*n),
            TokenKindOf::Float(s) => Val::Float(s.clone()),
            TokenKindOf::Text(s) => Val::Text(s.clone()),
            TokenKindOf::Keyword(Keyword::True) => Val::Bool(true),
            TokenKindOf::Keyword(Keyword::False) => Val::Bool(false),
            TokenKindOf::Keyword(Keyword::Null) => Val::Null,
            _ => { return Err(Error::Parse(text("expected literal"))); },
        };
        self.advance();
        Ok(v)
    }

    fn binop(&self) -> (r: Option<BinOp>)
        requires
            self.wf(),
        ensures
            r == binop_at(self.tokens(), self.position()),
    {
        match self.kind() {
            TokenKindOf::Symbol('=') => Some(BinOp::Eq),
            TokenKindOf::Symbol('<') => Some(BinOp::Lt),
            TokenKindOf::Symbol('>') => Some(BinOp::Gt),
            _ => None,
        }
    }

    fn parse_primary_expr(&mut self) -> (r: Result<Expr, Error>)
        requires
            old(self).wf(),
        ensures
            final(self).wf(),
            final(self).tokens == old(self).tokens,
            match syn_primary(old(self).tokens(), old(self).position()) {
                Some((e, q)) => r matches Ok(x) && x@ == e && final(self).position() == q,
                None => parse_failed(r, primary_err(old(self).tokens(), old(self).position())),
            },
        decreases old(self).tokens@.len() - old(self).pos,
    {
        match self.kind() {
            TokenKindOf::Int(n) => {
                let n = *n;
                self.advance();
                Ok(ExprOf::Literal(Val::Int(n)))
            },
            TokenKindOf::Text(s) => {
                let s = s.clone();
                self.advance();
                Ok(ExprOf::Literal(Val::Text(s)))
            },
            TokenKindOf::Ident => {
                let ghost ts = self.tokens();
                let ghost p = self.position();
                assert(ts[p] == self.tokens@[p]@);
                let name = self.tokens[self.pos].lexeme.clone();
                self.advance();
                match self.binop() {
                    Some(op) => {
                        self.advance();
                        let right = self.parse_primary_expr()?;
                        let e = ExprOf::Binary {
                            left: Box::new(ExprOf::Column(name)),
                            op,
                            right: Box::new(right),
                        };
                        assert(expr_view(ExprOf::Column(name)) == ExprOf::<Seq<char>>::Column(name@));
                        assert(e@ == ExprOf::<Seq<char>>::Binary {
                            left: Box::new(ExprOf::<Seq<char>>::Column(name@)),
                            op,
                            right: Box::new(right@),
                        });
                        Ok(e)
                    },
                    None => Ok(ExprOf::Column(name)),
                }
            },
            _ => Err(Error::Parse(text("expected expression"))),
        }
    }

    fn parse_expr(&mut self) -> (r: Result<Expr, Error>)
        requires
            old(self).wf(),
        ensures
            final(self).wf(),
            final(self).tokens == old(self).tokens,
            match syn_primary(old(self).tokens(), old(self).position()) {
                Some((e, q)) => r matches Ok(x) && x@ == e && final(self).position() == q,
                None => parse_failed(r, primary_err(old(self).tokens(), old(self).position())),
            },
    {
        self.parse_primary_expr()
    }

    fn parse_column_defs(&mut self) -> (r: Result<Vec<ColumnDef>, Error>)
        requires
            old(self).wf(),
        ensures
            final(self).wf(),
            final(self).tokens == old(self).tokens,
            match syn_column_defs(old(self).tokens(), old(self).position()) {
                Some((cs, q)) => r matches Ok(v) && column_defs_view(v@) == cs && final(self).position() == q,
                None => parse_failed(r, column_defs_err(old(self).tokens(), old(self).position())),
            },
    {
        let ghost ts = self.tokens();
        let ghost orig = self.tokens;
        let ghost p0 = self.position();
        let mut columns: Vec<ColumnDef> = Vec::new();
        assert(column_defs_view(columns@) =~= Seq::<ColumnDefV>::empty());
        proof { lemma_prepend_items_empty(syn_column_defs(ts, p0)); }
        loop
            invariant
                self.wf(),
                self.tokens == orig,
                self.tokens() == ts,
                orig == old(self).tokens,
                ts == old(self).tokens(),
                p0 == old(self).position(),
                syn_column_defs(ts, p0) == prepend_items(column_defs_view(columns@), syn_column_defs(ts, self.position())),
                column_defs_err(ts, p0) == column_defs_err(ts, self.position()),
            decreases ts.len() - self.pos,
        {
            let ghost p = self.position();
            let ghost done = column_defs_view(columns@);
            let col_name = self.expect_ident()?;
            let ty = self.parse_type()?;
            let col = ColumnDef { name: col_name, data_type: ty };
            let ghost cv = ColumnDefOf { name: col.name@, data_type: ty };
            columns.push(col);
            assert(column_defs_view(columns@) =~= done.push(cv));
            if self.at_symbol(',') {
                proof { lemma_prepend_items_push(done, cv, syn_column_defs(ts, self.position() + 1)); }
                self.advance();
            } else {
                assert(done + seq![cv] =~= done.push(cv));
                return Ok(columns);
            }
        }
    }

    fn parse_values(&mut self) -> (r: Result<Vec<Value>, Error>)
        requires
            old(self).wf(),
        ensures
            final(self).wf(),
            final(self).tokens == old(self).tokens,
            match syn_values(old(self).tokens(), old(self).position()) {
                Some((vs, q)) => r matches Ok(v) && values_view(v@) == vs && final(self).position() == q,
                None => parse_failed(r, values_err(old(self).tokens(), old(self).position())),
            },
    {
        let ghost ts = self.tokens();
        let ghost orig = self.tokens;
        let ghost p0 = self.position();
        let mut values: Vec<Value> = Vec::new();
        assert(values_view(values@) =~= Seq::<ValueV>::empty());
        proof { lemma_prepend_items_empty(syn_values(ts, p0)); }
        loop
            invariant
                self.wf(),
                self.tokens == orig,
                self.tokens() == ts,
                orig == old(self).tokens,
                ts == old(self).tokens(),
                p0 == old(self).position(),
                syn_values(ts, p0) == prepend_items(values_view(values@), syn_values(ts, self.position())),
                values_err(ts, p0) == values_err(ts, self.position()),
            decreases ts.len() - self.pos,
        {
            let ghost done = values_view(values@);
            let v = self.parse_value()?;
            let ghost vv = v@;
            values.push(v);
            assert(values_view(values@) =~= done.push(vv));
            if self.at_symbol(',') {
                proof { lemma_prepend_items_push(done, vv, syn_values(ts, self.position() + 1)); }
                self.advance();
            } else {
                assert(done + seq![vv] =~= done.push(vv));
                return Ok(values);
            }
        }
    }

    fn parse_assignments(&mut self) -> (r: Result<Vec<(String, Value)>, Error>)
        requires
            old(self).wf(),
        ensures
            final(self).wf(),
            final(self).tokens == old(self).tokens,
            match syn_assignments(old(self).tokens(), old(self).position()) {
                Some((a, q)) => r matches Ok(v) && assignments_view(v@) == a && final(self).position() == q,
                None => parse_failed(r, assignments_err(old(self).tokens(), old(self).position())),
            },
    {
        let ghost ts = self.tokens();
        let ghost orig = self.tokens;
        let ghost p0 = self.position();
        let mut assignments: Vec<(String, Value)> = Vec::new();
        assert(assignments_view(assignments@) =~= Seq::<(Seq<char>, ValueV)>::empty());
        proof { lemma_prepend_items_empty(syn_assignments(ts, p0)); }
        loop
            invariant
                self.wf(),
                self.tokens == orig,
                self.tokens() == ts,
                orig == old(self).tokens,
                ts == old(self).tokens(),
                p0 == old(self).position(),
                syn_assignments(ts, p0) == prepend_items(assignments_view(assignments@), syn_assignments(ts, self.position())),
                assignments_err(ts, p0) == assignments_err(ts, self.position()),
            decreases ts.len() - self.pos,
        {
            let ghost done = assignments_view(assignments@);
            let col = self.expect_ident()?;
            self.expect_symbol('=')?;
            let val = self.parse_value()?;
            let ghost av = (col@, val@);
            assignments.push((col, val));
            assert(assignments_view(assignments@) =~= done.push(av));
            if self.at_symbol(',') {
                proof { lemma_prepend_items_push(done, av, syn_assignments(ts, self.position() + 1)); }
                self.advance();
            } else {
                assert(done + seq![av] =~= done.push(av));
                return Ok(assignments);
            }
        }
    }

    fn parse_where(&mut self) -> (r: Result<Option<Expr>, Error>)
        requires
            old(self).wf(),
        ensures
            final(self).wf(),
            final(self).tokens == old(self).tokens,
            match syn_where(old(self).tokens(), old(self).position()) {
                Some((w, q)) => r matches Ok(x) && opt_expr_view(x) == w && final(self).position() == q,
                None => parse_failed(r, where_err(old(self).tokens(), old(self).position())),
            },
    {
        if self.at_keyword(Keyword::Where) {
            self.advance();
            Ok(Some(self.parse_expr()?))
        } else {
            Ok(None)
        }
    }

    fn parse_order_by(&mut self) -> (r: Result<Option<(String, bool)>, Error>)
        requires
            old(self).wf(),
        ensures
            final(self).wf(),
            final(self).tokens == old(self).tokens,
            match syn_order_by(old(self).tokens(), old(self).position()) {
                Some((o, q)) => r matches Ok(x) && order_view(x) == o && final(self).position() == q,
                None => parse_failed(r, order_by_err(old(self).tokens(), old(self).position())),
            },
    {
        let order = vec!['O', 'R', 'D', 'E', 'R'];
        let by = vec!['B', 'Y'];
        let asc = vec!['A', 'S', 'C'];
        let desc = vec!['D', 'E', 'S', 'C'];
        assert(order@ =~= word_order());
        assert(by@ =~= word_by());
        assert(asc@ =~= word_asc());
        assert(desc@ =~= word_desc());
        if !self.at_word(&order) {
            return Ok(None);
        }
        if !self.at_word_after(&by) {
            return Err(Error::Parse(text("expected BY")));
        }
        self.advance();
        self.advance();
        let column = self.expect_ident()?;
        if self.at_word(&desc) {
            self.advance();
            Ok(Some((column, true)))
        } else if self.at_word(&asc) {
            self.advance();
            Ok(Some((column, false)))
        } else {
            Ok(Some((column, false)))
        }
    }

    fn parse_count(&mut self, k: Keyword) -> (r: Result<Option<u64>, Error>)
        requires
            old(self).wf(),
        ensures
            final(self).wf(),
            final(self).tokens == old(self).tokens,
            match syn_count(old(self).tokens(), old(self).position(), k) {
                Some((c, q)) => r == Ok::<Option<u64>, Error>(c) && final(self).position() == q,
                None => parse_failed(r, count_err()),
            },
    {
        if !self.at_keyword(k) {
            return Ok(None);
        }
        self.advance();
        match self.kind() {
            TokenKindOf::Int(n) => {
                let n = *n as u64;
                self.advance();
                Ok(Some(n))
            },
            _ => Err(Error::Parse(text("expected integer"))),
        }
    }
}


/// The contract shared by the statement parsers: on success the result is the
/// statement the grammar gives and the parser stands after it; otherwise a
/// syntax error with the message `msg`.
pub open spec fn statement_result(
    spec_result: Option<(StatementV, int)>,
    r: Result<Statement, Error>,
    final_pos: int,
    msg: Seq<char>,
) -> bool {
    match spec_result {
        Some((st, q)) => r matches Ok(x) && x@ == st && final_pos == q,
        None => parse_failed(r, msg),
    }
}

impl Parser {
    fn parse_create_table(&mut self) -> (r: Result<Statement, Error>)
        requires
            old(self).wf(),
        ensures
            final(self).wf(),
            final(self).tokens == old(self).tokens,
            statement_result(
                syn_create(old(self).tokens(), old(self).position()),
                r,
                final(self).position(),
                create_err(old(self).tokens(), old(self).position()),
            ),
    {
        self.expect_keyword(Keyword::Create)?;
        self.expect_keyword(Keyword::Table)?;
        let name = self.expect_ident()?;
        self.expect_symbol('(')?;
        let columns = self.parse_column_defs()?;
        self.expect_symbol(')')?;
        self.consume_optional_semicolon();
        Ok(Statement::CreateTable { name, columns })
    }

    fn parse_drop_table(&mut self) -> (r: Result<Statement, Error>)
        requires
            old(self).wf(),
        ensures
            final(self).wf(),
            final(self).tokens == old(self).tokens,
            statement_result(
                syn_drop(old(self).tokens(), old(self).position()),
                r,
                final(self).position(),
                drop_err(old(self).tokens(), old(self).position()),
            ),
    {
        self.expect_keyword(Keyword::Drop)?;
        self.expect_keyword(Keyword::Table)?;
        let name = self.expect_ident()?;
        self.consume_optional_semicolon();
        Ok(Statement::DropTable { name })
    }

    fn parse_insert(&mut self) -> (r: Result<Statement, Error>)
        requires
            old(self).wf(),
        ensures
            final(self).wf(),
            final(self).tokens == old(self).tokens,
            statement_result(
                syn_insert(old(self).tokens(), old(self).position()),
                r,
                final(self).position(),
                insert_err(old(self).tokens(), old(self).position()),
            ),
    {
        self.expect_keyword(Keyword::Insert)?;
        self.expect_keyword(Keyword::Into)?;
        let table = self.expect_ident()?;
        self.expect_keyword(Keyword::Values)?;
        self.expect_symbol('(')?;
        let values = self.parse_values()?;
        self.expect_symbol(')')?;
        self.consume_optional_semicolon();
        Ok(Statement::Insert { table, values })
    }

    fn parse_select(&mut self) -> (r: Result<Statement, Error>)
        requires
            old(self).wf(),
        ensures
            final(self).wf(),
            final(self).tokens == old(self).tokens,
            statement_result(
                syn_select(old(self).tokens(), old(self).position()),
                r,
                final(self).position(),
                select_err(old(self).tokens(), old(self).position()),
            ),
    {
        self.expect_keyword(Keyword::Select)?;
        self.expect_symbol('*')?;
        self.expect_keyword(Keyword::From)?;
        let table = self.expect_ident()?;
        let where_clause = self.parse_where()?;
        let order_by = self.parse_order_by()?;
        let limit = self.parse_count(Keyword::Limit)?;
        let offset = self.parse_count(Keyword::Offset)?;
        self.consume_optional_semicolon();
        Ok(Statement::Select { table, where_clause, limit, offset, order_by })
    }

    fn parse_update(&mut self) -> (r: Result<Statement, Error>)
        requires
            old(self).wf(),
        ensures
            final(self).wf(),
            final(self).tokens == old(self).tokens,
            statement_result(
                syn_update(old(self).tokens(), old(self).position()),
                r,
                final(self).position(),
                update_err(old(self).tokens(), old(self).position()),
            ),
    {
        self.expect_keyword(Keyword::Update)?;
        let table = self.expect_ident()?;
        self.expect_keyword(Keyword::SetClause)?;
        let assignments = self.parse_assignments()?;
        let where_clause = self.parse_where()?;
        self.consume_optional_semicolon();
        Ok(Statement::Update { table, assignments, where_clause })
    }

    fn parse_delete(&mut self) -> (r: Result<Statement, Error>)
        requires
            old(self).wf(),
        ensures
            final(self).wf(),
            final(self).tokens == old(self).tokens,
            statement_result(
                syn_delete(old(self).tokens(), old(self).position()),
                r,
                final(self).position(),
                delete_err(old(self).tokens(), old(self).position()),
            ),
    {
        self.expect_keyword(Keyword::Delete)?;
        self.expect_keyword(Keyword::From)?;
        let table = self.expect_ident()?;
        let where_clause = self.parse_where()?;
        self.consume_optional_semicolon();
        Ok(Statement::Delete { table, where_clause })
    }

    fn parse_statement(&mut self) -> (r: Result<Statement, Error>)
        requires
            old(self).wf(),
        ensures
            final(self).wf(),
            final(self).tokens == old(self).tokens,
            statement_result(
                syn_statement(old(self).tokens(), old(self).position()),
                r,
                final(self).position(),
                statement_err(old(self).tokens(), old(self).position()),
            ),
    {
        if self.at_keyword(Keyword::Create) {
            self.parse_create_table()
        } else if self.at_keyword(Keyword::Drop) {
            self.parse_drop_table()
        } else if self.at_keyword(Keyword::Insert) {
            self.parse_insert()
        } else if self.at_keyword(Keyword::Select) {
            self.parse_select()
        } else if self.at_keyword(Keyword::Update) {
            self.parse_update()
        } else if self.at_keyword(Keyword::Delete) {
            self.parse_delete()
        } else {
            let mut m = text("unexpected token: ");
            push_kind_debug(&mut m, self.kind());
            Err(Error::Parse(m))
        }
    }

    /// Parses one statement, surrounded by optional semicolons, that must
    /// reach the end of the input.
    pub fn parse(&mut self) -> (r: Result<Statement, Error>)
        requires
            old(self).wf(),
        ensures
            final(self).wf(),
            final(self).tokens() == old(self).tokens(),
            statement_result(
                syn_parse(old(self).tokens(), old(self).position()),
                r,
                final(self).position(),
                parse_err(old(self).tokens(), old(self).position()),
            ),
    {
        self.consume_optional_semicolon();
        let stmt = self.parse_statement()?;
        self.consume_optional_semicolon();
        match self.kind() {
            TokenKindOf::Eof => Ok(stmt),
            _ => Err(Error::Parse(text("trailing tokens"))),
        }
    }
}

pub open spec fn order_view(o: Option<(String, bool)>) -> Option<(Seq<char>, bool)> {
    match o {
        Some((c, d)) => Some((c@, d)),
        None => None,
    }
}

pub proof fn lemma_prepend_items_empty<T>(rest: Option<(Seq<T>, int)>)
    ensures
        prepend_items(Seq::<T>::empty(), rest) == rest,
{
    match rest {
        Some((xs, q)) => { assert(Seq::<T>::empty() + xs =~= xs); },
        None => {},
    }
}

pub proof fn lemma_prepend_items_push<T>(d: Seq<T>, x: T, rest: Option<(Seq<T>, int)>)
    ensures
        prepend_items(d, prepend_item(x, rest)) == prepend_items(d.push(x), rest),
{
    match rest {
        Some((xs, q)) => { assert(d + (seq![x] + xs) =~= d.push(x) + xs); },
        None => {},
    }
}

} // verus!
