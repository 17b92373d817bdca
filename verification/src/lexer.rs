//! A hand-written lexer for the supported SQL subset.
use vstd::prelude::*;
use crate::error::{Error, ErrorV};
use crate::text::{push_char, string_from_chars, string_of_char, text, chars_of};

verus! {

/// The reserved words of the language.
#[derive(Debug, Clone, Copy, PartialEq, Eq, Structural)]
pub enum Keyword {
    Create,
    Table,
    Drop,
    Insert,
    Into,
    Values,
    Select,
    From,
    Where,
    Update,
    /// The `SET` keyword of `UPDATE`.
    SetClause,
    Delete,
    Limit,
    Offset,
    Int,
    Float,
    Text,
    Bool,
    And,
    Or,
    Null,
    True,
    False,
}

/// The kind of a token, generic over the representation of text.
#[derive(Debug, Clone, PartialEq)]
pub enum TokenKindOf<S> {
    Keyword(Keyword),
    Ident,
    Int(i64),
    /// A decimal literal, as its canonical numeral.
    Float(S),
    Text(S),
    Symbol(char),
    Eof,
}

/// A token: its kind and the text it stands for.
#[derive(Debug, Clone, PartialEq)]
pub struct TokenOf<S> {
    pub kind: TokenKindOf<S>,
    pub lexeme: S,
}

pub type TokenKind = TokenKindOf<String>;

pub type Token = TokenOf<String>;

/// The model of a token.
pub type TokenV = TokenOf<Seq<char>>;

pub type TokenKindV = TokenKindOf<Seq<char>>;

impl View for TokenKindOf<String> {
    type V = TokenKindV;

    open spec fn view(&self) -> TokenKindV {
        match self {
            TokenKindOf::Keyword(k) => TokenKindOf::Keyword(*k),
            TokenKindOf::Ident => TokenKindOf::Ident,
            TokenKindOf::Int(n) => TokenKindOf::Int(*n),
            TokenKindOf::Float(s) => TokenKindOf::Float(s@),
            TokenKindOf::Text(s) => TokenKindOf::Text(s@),
            TokenKindOf::Symbol(c) => TokenKindOf::Symbol(*c),
            TokenKindOf::Eof => TokenKindOf::Eof,
        }
    }
}

impl View for TokenOf<String> {
    type V = TokenV;

    open spec fn view(&self) -> TokenV {
        TokenOf { kind: self.kind@, lexeme: self.lexeme@ }
    }
}

/// The model of a sequence of tokens.
pub open spec fn tokens_view(ts: Seq<Token>) -> Seq<TokenV> {
    ts.map_values(|t: Token| t@)
}

// ---------------------------------------------------------------------------
// Character classes (ASCII only: the language is scanned byte by byte)

pub open spec fn is_space(c: char) -> bool {
    c == ' ' || c == '\t' || c == '\n' || c == '\x0C' || c == '\r'
}

pub open spec fn is_alpha(c: char) -> bool {
    ('a' <= c && c <= 'z') || ('A' <= c && c <= 'Z')
}

pub open spec fn is_digit(c: char) -> bool {
    '0' <= c && c <= '9'
}

pub open spec fn is_ident_char(c: char) -> bool {
    is_alpha(c) || is_digit(c) || c == '_'
}

pub open spec fn is_symbol_char(c: char) -> bool {
    c == '(' || c == ')' || c == ',' || c == '*' || c == '=' || c == '<' || c == '>' || c == ';'
        || c == '-' || c == '+'
}

pub open spec fn digit_value(c: char) -> int {
    c as int - 48
}

// ---------------------------------------------------------------------------
// Keywords

/// The upper-case spelling of a keyword.
pub open spec fn keyword_text(k: Keyword) -> Seq<char> {
    match k {
        Keyword::Create => seq!['C', 'R', 'E', 'A', 'T', 'E'],
        Keyword::Table => seq!['T', 'A', 'B', 'L', 'E'],
        Keyword::Drop => seq!['D', 'R', 'O', 'P'],
        Keyword::Insert => seq!['I', 'N', 'S', 'E', 'R', 'T'],
        Keyword::Into => seq!['I', 'N', 'T', 'O'],
        Keyword::Values => seq!['V', 'A', 'L', 'U', 'E', 'S'],
        Keyword::Select => seq!['S', 'E', 'L', 'E', 'C', 'T'],
        Keyword::From => seq!['F', 'R', 'O', 'M'],
        Keyword::Where => seq!['W', 'H', 'E', 'R', 'E'],
        Keyword::Update => seq!['U', 'P', 'D', 'A', 'T', 'E'],
        Keyword::SetClause => seq!['S', 'E', 'T'],
        Keyword::Delete => seq!['D', 'E', 'L', 'E', 'T', 'E'],
        Keyword::Limit => seq!['L', 'I', 'M', 'I', 'T'],
        Keyword::Offset => seq!['O', 'F', 'F', 'S', 'E', 'T'],
        Keyword::Int => seq!['I', 'N', 'T'],
        Keyword::Float => seq!['F', 'L', 'O', 'A', 'T'],
        Keyword::Text => seq!['T', 'E', 'X', 'T'],
        Keyword::Bool => seq!['B', 'O', 'O', 'L'],
        Keyword::And => seq!['A', 'N', 'D'],
        Keyword::Or => seq!['O', 'R'],
        Keyword::Null => seq!['N', 'U', 'L', 'L'],
        Keyword::True => seq!['T', 'R', 'U', 'E'],
        Keyword::False => seq!['F', 'A', 'L', 'S', 'E'],
    }
}

/// `c` spells the upper-case ASCII letter `u` in either case.
pub open spec fn char_matches_upper(c: char, u: char) -> bool {
    c == u || (('A' <= u && u <= 'Z') && c as u32 == u as u32 + 32)
}

/// `w` equals the upper-case word `k`, ignoring ASCII case.
pub open spec fn word_matches(w: Seq<char>, k: Seq<char>) -> bool {
    w.len() == k.len() && forall|i: int| 0 <= i < w.len() ==> char_matches_upper(#[trigger] w[i], k[i])
}

pub open spec fn keyword_at(i: int) -> Keyword {
    if i <= 0 { Keyword::Create }
    else if i == 1 { Keyword::Table }
    else if i == 2 { Keyword::Drop }
    else if i == 3 { Keyword::Insert }
    else if i == 4 { Keyword::Into }
    else if i == 5 { Keyword::Values }
    else if i == 6 { Keyword::Select }
    else if i == 7 { Keyword::From }
    else if i == 8 { Keyword::Where }
    else if i == 9 { Keyword::Update }
    else if i == 10 { Keyword::SetClause }
    else if i == 11 { Keyword::Delete }
    else if i == 12 { Keyword::Limit }
    else if i == 13 { Keyword::Offset }
    else if i == 14 { Keyword::Int }
    else if i == 15 { Keyword::Float }
    else if i == 16 { Keyword::Text }
    else if i == 17 { Keyword::Bool }
    else if i == 18 { Keyword::And }
    else if i == 19 { Keyword::Or }
    else if i == 20 { Keyword::Null }
    else if i == 21 { Keyword::True }
    else { Keyword::False }
}

pub open spec fn keyword_count() -> int {
    23
}

/// The first keyword, in declaration order from index `i`, that `w` spells.
pub open spec fn keyword_from(w: Seq<char>, i: int) -> Option<Keyword>
    decreases keyword_count() - i,
{
    if i < 0 || i >= keyword_count() {
        None
    } else if word_matches(w, keyword_text(keyword_at(i))) {
        Some(keyword_at(i))
    } else {
        keyword_from(w, i + 1)
    }
}

/// The keyword a word spells (ignoring ASCII case), if any.
pub open spec fn keyword_of(w: Seq<char>) -> Option<Keyword> {
    keyword_from(w, 0)
}

/// The kind of a word token.
pub open spec fn word_kind(w: Seq<char>) -> TokenKindV {
    match keyword_of(w) {
        Some(k) => TokenKindOf::Keyword(k),
        None => TokenKindOf::Ident,
    }
}

// ---------------------------------------------------------------------------
// Scanning

pub open spec fn ident_run(s: Seq<char>, i: int) -> nat
    decreases s.len() - i,
{
    if 0 <= i < s.len() && is_ident_char(s[i]) {
        1 + ident_run(s, i + 1)
    } else {
        0
    }
}

pub open spec fn digit_run(s: Seq<char>, i: int) -> nat
    decreases s.len() - i,
{
    if 0 <= i < s.len() && is_digit(s[i]) {
        1 + digit_run(s, i + 1)
    } else {
        0
    }
}

pub open spec fn quote_run(s: Seq<char>, i: int) -> nat
    decreases s.len() - i,
{
    if 0 <= i < s.len() && s[i] != '\'' {
        1 + quote_run(s, i + 1)
    } else {
        0
    }
}

/// The value of a string of decimal digits.
pub open spec fn digits_value(d: Seq<char>) -> int
    decreases d.len(),
{
    if d.len() == 0 {
        0
    } else {
        digits_value(d.drop_last()) * 10 + digit_value(d.last())
    }
}

pub open spec fn strip_leading_zeros(d: Seq<char>) -> Seq<char>
    decreases d.len(),
{
    if d.len() > 1 && d[0] == '0' {
        strip_leading_zeros(d.drop_first())
    } else {
        d
    }
}

pub open spec fn strip_trailing_zeros(d: Seq<char>) -> Seq<char>
    decreases d.len(),
{
    if d.len() > 1 && d.last() == '0' {
        strip_trailing_zeros(d.drop_last())
    } else {
        d
    }
}

/// The canonical numeral of a decimal literal `ip.fp`.
pub open spec fn canonical_decimal(ip: Seq<char>, fp: Seq<char>) -> Seq<char> {
    strip_leading_zeros(ip) + seq!['.'] + strip_trailing_zeros(fp)
}

pub open spec fn prepend(t: TokenV, rest: Option<Seq<TokenV>>) -> Option<Seq<TokenV>> {
    match rest {
        Some(r) => Some(seq![t] + r),
        None => None,
    }
}

pub open spec fn eof_token() -> TokenV {
    TokenOf { kind: TokenKindOf::Eof, lexeme: Seq::empty() }
}

/// The token that starts at `i` in `s` and the position right after it,
/// or `None` when no token can start there (a lexical error).
/// Requires `s[i]` not to be white space.
pub open spec fn token_at(s: Seq<char>, i: int) -> Option<(TokenV, int)> {
    let c = s[i];
    if is_alpha(c) || c == '_' {
        let j = i + 1 + ident_run(s, i + 1);
        let w = s.subrange(i, j);
        Some((TokenOf { kind: word_kind(w), lexeme: w }, j))
    } else if is_digit(c) {
        let j = i + 1 + digit_run(s, i + 1);
        if j + 1 < s.len() && s[j] == '.' && is_digit(s[j + 1]) {
            let k = j + 2 + digit_run(s, j + 2);
            Some((
                TokenOf {
                    kind: TokenKindOf::Float(canonical_decimal(s.subrange(i, j), s.subrange(j + 1, k))),
                    lexeme: s.subrange(i, k),
                },
                k,
            ))
        } else {
            let d = s.subrange(i, j);
            if digits_value(d) > i64::MAX {
                None
            } else {
                Some((TokenOf { kind: TokenKindOf::Int(digits_value(d) as i64), lexeme: strip_leading_zeros(d) }, j))
            }
        }
    } else if c == '\'' {
        let j = i + 1 + quote_run(s, i + 1);
        if j >= s.len() {
            None
        } else {
            let t = s.subrange(i + 1, j);
            Some((TokenOf { kind: TokenKindOf::Text(t), lexeme: seq!['\''] + t + seq!['\''] }, j + 1))
        }
    } else if is_symbol_char(c) {
        Some((TokenOf { kind: TokenKindOf::Symbol(c), lexeme: seq![c] }, i + 1))
    } else {
        None
    }
}

pub proof fn lemma_token_at_advances(s: Seq<char>, i: int)
    requires
        0 <= i < s.len(),
    ensures
        token_at(s, i) matches Some((_, j)) ==> i < j <= s.len(),
{
    lemma_ident_run_bound(s, i + 1);
    lemma_digit_run_bound(s, i + 1);
    lemma_digit_run_bound(s, i + 1 + digit_run(s, i + 1) + 2);
    lemma_quote_run_bound(s, i + 1);
}

pub proof fn lemma_ident_run_bound(s: Seq<char>, i: int)
    requires 0 <= i,
    ensures i < s.len() ==> i + ident_run(s, i) <= s.len(), i >= s.len() ==> ident_run(s, i) == 0,
    decreases s.len() - i,
{
    if 0 <= i < s.len() && is_ident_char(s[i]) {
        lemma_ident_run_bound(s, i + 1);
    }
}

pub proof fn lemma_digit_run_bound(s: Seq<char>, i: int)
    requires 0 <= i,
    ensures i < s.len() ==> i + digit_run(s, i) <= s.len(), i >= s.len() ==> digit_run(s, i) == 0,
    decreases s.len() - i,
{
    if 0 <= i < s.len() && is_digit(s[i]) {
        lemma_digit_run_bound(s, i + 1);
    }
}

pub proof fn lemma_digit_run_digits(s: Seq<char>, i: int)
    requires 0 <= i,
    ensures forall|q: int| i <= q < i + digit_run(s, i) ==> is_digit(#[trigger] s[q]),
    decreases s.len() - i,
{
    if 0 <= i < s.len() && is_digit(s[i]) {
        lemma_digit_run_digits(s, i + 1);
    }
}

pub proof fn lemma_quote_run_bound(s: Seq<char>, i: int)
    requires 0 <= i,
    ensures i < s.len() ==> i + quote_run(s, i) <= s.len(), i >= s.len() ==> quote_run(s, i) == 0,
    decreases s.len() - i,
{
    if 0 <= i < s.len() && s[i] != '\'' {
        lemma_quote_run_bound(s, i + 1);
    }
}

/// The tokens of `s` from position `i` on, ending with `Eof`;
/// `None` when the text holds a lexical error from `i` on.
pub open spec fn lex_from(s: Seq<char>, i: int) -> Option<Seq<TokenV>>
    decreases s.len() - i,
{
    if i < 0 {
        None
    } else if i >= s.len() {
        Some(seq![eof_token()])
    } else if is_space(s[i]) {
        lex_from(s, i + 1)
    } else {
        match token_at(s, i) {
            Some((t, j)) => if i < j && j <= s.len() { prepend(t, lex_from(s, j)) } else { None },
            None => None,
        }
    }
}

/// The message of the error at a position where no token can start: an
/// integer too large, an unterminated string, or a character that starts no token.
pub open spec fn token_error(s: Seq<char>, i: int) -> Seq<char> {
    let c = s[i];
    if is_digit(c) {
        "number too large to fit in target type"@
    } else if c == '\'' {
        "unterminated string"@
    } else {
        "unexpected char `"@ + seq![byte_char(c)] + "`"@
    }
}

/// The character whose code is the first byte of `c`'s UTF-8 encoding
/// (`c` itself for ASCII): what a byte-wise scan reports.
pub open spec fn byte_char(c: char) -> char {
    let b = vstd::utf8::encode_utf8(seq![c]);
    if b.len() > 0 { b[0] as char } else { c }
}

/// The message of the first lexical error of `s` from position `i` on
/// (empty when there is none).
pub open spec fn lex_error(s: Seq<char>, i: int) -> Seq<char>
    decreases s.len() - i,
{
    if i < 0 || i >= s.len() {
        Seq::empty()
    } else if is_space(s[i]) {
        lex_error(s, i + 1)
    } else {
        match token_at(s, i) {
            Some((t, j)) => if i < j && j <= s.len() { lex_error(s, j) } else { Seq::empty() },
            None => token_error(s, i),
        }
    }
}

/// The tokens end with `Eof`, and `Eof` occurs nowhere else.
pub open spec fn eof_terminated(ts: Seq<TokenV>) -> bool {
    &&& ts.len() > 0
    &&& ts.last().kind is Eof
    &&& forall|i: int| 0 <= i < ts.len() - 1 ==> !(#[trigger] ts[i].kind is Eof)
}

/// Whatever the lexer produces is `Eof`-terminated.
pub proof fn lemma_lex_from_eof_terminated(s: Seq<char>, i: int)
    ensures
        lex_from(s, i) matches Some(ts) ==> eof_terminated(ts),
    decreases s.len() - i,
{
    if i >= 0 && i < s.len() {
        if is_space(s[i]) {
            lemma_lex_from_eof_terminated(s, i + 1);
        } else {
            match token_at(s, i) {
                Some((t, j)) => {
                    if i < j && j <= s.len() {
                        lemma_lex_from_eof_terminated(s, j);
                        if let Some(rest) = lex_from(s, j) {
                            let ts = seq![t] + rest;
                            assert forall|k: int| 0 <= k < ts.len() - 1 implies !(#[trigger] ts[k].kind is Eof) by {
                                if k > 0 {
                                    assert(ts[k] == rest[k - 1]);
                                }
                            }
                        }
                    }
                },
                None => {},
            }
        }
    }
}

/// The tokens of a text: `None` when it holds a lexical error.
pub open spec fn lex(s: Seq<char>) -> Option<Seq<TokenV>> {
    lex_from(s, 0)
}

/// ASCII white space between tokens is skipped: where the lexer stands on a
/// space, tab, newline, form feed or carriage return, it gives the same
/// tokens (or the same error) as from the next character on.
pub proof fn law_white_space_skipped(s: Seq<char>, i: int)
    requires
        0 <= i < s.len(),
        (s[i] == ' ' || s[i] == '\t' || s[i] == '\n' || s[i] == '\x0C' || s[i] == '\r'),
    ensures
        lex_from(s, i) == lex_from(s, i + 1),
        lex_error(s, i) == lex_error(s, i + 1),
{
}

/// A text of ASCII white space alone, from `i` on, lexes to the end marker only.
pub proof fn law_blank_text(s: Seq<char>, i: int)
    requires
        0 <= i <= s.len(),
        forall|j: int| i <= j < s.len() ==> {
            let c = #[trigger] s[j];
            c == ' ' || c == '\t' || c == '\n' || c == '\x0C' || c == '\r'
        },
    ensures
        lex_from(s, i) == Some(seq![eof_token()]),
    decreases s.len() - i,
{
    if i < s.len() {
        assert(s[i] == ' ' || s[i] == '\t' || s[i] == '\n' || s[i] == '\x0C' || s[i] == '\r');
        law_blank_text(s, i + 1);
    }
}


pub open spec fn prepend_all(p: Seq<TokenV>, rest: Option<Seq<TokenV>>) -> Option<Seq<TokenV>> {
    match rest {
        Some(r) => Some(p + r),
        None => None,
    }
}

proof fn lemma_lex_step(s: Seq<char>, i: int)
    requires
        0 <= i < s.len(),
        !is_space(s[i]),
    ensures
        match token_at(s, i) {
            Some((t, j)) => i < j <= s.len() && lex_from(s, i) == prepend(t, lex_from(s, j)),
            None => lex_from(s, i) is None,
        },
{
    lemma_token_at_advances(s, i);
}

// ---------------------------------------------------------------------------
// Executable lexer

fn keyword_at_exec(i: usize) -> (k: Keyword)
    ensures
        k == keyword_at(i as int),
{
    match i {
        0 => Keyword::Create,
        1 => Keyword::Table,
        2 => Keyword::Drop,
        3 => Keyword::Insert,
        4 => Keyword::Into,
        5 => Keyword::Values,
        6 => Keyword::Select,
        7 => Keyword::From,
        8 => Keyword::Where,
        9 => Keyword::Update,
        10 => Keyword::SetClause,
        11 => Keyword::Delete,
        12 => Keyword::Limit,
        13 => Keyword::Offset,
        14 => Keyword::Int,
        15 => Keyword::Float,
        16 => Keyword::Text,
        17 => Keyword::Bool,
        18 => Keyword::And,
        19 => Keyword::Or,
        20 => Keyword::Null,
        21 => Keyword::True,
        _ => Keyword::False,
    }
}

/// The upper-case spelling of a keyword.
pub fn keyword_chars(k: Keyword) -> (v: Vec<char>)
    ensures
        v@ == keyword_text(k),
{
    let v = match k {
        Keyword::Create => vec!['C', 'R', 'E', 'A', 'T', 'E'],
        Keyword::Table => vec!['T', 'A', 'B', 'L', 'E'],
        Keyword::Drop => vec!['D', 'R', 'O', 'P'],
        Keyword::Insert => vec!['I', 'N', 'S', 'E', 'R', 'T'],
        Keyword::Into => vec!['I', 'N', 'T', 'O'],
        Keyword::Values => vec!['V', 'A', 'L', 'U', 'E', 'S'],
        Keyword::Select => vec!['S', 'E', 'L', 'E', 'C', 'T'],
        Keyword::From => vec!['F', 'R', 'O', 'M'],
        Keyword::Where => vec!['W', 'H', 'E', 'R', 'E'],
        Keyword::Update => vec!['U', 'P', 'D', 'A', 'T', 'E'],
        Keyword::SetClause => vec!['S', 'E', 'T'],
        Keyword::Delete => vec!['D', 'E', 'L', 'E', 'T', 'E'],
        Keyword::Limit => vec!['L', 'I', 'M', 'I', 'T'],
        Keyword::Offset => vec!['O', 'F', 'F', 'S', 'E', 'T'],
        Keyword::Int => vec!['I', 'N', 'T'],
        Keyword::Float => vec!['F', 'L', 'O', 'A', 'T'],
        Keyword::Text => vec!['T', 'E', 'X', 'T'],
        Keyword::Bool => vec!['B', 'O', 'O', 'L'],
        Keyword::And => vec!['A', 'N', 'D'],
        Keyword::Or => vec!['O', 'R'],
        Keyword::Null => vec!['N', 'U', 'L', 'L'],
        Keyword::True => vec!['T', 'R', 'U', 'E'],
        Keyword::False => vec!['F', 'A', 'L', 'S', 'E'],
    };
    assert(v@ =~= keyword_text(k));
    v
}

/// Whether `w[lo..hi]` spells the upper-case word `k`, ignoring ASCII case.
pub(crate) fn range_matches_word(w: &Vec<char>, lo: usize, hi: usize, k: &Vec<char>) -> (b: bool)
    requires
        lo <= hi <= w@.len(),
    ensures
        b == word_matches(w@.subrange(lo as int, hi as int), k@),
{
    if hi - lo != k.len() {
        return false;
    }
    let mut i: usize = 0;
    while i < k.len()
        invariant
            hi - lo == k@.len(),
            lo <= hi <= w@.len(),
            0 <= i <= k@.len(),
            forall|m: int| 0 <= m < i ==> char_matches_upper(w@[lo + m], k@[m]),
        decreases k@.len() - i,
    {
        let c = w[lo + i];
        let u = k[i];
        let upper_letter = 'A' <= u && u <= 'Z';
        if !(c == u || (upper_letter && (c as u32) == (u as u32) + 32)) {
            assert(!char_matches_upper(w@.subrange(lo as int, hi as int)[i as int], k@[i as int]));
            return false;
        }
        i = i + 1;
    }
    assert forall|m: int| 0 <= m < (hi - lo) implies char_matches_upper(
        #[trigger] w@.subrange(lo as int, hi as int)[m],
        k@[m],
    ) by {
        assert(w@.subrange(lo as int, hi as int)[m] == w@[lo + m]);
    }
    true
}

/// The keyword that `w[lo..hi]` spells, if any.
fn lookup_keyword(w: &Vec<char>, lo: usize, hi: usize) -> (r: Option<Keyword>)
    requires
        lo <= hi <= w@.len(),
    ensures
        r == keyword_of(w@.subrange(lo as int, hi as int)),
{
    let ghost word = w@.subrange(lo as int, hi as int);
    let mut i: usize = 0;
    while i < 23
        invariant
            0 <= i <= 23,
            lo <= hi <= w@.len(),
            word == w@.subrange(lo as int, hi as int),
            keyword_of(word) == keyword_from(word, i as int),
        decreases 23 - i,
    {
        let k = keyword_at_exec(i);
        let spelled = keyword_chars(k);
        if range_matches_word(w, lo, hi, &spelled) {
            return Some(k);
        }
        i = i + 1;
    }
    None
}

/// Appends `cs[lo..hi]` to `s`.
fn push_range(s: &mut String, cs: &Vec<char>, lo: usize, hi: usize)
    requires
        lo <= hi <= cs@.len(),
    ensures
        final(s)@ == old(s)@ + cs@.subrange(lo as int, hi as int),
{
    let mut i = lo;
    while i < hi
        invariant
            lo <= i <= hi <= cs@.len(),
            s@ == old(s)@ + cs@.subrange(lo as int, i as int),
        decreases hi - i,
    {
        push_char(s, cs[i]);
        assert(cs@.subrange(lo as int, i + 1) =~= cs@.subrange(lo as int, i as int).push(cs@[i as int]));
        i = i + 1;
    }
}

proof fn lemma_digits_value_nonneg(d: Seq<char>)
    requires
        forall|i: int| 0 <= i < d.len() ==> is_digit(#[trigger] d[i]),
    ensures
        digits_value(d) >= 0,
    decreases d.len(),
{
    if d.len() > 0 {
        lemma_digits_value_nonneg(d.drop_last());
    }
}

/// A lexer over a SQL text.
pub struct Lexer {
    chars: Vec<char>,
    pos: usize,
}

impl Lexer {
    /// The text being lexed.
    pub closed spec fn source(&self) -> Seq<char> {
        self.chars@
    }

    /// The position the lexer stands at.
    pub closed spec fn position(&self) -> int {
        self.pos as int
    }

    /// A lexer at the start of `input`.
    pub fn new(input: &str) -> (l: Self)
        ensures
            l.source() == input@,
            l.position() == 0,
    {
        Lexer { chars: chars_of(input), pos: 0 }
    }

    fn peek(&self) -> (c: char)
        requires
            self.pos < self.chars@.len(),
        ensures
            c == self.chars@[self.pos as int],
    {
        self.chars[self.pos]
    }

    /// Whether `c` is one of the punctuation symbols `( ) , * = < > ; - +`.
    pub fn is_symbol(c: char) -> (b: bool)
        ensures
            b == is_symbol_char(c),
    {
        c == '(' || c == ')' || c == ',' || c == '*' || c == '=' || c == '<' || c == '>' || c == ';'
            || c == '-' || c == '+'
    }

    fn is_digit_at(&self, i: usize) -> (b: bool)
        ensures
            b == (i < self.chars@.len() && is_digit(self.chars@[i as int])),
    {
        i < self.chars.len() && '0' <= self.chars[i] && self.chars[i] <= '9'
    }

    /// End of the run of digits starting at `i`.
    fn digits_end(&self, i: usize) -> (j: usize)
        requires
            i <= self.chars@.len(),
        ensures
            j == i + digit_run(self.chars@, i as int),
            j <= self.chars@.len(),
    {
        let len = self.chars.len();
        let mut j = i;
        while self.is_digit_at(j)
            invariant
                len == self.chars@.len(),
                i <= j <= self.chars@.len(),
                i + digit_run(self.chars@, i as int) == j + digit_run(self.chars@, j as int),
            decreases self.chars@.len() - j,
        {
            j = j + 1;
        }
        j
    }

    /// Reads the token that starts at the current position.
    fn read_token(&mut self) -> (r: Result<Token, Error>)
        requires
            old(self).pos < old(self).chars@.len(),
            !is_space(old(self).chars@[old(self).pos as int]),
        ensures
            final(self).chars == old(self).chars,
            match r {
                Ok(t) => token_at(old(self).chars@, old(self).pos as int) == Some((t@, final(self).pos as int)),
                Err(e) => token_at(old(self).chars@, old(self).pos as int) is None
                    && e@ == ErrorV::Lexer(token_error(old(self).chars@, old(self).pos as int)),
            },
    {
        let len = self.chars.len();
        let c = self.peek();
        if ('a' <= c && c <= 'z') || ('A' <= c && c <= 'Z') || c == '_' {
            Ok(self.read_ident_or_keyword())
        } else if '0' <= c && c <= '9' {
            self.read_number()
        } else if c == '\'' {
            self.read_string()
        } else if Self::is_symbol(c) {
            self.pos = self.pos + 1;
            Ok(Token { kind: TokenKindOf::Symbol(c), lexeme: string_of_char(c) })
        } else {
            let one = string_of_char(c);
            let bytes = one.as_str().as_bytes();
            let shown: char = if bytes.len() > 0 { bytes[0] as char } else { c };
            let mut m = text("unexpected char `");
            push_char(&mut m, shown);
            push_char(&mut m, '`');
            proof {
                reveal_strlit("`");
                assert(m@ =~= "unexpected char `"@ + seq![byte_char(c)] + "`"@);
            }
            Err(Error::Lexer(m))
        }
    }

    fn read_ident_or_keyword(&mut self) -> (t: Token)
        requires
            old(self).pos < old(self).chars@.len(),
            is_alpha(old(self).chars@[old(self).pos as int]) || old(self).chars@[old(self).pos as int] == '_',
        ensures
            final(self).chars == old(self).chars,
            token_at(old(self).chars@, old(self).pos as int) == Some((t@, final(self).pos as int)),
    {
        let len = self.chars.len();
        let start = self.pos;
        let mut j = start + 1;
        while j < self.chars.len() && (('a' <= self.chars[j] && self.chars[j] <= 'z') || ('A' <= self.chars[j] && self.chars[j] <= 'Z')
            || ('0' <= self.chars[j] && self.chars[j] <= '9') || self.chars[j] == '_')
            invariant
                len == self.chars@.len(),
                start < j <= self.chars@.len(),
                start + 1 + ident_run(self.chars@, start + 1) == j + ident_run(self.chars@, j as int),
            decreases self.chars@.len() - j,
        {
            j = j + 1;
        }
        let lexeme = string_from_chars(&self.chars, start, j);
        let kind = match lookup_keyword(&self.chars, start, j) {
            Some(k) => TokenKindOf::Keyword(k),
            None => TokenKindOf::Ident,
        };
        self.pos = j;
        Token { kind, lexeme }
    }

    fn read_number(&mut self) -> (r: Result<Token, Error>)
        requires
            old(self).pos < old(self).chars@.len(),
            is_digit(old(self).chars@[old(self).pos as int]),
        ensures
            final(self).chars == old(self).chars,
            match r {
                Ok(t) => token_at(old(self).chars@, old(self).pos as int) == Some((t@, final(self).pos as int)),
                Err(e) => token_at(old(self).chars@, old(self).pos as int) is None
                    && e@ == ErrorV::Lexer(token_error(old(self).chars@, old(self).pos as int)),
            },
    {
        let ghost s = self.chars@;
        let len = self.chars.len();
        let start = self.pos;
        let j = self.digits_end(start + 1);
        if j < self.chars.len() && self.chars[j] == '.' && self.is_digit_at(j + 1) {
            let k = self.digits_end(j + 2);
            // canonical integer part
            let mut a = start;
            assert(s.subrange(start as int, j as int) == s.subrange(a as int, j as int));
            while a + 1 < j && self.chars[a] == '0'
                invariant
                    start <= a < j <= s.len(),
                    s == self.chars@,
                    strip_leading_zeros(s.subrange(start as int, j as int)) == strip_leading_zeros(s.subrange(a as int, j as int)),
                decreases j - a,
            {
                assert(s.subrange(a as int, j as int).drop_first() =~= s.subrange(a + 1, j as int));
                a = a + 1;
            }
            // canonical fraction
            let mut b = k;
            assert(s.subrange(j + 1, k as int) == s.subrange(j + 1, b as int));
            while b > j + 2 && self.chars[b - 1] == '0'
                invariant
                    j + 2 <= b <= k <= s.len(),
                    s == self.chars@,
                    strip_trailing_zeros(s.subrange(j + 1, k as int)) == strip_trailing_zeros(s.subrange(j + 1, b as int)),
                decreases b,
            {
                assert(s.subrange(j + 1, b as int).drop_last() =~= s.subrange(j + 1, b - 1));
                b = b - 1;
            }
            let mut numeral = string_from_chars(&self.chars, a, j);
            push_char(&mut numeral, '.');
            push_range(&mut numeral, &self.chars, j + 1, b);
            assert(numeral@ =~= canonical_decimal(s.subrange(start as int, j as int), s.subrange(j + 1, k as int)));
            let lexeme = string_from_chars(&self.chars, start, k);
            self.pos = k;
            Ok(Token { kind: TokenKindOf::Float(numeral), lexeme })
        } else {
            proof {
                lemma_digit_run_digits(s, start + 1);
            }
            let mut n: i64 = 0;
            let mut too_large = false;
            let mut m = start;
            assert(s.subrange(start as int, start as int) =~= Seq::<char>::empty());
            while m < j
                invariant
                    start <= m <= j <= s.len(),
                    s == self.chars@,
                    forall|q: int| start <= q < j ==> is_digit(#[trigger] s[q]),
                    !too_large ==> n as int == digits_value(s.subrange(start as int, m as int)),
                    too_large ==> digits_value(s.subrange(start as int, m as int)) > i64::MAX,
                    n >= 0,
                decreases j - m,
            {
                let c = self.chars[m];
                let d = ((c as u32) - 48u32) as i64;
                let ghost prev = s.subrange(start as int, m as int);
                assert(s.subrange(start as int, m + 1).drop_last() =~= prev);
                assert(s.subrange(start as int, m + 1).last() == c);
                proof {
                    assert forall|q: int| 0 <= q < prev.len() implies is_digit(#[trigger] prev[q]) by {
                        assert(prev[q] == s[start + q]);
                    }
                    lemma_digits_value_nonneg(prev);
                }
                if !too_large {
                    if n > (i64::MAX - d) / 10 {
                        assert(n * 10 + d > i64::MAX) by (nonlinear_arith)
                            requires n > (i64::MAX - d) / 10, 0 <= d <= 9;
                        too_large = true;
                    } else {
                        assert(n * 10 + d <= i64::MAX) by (nonlinear_arith)
                            requires n <= (i64::MAX - d) / 10, 0 <= d <= 9, n >= 0;
                        n = n * 10 + d;
                    }
                } else {
                    let ghost v = digits_value(prev);
                    assert(v * 10 + d > i64::MAX) by (nonlinear_arith)
                        requires v > i64::MAX, 0 <= d <= 9;
                }
                m = m + 1;
            }
            if too_large {
                return Err(Error::Lexer(text("number too large to fit in target type")));
            }
            let mut a = start;
            assert(s.subrange(start as int, j as int) == s.subrange(a as int, j as int));
            while a + 1 < j && self.chars[a] == '0'
                invariant
                    start <= a < j <= s.len(),
                    s == self.chars@,
                    strip_leading_zeros(s.subrange(start as int, j as int)) == strip_leading_zeros(s.subrange(a as int, j as int)),
                decreases j - a,
            {
                assert(s.subrange(a as int, j as int).drop_first() =~= s.subrange(a + 1, j as int));
                a = a + 1;
            }
            let lexeme = string_from_chars(&self.chars, a, j);
            self.pos = j;
            Ok(Token { kind: TokenKindOf::Int(n), lexeme })
        }
    }

    fn read_string(&mut self) -> (r: Result<Token, Error>)
        requires
            old(self).pos < old(self).chars@.len(),
            old(self).chars@[old(self).pos as int] == '\'',
        ensures
            final(self).chars == old(self).chars,
            match r {
                Ok(t) => token_at(old(self).chars@, old(self).pos as int) == Some((t@, final(self).pos as int)),
                Err(e) => token_at(old(self).chars@, old(self).pos as int) is None
                    && e@ == ErrorV::Lexer(token_error(old(self).chars@, old(self).pos as int)),
            },
    {
        let ghost s = self.chars@;
        let len = self.chars.len();
        let start = self.pos;
        let mut j = start + 1;
        while j < self.chars.len() && self.chars[j] != '\''
            invariant
                start < j <= s.len(),
                s == self.chars@,
                start + 1 + quote_run(s, start + 1) == j + quote_run(s, j as int),
            decreases s.len() - j,
        {
            j = j + 1;
        }
        if j >= self.chars.len() {
            return Err(Error::Lexer(text("unterminated string")));
        }
        let content = string_from_chars(&self.chars, start + 1, j);
        let mut lexeme = string_of_char('\'');
        push_range(&mut lexeme, &self.chars, start + 1, j);
        push_char(&mut lexeme, '\'');
        assert(lexeme@ =~= seq!['\''] + s.subrange(start + 1, j as int) + seq!['\'']);
        self.pos = j + 1;
        Ok(Token { kind: TokenKindOf::Text(content), lexeme })
    }

    /// Splits the whole text into tokens, ending with `Eof`.
    pub fn tokenize(self) -> (r: Result<Vec<Token>, Error>)
        ensures
            match r {
                Ok(ts) => lex_from(self.source(), self.position()) == Some(tokens_view(ts@)),
                Err(e) => lex_from(self.source(), self.position()) is None
                    && e@ == ErrorV::Lexer(lex_error(self.source(), self.position())),
            },
    {
        let ghost s = self.chars@;
        let ghost p0 = self.pos as int;
        let ghost src = self.source();
        let ghost at = self.position();
        assert(src == s && at == p0);
        let mut me = self;
        let mut out: Vec<Token> = Vec::new();
        assert(tokens_view(out@) =~= Seq::<TokenV>::empty());
        assert(lex_from(s, p0) == prepend_all(tokens_view(out@), lex_from(s, me.pos as int))) by {
            match lex_from(s, p0) {
                Some(r) => { assert(Seq::<TokenV>::empty() + r =~= r); },
                None => {},
            }
        }
        while me.pos < me.chars.len()
            invariant
                s == me.chars@,
                src == s,
                at == p0,
                src == self.source(),
                at == self.position(),
                lex_from(s, p0) == prepend_all(tokens_view(out@), lex_from(s, me.pos as int)),
                p0 >= 0 ==> lex_error(s, p0) == lex_error(s, me.pos as int),
            decreases s.len() - me.pos,
        {
            let ghost before = me.pos as int;
            let c = me.peek();
            if c == ' ' || c == '\t' || c == '\n' || c == '\x0C' || c == '\r' {
                me.pos = me.pos + 1;
                continue;
            }
            proof {
                lemma_lex_step(s, before);
            }
            let tok = match me.read_token() {
                Ok(t) => t,
                Err(e) => {
                    return Err(e);
                },
            };
            let ghost done = tokens_view(out@);
            out.push(tok);
            proof {
                assert(tokens_view(out@) =~= done.push(tok@));
                match lex_from(s, me.pos as int) {
                    Some(r) => { assert(done + (seq![tok@] + r) =~= done.push(tok@) + r); },
                    None => {},
                }
            }
        }
        let ghost done = tokens_view(out@);
        out.push(Token { kind: TokenKindOf::Eof, lexeme: String::new() });
        proof {
            assert(tokens_view(out@) =~= done + seq![eof_token()]);
        }
        Ok(out)
    }
}

} // verus!
