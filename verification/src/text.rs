//! Building strings character by character.
use vstd::prelude::*;

verus! {

/// Appends one character to a string.
/// Trusted: `String::push`, documented to append the given char to the end of the string.
#[verifier::external_body]
pub(crate) fn push_char(s: &mut String, c: char)
    ensures
        final(s)@ == old(s)@.push(c),
{
    s.push(c);
}

/// The characters of a string slice, as a vector.
pub fn chars_of(input: &str) -> (v: Vec<char>)
    ensures
        v@ == input@,
{
    let mut v: Vec<char> = Vec::new();
    for c in it: input.chars()
        invariant
            v@ == it.seq().take(it.index() as int),
    {
        v.push(c);
    }
    v
}

/// Builds a string out of `cs[lo..hi]`.
pub(crate) fn string_from_chars(cs: &Vec<char>, lo: usize, hi: usize) -> (s: String)
    requires
        lo <= hi <= cs@.len(),
    ensures
        s@ == cs@.subrange(lo as int, hi as int),
{
    let mut s = String::new();
    let mut i = lo;
    while i < hi
        invariant
            lo <= i <= hi <= cs@.len(),
            s@ == cs@.subrange(lo as int, i as int),
        decreases hi - i,
    {
        push_char(&mut s, cs[i]);
        assert(cs@.subrange(lo as int, i + 1) =~= cs@.subrange(lo as int, i as int).push(cs@[i as int]));
        i = i + 1;
    }
    s
}

/// A string holding one character.
pub(crate) fn string_of_char(c: char) -> (s: String)
    ensures
        s@ == seq![c],
{
    let mut s = String::new();
    push_char(&mut s, c);
    assert(s@ =~= seq![c]);
    s
}

/// A string made of the given text (used for messages).
pub(crate) fn text(t: &str) -> (s: String)
    ensures
        s@ == t@,
{
    t.to_owned()
}

/// Appends the characters of `t` to `s`.
pub(crate) fn append_str(s: &mut String, t: &str)
    ensures
        final(s)@ == old(s)@ + t@,
{
    let cs = chars_of(t);
    let mut i: usize = 0;
    while i < cs.len()
        invariant
            i <= cs@.len(),
            cs@ == t@,
            s@ == old(s)@ + cs@.subrange(0, i as int),
        decreases cs@.len() - i,
    {
        push_char(s, cs[i]);
        assert(cs@.subrange(0, i + 1) =~= cs@.subrange(0, i as int).push(cs@[i as int]));
        i = i + 1;
    }
    assert(cs@.subrange(0, cs@.len() as int) =~= cs@);
}

/// The decimal digit of `d`.
pub open spec fn digit_char(d: int) -> char {
    (48 + d) as char
}

/// The decimal numeral of `n`, without leading zeros.
pub open spec fn decimal(n: nat) -> Seq<char>
    decreases n,
{
    if n < 10 {
        seq![digit_char(n as int)]
    } else {
        decimal(n / 10).push(digit_char((n % 10) as int))
    }
}

/// The decimal numeral of `n`, with a minus sign when it is negative.
pub open spec fn signed_decimal(n: int) -> Seq<char> {
    if n < 0 { seq!['-'] + decimal((-n) as nat) } else { decimal(n as nat) }
}

/// Appends the decimal numeral of `n`.
pub(crate) fn push_decimal(s: &mut String, n: u64)
    ensures
        final(s)@ == old(s)@ + decimal(n as nat),
    decreases n,
{
    if n >= 10 {
        push_decimal(s, n / 10);
    }
    let d: u8 = (n % 10) as u8;
    let c = (48u8 + d) as char;
    push_char(s, c);
    proof {
        if n >= 10 {
            assert(old(s)@ + decimal(n as nat) =~= (old(s)@ + decimal((n / 10) as nat)).push(c));
        } else {
            assert(old(s)@ + decimal(n as nat) =~= old(s)@.push(c));
        }
    }
}

/// Appends the signed decimal numeral of `n`.
pub(crate) fn push_signed(s: &mut String, n: i64)
    ensures
        final(s)@ == old(s)@ + signed_decimal(n as int),
{
    if n < 0 {
        push_char(s, '-');
        let m: u64 = (0i128 - (n as i128)) as u64;
        push_decimal(s, m);
        assert(old(s)@ + signed_decimal(n as int) =~= old(s)@.push('-') + decimal(m as nat));
    } else {
        push_decimal(s, n as u64);
    }
}

/// The hexadecimal digit of `d`, in lower case.
pub open spec fn hex_digit(d: int) -> char {
    if d < 10 { (48 + d) as char } else { (87 + d) as char }
}

/// The hexadecimal numeral of a number below 256, without leading zeros.
pub open spec fn hex_small(n: int) -> Seq<char> {
    if n < 16 { seq![hex_digit(n)] } else { seq![hex_digit(n / 16), hex_digit(n % 16)] }
}

/// How debug formatting shows a character between `quote`s: the quote, the
/// backslash and the control characters are escaped; characters outside
/// ASCII are shown as they are.
pub open spec fn escape_char(c: char, quote: char) -> Seq<char> {
    if c == '\0' {
        seq!['\\', '0']
    } else if c == '\t' {
        seq!['\\', 't']
    } else if c == '\r' {
        seq!['\\', 'r']
    } else if c == '\n' {
        seq!['\\', 'n']
    } else if c == '\\' || c == quote {
        seq!['\\', c]
    } else if (c as int) < 32 || c as int == 127 {
        seq!['\\', 'u', '{'] + hex_small(c as int) + seq!['}']
    } else {
        seq![c]
    }
}

/// Each character of `t` as [`escape_char`] shows it.
pub open spec fn escape_text(t: Seq<char>, quote: char) -> Seq<char>
    decreases t.len(),
{
    if t.len() == 0 {
        Seq::empty()
    } else {
        escape_text(t.drop_last(), quote) + escape_char(t.last(), quote)
    }
}

fn hex_char(d: u32) -> (c: char)
    requires
        d < 16,
    ensures
        c == hex_digit(d as int),
{
    let b: u8 = d as u8;
    if b < 10 { (48u8 + b) as char } else { (87u8 + b) as char }
}

/// Appends `c` as [`escape_char`] shows it.
pub(crate) fn push_escaped_char(s: &mut String, c: char, quote: char)
    ensures
        final(s)@ == old(s)@ + escape_char(c, quote),
{
    let v = c as u32;
    if c == '\0' {
        push_char(s, '\\');
        push_char(s, '0');
    } else if c == '\t' {
        push_char(s, '\\');
        push_char(s, 't');
    } else if c == '\r' {
        push_char(s, '\\');
        push_char(s, 'r');
    } else if c == '\n' {
        push_char(s, '\\');
        push_char(s, 'n');
    } else if c == '\\' || c == quote {
        push_char(s, '\\');
        push_char(s, c);
    } else if v < 32 || v == 127 {
        push_char(s, '\\');
        push_char(s, 'u');
        push_char(s, '{');
        if v >= 16 {
            push_char(s, hex_char(v / 16));
        }
        push_char(s, hex_char(v % 16));
        push_char(s, '}');
    } else {
        push_char(s, c);
    }
    assert(final(s)@ =~= old(s)@ + escape_char(c, quote));
}

/// Appends `t` as [`escape_text`] shows it.
pub(crate) fn push_escaped(s: &mut String, t: &str, quote: char)
    ensures
        final(s)@ == old(s)@ + escape_text(t@, quote),
{
    let cs = chars_of(t);
    let mut i: usize = 0;
    while i < cs.len()
        invariant
            i <= cs@.len(),
            cs@ == t@,
            s@ == old(s)@ + escape_text(cs@.subrange(0, i as int), quote),
        decreases cs@.len() - i,
    {
        let ghost before = s@;
        push_escaped_char(s, cs[i], quote);
        assert(cs@.subrange(0, i + 1).drop_last() =~= cs@.subrange(0, i as int));
        assert(s@ =~= old(s)@ + escape_text(cs@.subrange(0, i + 1), quote));
        i = i + 1;
    }
    assert(cs@.subrange(0, cs@.len() as int) =~= cs@);
}

} // verus!
