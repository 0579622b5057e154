//! The text grammar of a document, as spec functions, and the parser that
//! implements it.
//!
//! A document is a list of `key value` pairs separated by optional
//! whitespace. A key is a letter or `_` followed by letters, digits or `_`.
//! A value is a string (`"` up to the next `"`, taken verbatim), an integer
//! (an optional `+` or `-` sign and at least one digit) or an object
//! (`[`, a list of pairs, `]`).
use vstd::prelude::*;

use crate::error::{ErrorKind, GMLError};
use crate::value::{pairs_view, value_view, Attr, GMLObject, GMLValue, ValueView};

verus! {

broadcast use vstd::seq::group_seq_axioms;

/// Relies on `String::push`: the character is appended at the end.
pub assume_specification[ String::push ](string: &mut String, ch: char)
    ensures
        final(string)@ == old(string)@.push(ch),
;

/// A list of parsed pairs, by meaning.
pub type PairsView = Seq<(Seq<char>, ValueView)>;

/// The classes of characters that the grammar scans runs of.
#[derive(Clone, Copy)]
pub enum CharClass {
    /// Space, tab, carriage return, line feed.
    Space,
    /// A letter, a digit or `_`.
    KeyChar,
    /// A decimal digit.
    Digit,
    /// Anything but `"`.
    TextChar,
}

/// A character that can start a key.
pub open spec fn is_key_start(c: char) -> bool {
    ('a' <= c && c <= 'z') || ('A' <= c && c <= 'Z') || c == '_'
}

/// A decimal digit.
pub open spec fn is_digit(c: char) -> bool {
    '0' <= c && c <= '9'
}

/// Whether `c` is of class `k`.
pub open spec fn in_class(c: char, k: CharClass) -> bool {
    match k {
        CharClass::Space => c == ' ' || c == '\t' || c == '\r' || c == '\n',
        CharClass::KeyChar => is_key_start(c) || is_digit(c),
        CharClass::Digit => is_digit(c),
        CharClass::TextChar => c != '"',
    }
}

/// The length of the run of characters of class `k` that starts at `i`.
pub open spec fn run_len(s: Seq<char>, i: int, k: CharClass) -> nat
    decreases s.len() - i,
{
    if 0 <= i < s.len() && in_class(s[i], k) {
        1 + run_len(s, i + 1, k)
    } else {
        0
    }
}

/// The number that the decimal digits `s[from..to]` write.
pub open spec fn digits_value(s: Seq<char>, from: int, to: int) -> int
    decreases to - from,
{
    if to <= from {
        0
    } else {
        digits_value(s, from, to - 1) * 10 + ((s[to - 1] as u32) as int - 48)
    }
}

/// How many characters are left from position `i` on.
pub open spec fn remaining(s: Seq<char>, i: int) -> nat {
    if i <= s.len() { (s.len() - i) as nat } else { 0 }
}

/// The value that starts at `i`, and the position after it; or the
/// position at which the text leaves the grammar.
pub open spec fn parse_value(s: Seq<char>, i: int) -> Result<(ValueView, int), int>
    decreases remaining(s, i), 1int,
{
    if i < 0 || i >= s.len() {
        Err(i)
    } else if s[i] == '"' {
        let e = i + 1 + run_len(s, i + 1, CharClass::TextChar);
        if e < s.len() {
            Ok((ValueView::Text(s.subrange(i + 1, e)), e + 1))
        } else {
            Err(e)
        }
    } else if s[i] == '[' {
        match parse_pairs(s, i + 1, false) {
            Ok((ps, m)) => Ok((ValueView::Object(ps), m)),
            Err(e) => Err(e),
        }
    } else if s[i] == '-' || s[i] == '+' || is_digit(s[i]) {
        let d = if is_digit(s[i]) { i } else { i + 1 };
        let e = d + run_len(s, d, CharClass::Digit);
        if e == d {
            Err(d)
        } else {
            let mag = digits_value(s, d, e);
            Ok((ValueView::Int(if s[i] == '-' { -mag } else { mag }), e))
        }
    } else {
        Err(i)
    }
}

/// The pairs that start at `i`, up to the end of the text (`top`) or up to
/// and including the `]` that closes an object, and the position after
/// them; or the position at which the text leaves the grammar.
pub open spec fn parse_pairs(s: Seq<char>, i: int, top: bool) -> Result<(PairsView, int), int>
    decreases remaining(s, i), 0int,
{
    let j = i + run_len(s, i, CharClass::Space);
    if i < 0 || j >= s.len() {
        if top { Ok((Seq::empty(), j)) } else { Err(j) }
    } else if !top && s[j] == ']' {
        Ok((Seq::empty(), j + 1))
    } else if !is_key_start(s[j]) {
        Err(j)
    } else {
        let k = j + 1 + run_len(s, j + 1, CharClass::KeyChar);
        let p = k + run_len(s, k, CharClass::Space);
        match parse_value(s, p) {
            Err(e) => Err(e),
            Ok((v, m)) => if m <= i {
                // a value always ends after its start (`lemma_value_bounds`); this
                // branch only lets the recursion be seen to terminate
                Err(m)
            } else {
                match parse_pairs(s, m, top) {
                    Err(e) => Err(e),
                    Ok((rest, n)) => Ok((seq![(key_at(s, j, k), v)] + rest, n)),
                }
            },
        }
    }
}

/// The key that stands in `s[j..k]`.
pub open spec fn key_at(s: Seq<char>, j: int, k: int) -> Seq<char> {
    s.subrange(j, k)
}

/// Whether every integer of a value fits in 64 signed bits.
pub open spec fn value_fits(v: ValueView) -> bool
    decreases v,
{
    match v {
        ValueView::Int(n) => i64::MIN <= n <= i64::MAX,
        ValueView::Text(_) => true,
        ValueView::Object(ps) => pairs_fit(ps),
    }
}

/// Whether every integer of a list of pairs fits in 64 signed bits.
pub open spec fn pairs_fit(ps: PairsView) -> bool
    decreases ps,
{
    if ps.len() == 0 {
        true
    } else {
        pairs_fit(ps.drop_last()) && value_fits(ps.last().1)
    }
}

/// What parsing a whole document gives: its pairs, or the error.
pub open spec fn document_result(s: Seq<char>) -> Result<PairsView, ErrorKind> {
    match parse_pairs(s, 0, true) {
        Err(e) => Err(ErrorKind::Syntax { offset: e as usize }),
        Ok((ps, _)) => if pairs_fit(ps) { Ok(ps) } else { Err(ErrorKind::NumberFormat) },
    }
}

/// `r` with `acc` put in front of its pairs.
pub open spec fn prepend(acc: PairsView, r: Result<(PairsView, int), int>) -> Result<
    (PairsView, int),
    int,
> {
    match r {
        Ok((ps, n)) => Ok((acc + ps, n)),
        Err(e) => Err(e),
    }
}

proof fn lemma_run_len_bound(s: Seq<char>, i: int, k: CharClass)
    requires
        0 <= i <= s.len(),
    ensures
        i + run_len(s, i, k) <= s.len(),
        forall|t: int| i <= t < i + run_len(s, i, k) ==> in_class(#[trigger] s[t], k),
        i + run_len(s, i, k) < s.len() ==> !in_class(s[i + run_len(s, i, k)], k),
    decreases s.len() - i,
{
    if i < s.len() && in_class(s[i], k) {
        lemma_run_len_bound(s, i + 1, k);
    }
}

proof fn lemma_digits_value_nonneg(s: Seq<char>, from: int, to: int)
    requires
        0 <= from,
        to <= s.len(),
        forall|t: int| from <= t < to ==> is_digit(#[trigger] s[t]),
    ensures
        digits_value(s, from, to) >= 0,
    decreases to - from,
{
    if to > from {
        lemma_digits_value_nonneg(s, from, to - 1);
    }
}

/// A value that parses ends after its start and within the text.
proof fn lemma_value_bounds(s: Seq<char>, i: int)
    requires
        0 <= i <= s.len(),
    ensures
        parse_value(s, i) matches Ok((_, m)) ==> i < m <= s.len(),
        parse_value(s, i) matches Err(e) ==> 0 <= e <= s.len(),
    decreases remaining(s, i), 1int,
{
    if 0 <= i < s.len() {
        if s[i] == '"' {
            lemma_run_len_bound(s, i + 1, CharClass::TextChar);
        } else if s[i] == '[' {
            lemma_pairs_bounds(s, i + 1, false);
        } else if s[i] == '-' || s[i] == '+' || is_digit(s[i]) {
            let d = if is_digit(s[i]) { i } else { i + 1 };
            lemma_run_len_bound(s, d, CharClass::Digit);
        }
    }
}

/// Pairs that parse end at or after their start and within the text.
proof fn lemma_pairs_bounds(s: Seq<char>, i: int, top: bool)
    requires
        0 <= i <= s.len(),
    ensures
        parse_pairs(s, i, top) matches Ok((_, n)) ==> i <= n <= s.len(),
        parse_pairs(s, i, top) matches Err(e) ==> 0 <= e <= s.len(),
    decreases remaining(s, i), 0int,
{
    lemma_run_len_bound(s, i, CharClass::Space);
    let j = i + run_len(s, i, CharClass::Space);
    if j < s.len() && !(!top && s[j] == ']') && is_key_start(s[j]) {
        lemma_run_len_bound(s, j + 1, CharClass::KeyChar);
        let k = j + 1 + run_len(s, j + 1, CharClass::KeyChar);
        lemma_run_len_bound(s, k, CharClass::Space);
        let p = k + run_len(s, k, CharClass::Space);
        lemma_value_bounds(s, p);
        if let Ok((v, m)) = parse_value(s, p) {
            if m > i {
                lemma_pairs_bounds(s, m, top);
            }
        }
    }
}

fn in_class_exec(c: char, k: CharClass) -> (r: bool)
    ensures
        r == in_class(c, k),
{
    match k {
        CharClass::Space => c == ' ' || c == '\t' || c == '\r' || c == '\n',
        CharClass::KeyChar => ('a' <= c && c <= 'z') || ('A' <= c && c <= 'Z') || c == '_' || ('0'
            <= c && c <= '9'),
        CharClass::Digit => '0' <= c && c <= '9',
        CharClass::TextChar => c != '"',
    }
}

/// The end of the run of characters of class `k` that starts at `i`.
fn scan(cs: &Vec<char>, i: usize, k: CharClass) -> (r: usize)
    requires
        i <= cs@.len(),
    ensures
        r == i + run_len(cs@, i as int, k),
        r <= cs@.len(),
{
    let mut j: usize = i;
    while j < cs.len() && in_class_exec(cs[j], k)
        invariant
            i <= j <= cs@.len(),
            i + run_len(cs@, i as int, k) == j + run_len(cs@, j as int, k),
        decreases cs@.len() - j,
    {
        j = j + 1;
    }
    j
}

/// The characters `cs[from..to]` as a string.
fn string_of(cs: &Vec<char>, from: usize, to: usize) -> (r: String)
    requires
        from <= to <= cs@.len(),
    ensures
        r@ == cs@.subrange(from as int, to as int),
{
    let mut out = String::new();
    let mut j: usize = from;
    while j < to
        invariant
            from <= j <= to <= cs@.len(),
            out@ == cs@.subrange(from as int, j as int),
        decreases to - j,
    {
        out.push(cs[j]);
        j = j + 1;
    }
    out
}

/// The characters of a string, in order.
fn chars_of(text: &str) -> (r: Vec<char>)
    ensures
        r@ == text@,
{
    let mut out: Vec<char> = Vec::new();
    for c in iter: text.chars()
        invariant
            out@ == iter.seq().take(iter.index() as int),
    {
        out.push(c);
    }
    out
}

/// The smallest magnitude that no `i64` of either sign reaches.
const NEG_LIMIT: u64 = 9223372036854775808;

/// The integer written by the digits `cs[d..e]`, with the sign of `negative`;
/// `None` where it does not fit in an `i64`.
fn read_integer(cs: &Vec<char>, d: usize, e: usize, negative: bool) -> (r: Option<i64>)
    requires
        d < e <= cs@.len(),
        forall|t: int| d <= t < e ==> is_digit(#[trigger] cs@[t]),
    ensures
        ({
            let mag = digits_value(cs@, d as int, e as int);
            let n = if negative { -mag } else { mag };
            &&& r is Some <==> i64::MIN <= n <= i64::MAX
            &&& r matches Some(x) ==> x == n
        }),
{
    let mut mag: u64 = 0;
    let mut big = false;
    let mut j: usize = d;
    while j < e
        invariant
            d <= j <= e <= cs@.len(),
            forall|t: int| d <= t < e ==> is_digit(#[trigger] cs@[t]),
            !big ==> mag == digits_value(cs@, d as int, j as int) && mag <= NEG_LIMIT,
            big ==> digits_value(cs@, d as int, j as int) > NEG_LIMIT,
        decreases e - j,
    {
        proof {
            lemma_digits_value_nonneg(cs@, d as int, j as int);
        }
        let c = cs[j];
        assert(is_digit(c));
        let dig: u64 = (c as u32 - 48) as u64;
        if !big {
            if mag > 922337203685477580 || (mag == 922337203685477580 && dig > 8) {
                big = true;
            } else {
                mag = mag * 10 + dig;
            }
        }
        j = j + 1;
    }
    if big {
        None
    } else if negative {
        if mag == NEG_LIMIT {
            Some(i64::MIN)
        } else {
            Some(-(mag as i64))
        }
    } else if mag == NEG_LIMIT {
        None
    } else {
        Some(mag as i64)
    }
}

fn is_key_start_exec(c: char) -> (r: bool)
    ensures
        r == is_key_start(c),
{
    ('a' <= c && c <= 'z') || ('A' <= c && c <= 'Z') || c == '_'
}

/// Reads the value that starts at `i`: the value, the position after it,
/// and whether some integer in it does not fit in an `i64` (the value then
/// holds 0 in its place and is of no use).
fn read_value(cs: &Vec<char>, i: usize) -> (r: Result<(GMLValue, usize, bool), usize>)
    requires
        i <= cs@.len(),
    ensures
        match parse_value(cs@, i as int) {
            Ok((v, m)) => r matches Ok((x, n, over)) && n == m && over == !value_fits(v) && (!over
                ==> value_view(x) == v),
            Err(e) => r matches Err(x) && x == e,
        },
    decreases remaining(cs@, i as int), 1int,
{
    if i >= cs.len() {
        return Err(i);
    }
    let c = cs[i];
    if c == '"' {
        let e = scan(cs, i + 1, CharClass::TextChar);
        if e < cs.len() {
            Ok((GMLValue::GMLString(string_of(cs, i + 1, e)), e + 1, false))
        } else {
            Err(e)
        }
    } else if c == '[' {
        match read_pairs(cs, i + 1, false) {
            Ok((ps, m, over)) => Ok((GMLValue::GMLObject(Box::new(GMLObject { pairs: ps })), m, over)),
            Err(e) => Err(e),
        }
    } else if c == '-' || c == '+' || ('0' <= c && c <= '9') {
        let d = if '0' <= c && c <= '9' {
            i
        } else {
            i + 1
        };
        let e = scan(cs, d, CharClass::Digit);
        if e == d {
            return Err(d);
        }
        proof {
            lemma_run_len_bound(cs@, d as int, CharClass::Digit);
        }
        match read_integer(cs, d, e, c == '-') {
            Some(n) => Ok((GMLValue::GMLInt(n), e, false)),
            None => Ok((GMLValue::GMLInt(0), e, true)),
        }
    } else {
        Err(i)
    }
}

/// Reads the pairs that start at `i`, up to the end of the text (`top`) or
/// up to and including the `]` that closes an object: the pairs, the
/// position after them, and whether some integer in them does not fit in an
/// `i64` (the pairs are then of no use).
fn read_pairs(cs: &Vec<char>, i: usize, top: bool) -> (r: Result<(Vec<Attr>, usize, bool), usize>)
    requires
        i <= cs@.len(),
    ensures
        match parse_pairs(cs@, i as int, top) {
            Ok((ps, m)) => r matches Ok((x, n, over)) && n == m && over == !pairs_fit(ps) && (!over
                ==> pairs_view(x@) == ps),
            Err(e) => r matches Err(x) && x == e,
        },
    decreases remaining(cs@, i as int), 0int,
{
    let ghost s = cs@;
    let mut acc: Vec<Attr> = Vec::new();
    let ghost mut acc_view: PairsView = Seq::empty();
    let mut over = false;
    let mut pos: usize = i;
    loop
        invariant
            s == cs@,
            i <= pos <= s.len(),
            parse_pairs(s, i as int, top) == prepend(acc_view, parse_pairs(s, pos as int, top)),
            over == !pairs_fit(acc_view),
            !over ==> pairs_view(acc@) == acc_view,
        decreases remaining(s, pos as int),
    {
        let j = scan(cs, pos, CharClass::Space);
        if j >= cs.len() {
            if top {
                assert(acc_view + Seq::empty() =~= acc_view);
                return Ok((acc, j, over));
            } else {
                return Err(j);
            }
        }
        if !top && cs[j] == ']' {
            assert(acc_view + Seq::empty() =~= acc_view);
            return Ok((acc, j + 1, over));
        }
        if !is_key_start_exec(cs[j]) {
            return Err(j);
        }
        let k = scan(cs, j + 1, CharClass::KeyChar);
        let p = scan(cs, k, CharClass::Space);
        proof {
            lemma_value_bounds(s, p as int);
        }
        match read_value(cs, p) {
            Err(e) => {
                return Err(e);
            },
            Ok((v, m, value_over)) => {
                let key = string_of(cs, j, k);
                let ghost entry = (key_at(s, j as int, k as int), parse_value(s, p as int)->Ok_0.0);
                proof {
                    let rest = parse_pairs(s, m as int, top);
                    assert(parse_pairs(s, pos as int, top) == prepend(seq![entry], rest));
                    if let Ok((ps, n)) = rest {
                        assert(acc_view + (seq![entry] + ps) =~= acc_view.push(entry) + ps);
                    }
                    assert(acc_view.push(entry).drop_last() =~= acc_view);
                    assert(acc@.push((key, v)).drop_last() =~= acc@);
                    acc_view = acc_view.push(entry);
                }
                acc.push((key, v));
                over = over || value_over;
                pos = m;
            },
        }
    }
}

impl GMLObject {
    /// Parses a whole document into its root object.
    pub fn from_str(text: &str) -> (r: Result<GMLObject, GMLError>)
        ensures
            match document_result(text@) {
                Ok(ps) => r matches Ok(o) && pairs_view(o.pairs@) == ps,
                Err(k) => r matches Err(e) && e.kind == k,
            },
    {
        let cs = chars_of(text);
        match read_pairs(&cs, 0, true) {
            Err(offset) => Err(GMLError { kind: ErrorKind::Syntax { offset } }),
            Ok((pairs, _, over)) => if over {
                Err(GMLError { kind: ErrorKind::NumberFormat })
            } else {
                Ok(GMLObject { pairs })
            },
        }
    }
}

} // verus!
