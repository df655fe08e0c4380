//! A document read from its text.
//!
//! The grammar is `serde_json`'s: its parser reads the whole text into a `serde_json::Value`, and
//! the document is taken out of that, value by value.
use vstd::prelude::*;

use crate::json::number::{decimal, real_of};
use crate::json::{entries_of, number_text, pretty, put, trees_of, Json, Number, Tree};
use crate::text::{chars_of, digit_of, digit_value, number_in};

verus! {

/// The most digits a number is read with.
pub const MAX_DIGITS: usize = 30;

/// The largest exponent a number is read with.
pub const MAX_EXPONENT: u64 = 9999;

/// How deep the values of a text may stand in one another.
pub const MAX_DEPTH: usize = 127;

/// A value as `serde_json` holds it.
#[verifier::external_type_specification]
#[verifier::external_body]
pub struct ExValue(serde_json::Value);

/// What a `serde_json::Value` holds.
pub uninterp spec fn contents(v: serde_json::Value) -> Tree;

/// One value, with what is inside it as `serde_json` holds it.
#[derive(Debug)]
pub enum Piece<'a> {
    /// Nothing.
    Null,
    /// Yes or no.
    Bool(bool),
    /// A number, as it is written.
    Number(String),
    /// A text.
    Text(String),
    /// Values in order.
    List(Vec<&'a serde_json::Value>),
    /// Values by name.
    Table(Vec<(String, &'a serde_json::Value)>),
}

/// A `serde_json::Value`, its variants told apart. Claimed of it: the value holds what the variant
/// does, a number as the `to_string` of the `serde_json::Number` writes it, the values of an array
/// in order, and those of an object by name, in the order the object gives them out.
#[verifier::external_body]
fn piece_of(v: &serde_json::Value) -> (r: Piece<'_>)
    ensures
        contents(*v) == match r {
            Piece::Null => Tree::Null,
            Piece::Bool(b) => Tree::Bool(b),
            Piece::Number(s) => Tree::Number(number_kept(s@)),
            Piece::Text(s) => Tree::Text(s@),
            Piece::List(items) => Tree::List(items@.map_values(|x: &serde_json::Value| contents(*x))),
            Piece::Table(entries) => Tree::Table(
                entries@.map_values(|e: (String, &serde_json::Value)| (e.0@, contents(*e.1))),
            ),
        },
{
    match v {
        serde_json::Value::Null => Piece::Null,
        serde_json::Value::Bool(b) => Piece::Bool(*b),
        serde_json::Value::Number(n) => Piece::Number(n.to_string()),
        serde_json::Value::String(s) => Piece::Text(s.clone()),
        serde_json::Value::Array(a) => Piece::List(a.iter().collect()),
        serde_json::Value::Object(m) => Piece::Table(m.iter().map(|(k, v)| (k.clone(), v)).collect()),
    }
}

/// What `serde_json` reads in a text: a value, by what it holds, or why there is none.
pub uninterp spec fn json_value(text: Seq<char>) -> Result<Tree, Seq<char>>;

/// A document as a table of `serde_json`'s keeps it: the names of every table in order, and of
/// two values under one name the later.
pub open spec fn in_order(t: Tree) -> Tree
    decreases t,
{
    match t {
        Tree::List(items) => Tree::List(items_in_order(items)),
        Tree::Table(entries) => Tree::Table(names_in_order(entries)),
        _ => t,
    }
}

/// A run of documents, each with the names of its tables in order.
pub open spec fn items_in_order(s: Seq<Tree>) -> Seq<Tree>
    decreases s,
{
    if s.len() == 0 { Seq::empty() } else { items_in_order(s.drop_last()).push(in_order(s.last())) }
}

/// A table's values with the names in order.
pub open spec fn names_in_order(s: Seq<(Seq<char>, Tree)>) -> Seq<(Seq<char>, Tree)>
    decreases s,
{
    if s.len() == 0 {
        Seq::empty()
    } else {
        put(names_in_order(s.drop_last()), s.last().0, in_order(s.last().1))
    }
}

/// Whether a number is read back as it is written. A whole number is; one with a decimal point or
/// an exponent is where `serde_json` reads its text to that number again, to the last place.
pub open spec fn survives(n: Number) -> bool {
    match n {
        Number::Unsigned(_) => true,
        Number::Negative(k) => k < 0,
        _ => json_value(number_text(n)) == Ok::<Tree, Seq<char>>(Tree::Number(n)),
    }
}

/// Whether a document is read back as it is written: its numbers are, and its values stand in one
/// another no deeper than `depth`.
pub open spec fn legible(t: Tree, depth: nat) -> bool
    decreases t,
{
    match t {
        Tree::Number(n) => survives(n),
        Tree::List(items) => depth > 0 && items_legible(items, (depth - 1) as nat),
        Tree::Table(entries) => depth > 0 && entries_legible(entries, (depth - 1) as nat),
        _ => true,
    }
}

/// Whether the documents of a run are read back as they are written.
pub open spec fn items_legible(s: Seq<Tree>, depth: nat) -> bool
    decreases s,
{
    s.len() == 0 || (items_legible(s.drop_last(), depth) && legible(s.last(), depth))
}

/// Whether the values of a table are read back as they are written.
pub open spec fn entries_legible(s: Seq<(Seq<char>, Tree)>, depth: nat) -> bool
    decreases s,
{
    s.len() == 0 || (entries_legible(s.drop_last(), depth) && legible(s.last().1, depth))
}

/// What a value that may be none holds.
pub open spec fn value_view(r: Result<serde_json::Value, String>) -> Result<Tree, Seq<char>> {
    match r {
        Ok(v) => Ok(contents(v)),
        Err(e) => Err(e@),
    }
}

/// Whether a text was read for the document it was written from, if it was: over several lines,
/// with a line's end behind it. The names of its tables come in order.
pub open spec fn is_read_back(text: Seq<char>, r: Result<Tree, Seq<char>>) -> bool {
    forall|t: Tree|
        text == #[trigger] pretty(t, ""@) + "\n"@ && legible(t, MAX_DEPTH as nat) ==> r == Ok::<Tree, Seq<char>>(
            in_order(t),
        )
}

/// `serde_json::from_str`, to a `serde_json::Value`. Claimed of it: what comes back is named by
/// the text alone; and a document that was written out over several lines, with a line's end
/// behind it, is read for what it holds, with the names of its tables in order, where its numbers
/// survive being written and its values stand no deeper in one another than the parser goes.
/// What any other text has to be is the crate's to say.
#[verifier::external_body]
fn value_in(text: &str) -> (r: Result<serde_json::Value, String>)
    ensures
        value_view(r) == json_value(text@),
        is_read_back(text@, value_view(r)),
{
    serde_json::from_str(text).map_err(|e| e.to_string())
}

/// Ten to a power.
pub open spec fn pow10(k: nat) -> nat
    decreases k,
{
    if k == 0 { 1 } else { 10 * pow10((k - 1) as nat) }
}

/// `m` times ten to the power `shift`, to the nearest whole number.
pub open spec fn shifted(m: nat, shift: int) -> nat {
    if shift >= 0 {
        m * pow10(shift as nat)
    } else {
        let d = pow10((-shift) as nat);
        (2 * m + d) / (2 * d)
    }
}

/// Where the run of digits from `from` on ends.
pub open spec fn run_end(s: Seq<char>, from: nat) -> nat
    decreases s.len() - from,
{
    if from < s.len() && digit_value(s[from as int]) is Some { run_end(s, from + 1) } else { from }
}

/// An exponent, as a number ends with one; none is zero.
pub open spec fn exponent_in(s: Seq<char>) -> Option<int> {
    if s.len() == 0 {
        Some(0)
    } else if s[0] != 'e' && s[0] != 'E' {
        None
    } else {
        let signed = s.len() > 1 && (s[1] == '-' || s[1] == '+');
        match number_in(s.subrange(if signed { 2 } else { 1 }, s.len() as int)) {
            Some(n) => if n > MAX_EXPONENT {
                None
            } else if signed && s[1] == '-' {
                Some(-(n as int))
            } else {
                Some(n as int)
            },
            None => None,
        }
    }
}

/// A number with its sign, held to what is kept of it: `size` is how many billionths it is, to the
/// nearest, and one that is not zero is at least one.
pub open spec fn held(negative: bool, zero: bool, size: nat) -> i128 {
    let n = if size < i128::MAX { size as int } else { i128::MAX as int };
    let n = if n == 0 && !zero { 1 } else { n };
    if negative { (-n) as i128 } else { n as i128 }
}

/// The number a text is: whole numbers as they are, where they fit, and every other one in
/// billionths or by its digits.
pub open spec fn number_of(s: Seq<char>) -> Option<Number> {
    let negative = s.len() > 0 && s[0] == '-';
    let start: nat = if negative { 1 } else { 0 };
    let point = run_end(s, start);
    let pointed = point < s.len() && s[point as int] == '.';
    let end = if pointed { run_end(s, point + 1) } else { point };
    let places: int = if pointed { end - point - 1 } else { 0 };
    let figures = s.subrange(start as int, point as int) + (if pointed {
        s.subrange(point as int + 1, end as int)
    } else {
        Seq::empty()
    });
    match (number_in(figures), exponent_in(s.subrange(end as int, s.len() as int))) {
        (Some(m), Some(e)) => if figures.len() > MAX_DIGITS {
            None
        } else if point == s.len() && !negative && m <= u64::MAX {
            Some(Number::Unsigned(m as u64))
        } else if point == s.len() && negative && m <= 0x8000_0000_0000_0000 {
            Some(Number::Negative((-m) as i64))
        } else {
            Some(real_of(negative, m, e - places))
        },
        _ => None,
    }
}

/// The number a text is. A text that is none counts for nothing; `serde_json` writes none such.
pub open spec fn number_kept(s: Seq<char>) -> Number {
    match number_of(s) {
        Some(n) => n,
        None => Number::Unsigned(0),
    }
}

/// What a document that may be none is.
pub open spec fn document_view(r: Result<Json, String>) -> Result<Tree, Seq<char>> {
    match r {
        Ok(j) => Ok(j@),
        Err(e) => Err(e@),
    }
}

pub(crate) proof fn lemma_pow10(j: nat, k: nat)
    requires
        j <= k,
    ensures
        1 <= pow10(j) <= pow10(k),
    decreases k,
{
    if k > 0 {
        lemma_pow10(if j < k { j } else { (k - 1) as nat }, (k - 1) as nat);
    }
}

pub(crate) proof fn lemma_pow10_at_31()
    ensures
        pow10(30) == 1_000_000_000_000_000_000_000_000_000_000,
        pow10(31) == 10_000_000_000_000_000_000_000_000_000_000,
{
    reveal_with_fuel(pow10, 32);
}

/// `m` times ten to a power, held to the largest number kept.
pub(crate) fn times_ten(m: u128, k: u64) -> (r: u128)
    requires
        m <= i128::MAX,
    ensures
        r == (if m * pow10(k as nat) < i128::MAX { m * pow10(k as nat) } else { i128::MAX as int }),
{
    let most: u128 = 170141183460469231731687303715884105727;
    if m == 0 {
        assert(0 * pow10(k as nat) == 0);
        return 0;
    }
    let mut acc: u128 = m;
    let mut j: u64 = 0;
    proof {
        assert(m * 1 == m);
    }
    while j < k
        invariant
            j <= k,
            0 < m <= i128::MAX,
            most == i128::MAX,
            acc == m * pow10(j as nat),
            acc <= i128::MAX,
        decreases k - j,
    {
        proof {
            assert(m * pow10((j + 1) as nat) == (m * pow10(j as nat)) * 10) by (nonlinear_arith)
                requires
                    pow10((j + 1) as nat) == 10 * pow10(j as nat),
            ;
        }
        if acc > most / 10 {
            proof {
                lemma_pow10((j + 1) as nat, k as nat);
                assert(m * pow10(k as nat) >= m * pow10((j + 1) as nat)) by (nonlinear_arith)
                    requires
                        pow10(k as nat) >= pow10((j + 1) as nat),
                        m > 0,
                ;
            }
            return most;
        }
        acc = acc * 10;
        j += 1;
    }
    acc
}

/// `m` over ten to a power, to the nearest whole number.
fn over_ten(m: u128, k: u64) -> (r: u128)
    requires
        m < pow10(30),
    ensures
        r == (2 * m + pow10(k as nat)) / (2 * pow10(k as nat)) as int,
{
    proof {
        lemma_pow10_at_31();
    }
    if k > 31 {
        proof {
            lemma_pow10(31, k as nat);
            let d = pow10(k as nat) as int;
            assert((2 * m + d) / (2 * d) == 0) by (nonlinear_arith)
                requires
                    0 <= 2 * m < d,
            ;
        }
        return 0;
    }
    let mut d: u128 = 1;
    let mut j: u64 = 0;
    while j < k
        invariant
            j <= k <= 31,
            d == pow10(j as nat),
            pow10(31) == 10_000_000_000_000_000_000_000_000_000_000,
        decreases k - j,
    {
        proof {
            lemma_pow10((j + 1) as nat, 31);
        }
        d = d * 10;
        j += 1;
    }
    proof {
        lemma_pow10(k as nat, 31);
    }
    (2 * m + d) / (2 * d)
}

pub(crate) fn shift(m: u128, by: i64) -> (r: u128)
    requires
        m < pow10(30),
        by > i64::MIN,
    ensures
        r == (if shifted(m as nat, by as int) < i128::MAX { shifted(m as nat, by as int) as int } else { i128::MAX as int }),
{
    proof {
        lemma_pow10_at_31();
    }
    if by >= 0 {
        times_ten(m, by as u64)
    } else {
        let r: u128 = over_ten(m, (-by) as u64);
        proof {
            lemma_pow10(0, (-by) as nat);
            let d = pow10((-by) as nat) as int;
            assert((2 * m + d) / (2 * d) <= 2 * m + d) by (nonlinear_arith)
                requires
                    d >= 1,
                    m >= 0,
            ;
            assert((2 * m + d) / (2 * d) <= m + 1) by (nonlinear_arith)
                requires
                    d >= 1,
                    m >= 0,
            ;
        }
        r
    }
}

/// The end of the run of digits from `from` on.
fn end_of_run(s: &Vec<char>, from: usize) -> (r: usize)
    requires
        from <= s.len(),
    ensures
        r == run_end(s@, from as nat),
        from <= r <= s.len(),
{
    let mut i: usize = from;
    while i < s.len() && digit_of(s[i]).is_some()
        invariant
            from <= i <= s.len(),
            run_end(s@, from as nat) == run_end(s@, i as nat),
        decreases s.len() - i,
    {
        i += 1;
    }
    i
}

/// The number a run of at most so many digits spells.
fn figures_value(s: &Vec<char>) -> (r: Option<u128>)
    requires
        s.len() <= MAX_DIGITS,
    ensures
        match r {
            Some(n) => number_in(s@) == Some(n as nat) && n < pow10(30),
            None => number_in(s@) is None,
        },
{
    if s.len() == 0 {
        return None;
    }
    let mut value: u128 = 0;
    let mut i: usize = 0;
    proof {
        lemma_pow10_at_31();
    }
    while i < s.len()
        invariant
            i <= s.len() <= 30,
            i == 0 ==> value == 0,
            i > 0 ==> number_in(s@.subrange(0, i as int)) == Some(value as nat),
            value < pow10(i as nat),
            pow10(30) == 1_000_000_000_000_000_000_000_000_000_000,
        decreases s.len() - i,
    {
        proof {
            let next = s@.subrange(0, i + 1);
            assert(next.drop_last() =~= s@.subrange(0, i as int));
            assert(next.last() == s@[i as int]);
            lemma_pow10(i as nat, 30);
        }
        let d: u64 = match digit_of(s[i]) {
            Some(d) => d,
            None => {
                proof {
                    lemma_not_a_number(s@, i as int);
                }
                return None;
            },
        };
        value = value * 10 + d as u128;
        i += 1;
    }
    proof {
        assert(s@.subrange(0, s@.len() as int) =~= s@);
        lemma_pow10(i as nat, 30);
    }
    Some(value)
}

proof fn lemma_not_a_number(s: Seq<char>, i: int)
    requires
        0 <= i < s.len(),
        digit_value(s[i]) is None,
    ensures
        number_in(s) is None,
    decreases s.len(),
{
    if i < s.len() - 1 {
        lemma_not_a_number(s.drop_last(), i);
    }
}

fn part_of(s: &Vec<char>, from: usize, to: usize) -> (r: Vec<char>)
    requires
        from <= to <= s.len(),
    ensures
        r@ == s@.subrange(from as int, to as int),
{
    let mut out: Vec<char> = Vec::new();
    let mut i: usize = from;
    while i < to
        invariant
            from <= i <= to <= s.len(),
            out@ == s@.subrange(from as int, i as int),
        decreases to - i,
    {
        out.push(s[i]);
        proof {
            assert(s@.subrange(from as int, i + 1) =~= s@.subrange(from as int, i as int).push(s@[i as int]));
        }
        i += 1;
    }
    out
}

fn read_exponent(s: &Vec<char>) -> (r: Option<i64>)
    ensures
        match r {
            Some(e) => exponent_in(s@) == Some(e as int) && -9999 <= e <= 9999,
            None => exponent_in(s@) is None,
        },
{
    if s.len() == 0 {
        return Some(0);
    }
    if s[0] != 'e' && s[0] != 'E' {
        return None;
    }
    let signed: bool = s.len() > 1 && (s[1] == '-' || s[1] == '+');
    let figures = part_of(s, if signed { 2 } else { 1 }, s.len());
    match crate::text::parse_digits(&figures) {
        Some(n) => if n > MAX_EXPONENT {
            None
        } else if signed && s[1] == '-' {
            Some(-(n as i64))
        } else {
            Some(n as i64)
        },
        None => None,
    }
}

/// The number a text is.
pub fn read_number(text: &str) -> (r: Option<Number>)
    ensures
        r == number_of(text@),
{
    let s = chars_of(text);
    let negative: bool = s.len() > 0 && s[0] == '-';
    let start: usize = if negative { 1 } else { 0 };
    let point: usize = end_of_run(&s, start);
    let pointed: bool = point < s.len() && s[point] == '.';
    let end: usize = if pointed { end_of_run(&s, point + 1) } else { point };
    let mut figures = part_of(&s, start, point);
    if pointed {
        let mut more = part_of(&s, point + 1, end);
        figures.append(&mut more);
    }
    let rest = part_of(&s, end, s.len());
    proof {
        let want = s@.subrange(start as int, point as int) + (if pointed {
            s@.subrange(point + 1, end as int)
        } else {
            Seq::empty()
        });
        assert(figures@ =~= want);
    }
    let e: i64 = match read_exponent(&rest) {
        Some(e) => e,
        None => return None,
    };
    if figures.len() > MAX_DIGITS {
        return None;
    }
    let m: u128 = match figures_value(&figures) {
        Some(m) => m,
        None => return None,
    };
    if point == s.len() && !negative && m <= u64::MAX as u128 {
        return Some(Number::Unsigned(m as u64));
    }
    if point == s.len() && negative && m <= 0x8000_0000_0000_0000 {
        return Some(Number::Negative((-(m as i128)) as i64));
    }
    let places: i64 = if pointed { (end - point - 1) as i64 } else { 0 };
    Some(decimal(negative, m, e - places))
}

impl Json {
    /// Read a document from its text; an error says why it is none. What was written out is read
    /// back.
    pub fn parse(text: &str) -> (r: Result<Json, String>)
        ensures
            document_view(r) == json_value(text@),
            is_read_back(text@, document_view(r)),
    {
        match value_in(text) {
            Ok(v) => Ok(document_of(&v)),
            Err(e) => Err(e),
        }
    }
}

fn document_of(v: &serde_json::Value) -> (r: Json)
    ensures
        r@ == contents(*v),
    decreases contents(*v),
{
    match piece_of(v) {
        Piece::Null => Json::Null,
        Piece::Bool(b) => Json::Bool(b),
        Piece::Number(s) => Json::Number(
            match read_number(&s) {
                Some(n) => n,
                None => Number::Unsigned(0),
            },
        ),
        Piece::Text(s) => Json::Text(s),
        Piece::List(items) => {
            let ghost trees = items@.map_values(|x: &serde_json::Value| contents(*x));
            let mut out: Vec<Json> = Vec::new();
            let mut i: usize = 0;
            proof {
                assert(trees.subrange(0, 0) =~= trees_of(out@));
            }
            while i < items.len()
                invariant
                    i <= items.len(),
                    contents(*v) == Tree::List(trees),
                    trees == items@.map_values(|x: &serde_json::Value| contents(*x)),
                    trees_of(out@) == trees.subrange(0, i as int),
                decreases items.len() - i,
            {
                let ghost before = out@;
                proof {
                    assert(decreases_to!(contents(*v) => contents(*v)->List_0));
                    assert(decreases_to!(trees => trees[i as int]));
                    assert(trees[i as int] == contents(*items@[i as int]));
                }
                out.push(document_of(items[i]));
                proof {
                    assert(out@.drop_last() =~= before);
                    assert(trees.subrange(0, i + 1) =~= trees.subrange(0, i as int).push(trees[i as int]));
                }
                i += 1;
            }
            proof {
                assert(trees.subrange(0, i as int) =~= trees);
            }
            Json::List(out)
        },
        Piece::Table(entries) => {
            let ghost trees = entries@.map_values(|e: (String, &serde_json::Value)| (e.0@, contents(*e.1)));
            let mut out: Vec<(String, Json)> = Vec::new();
            let mut i: usize = 0;
            proof {
                assert(trees.subrange(0, 0) =~= entries_of(out@));
            }
            while i < entries.len()
                invariant
                    i <= entries.len(),
                    contents(*v) == Tree::Table(trees),
                    trees == entries@.map_values(|e: (String, &serde_json::Value)| (e.0@, contents(*e.1))),
                    entries_of(out@) == trees.subrange(0, i as int),
                decreases entries.len() - i,
            {
                let ghost before = out@;
                proof {
                    assert(decreases_to!(contents(*v) => contents(*v)->Table_0));
                    assert(decreases_to!(trees => trees[i as int]));
                    assert(decreases_to!(trees[i as int] => trees[i as int].1));
                    assert(trees[i as int] == (entries@[i as int].0@, contents(*entries@[i as int].1)));
                }
                out.push((entries[i].0.clone(), document_of(entries[i].1)));
                proof {
                    assert(out@.drop_last() =~= before);
                    assert(trees.subrange(0, i + 1) =~= trees.subrange(0, i as int).push(trees[i as int]));
                }
                i += 1;
            }
            proof {
                assert(trees.subrange(0, i as int) =~= trees);
            }
            Json::Table(out)
        },
    }
}

} // verus!
