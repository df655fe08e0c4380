//! A document: the tree of values a configuration, a profile or a sidecar is written in.
use vstd::prelude::*;

use crate::text::{
    cat, comes_before, decimal_text, digits, order_is_total, order_is_transitive, plain_decimal, precedes, same,
    signed, signed_digits,
};

pub mod number;
pub mod read;

verus! {

/// A number in a document.
#[derive(Clone, Copy, PartialEq, Eq, Structural, Debug)]
pub enum Number {
    /// A whole number that is not below zero.
    Unsigned(u64),
    /// A whole number below zero.
    Negative(i64),
    /// A number written with a decimal point or an exponent, in billionths.
    Real(i128),
    /// Such a number that is no whole number of billionths, or too large to be held in them:
    /// whether it is below zero, its digits, which do not end in a zero, and the power of ten
    /// they stand at.
    Fine(bool, u64, i32),
}

/// A value in a document.
#[derive(Debug)]
pub enum Json {
    /// Nothing.
    Null,
    /// Yes or no.
    Bool(bool),
    /// A number.
    Number(Number),
    /// A text.
    Text(String),
    /// Values in order.
    List(Vec<Json>),
    /// Values by name, in the order they were written.
    Table(Vec<(String, Json)>),
}

/// What a value in a document is.
pub enum Tree {
    Null,
    Bool(bool),
    Number(Number),
    Text(Seq<char>),
    List(Seq<Tree>),
    Table(Seq<(Seq<char>, Tree)>),
}

impl View for Json {
    type V = Tree;

    open spec fn view(&self) -> Tree {
        tree_of(*self)
    }
}

/// What a value in a document is.
pub open spec fn tree_of(j: Json) -> Tree
    decreases j,
{
    match j {
        Json::Null => Tree::Null,
        Json::Bool(b) => Tree::Bool(b),
        Json::Number(n) => Tree::Number(n),
        Json::Text(s) => Tree::Text(s@),
        Json::List(v) => Tree::List(trees_of(v@)),
        Json::Table(v) => Tree::Table(entries_of(v@)),
    }
}

/// What a run of values is.
pub open spec fn trees_of(s: Seq<Json>) -> Seq<Tree>
    decreases s,
{
    if s.len() == 0 {
        Seq::empty()
    } else {
        trees_of(s.drop_last()).push(tree_of(s.last()))
    }
}

/// What a run of named values is.
pub open spec fn entries_of(s: Seq<(String, Json)>) -> Seq<(Seq<char>, Tree)>
    decreases s,
{
    if s.len() == 0 {
        Seq::empty()
    } else {
        entries_of(s.drop_last()).push((s.last().0@, tree_of(s.last().1)))
    }
}

pub proof fn lemma_trees(s: Seq<Json>)
    ensures
        trees_of(s).len() == s.len(),
        forall|i: int| 0 <= i < s.len() ==> #[trigger] trees_of(s)[i] == tree_of(s[i]),
    decreases s.len(),
{
    if s.len() > 0 {
        lemma_trees(s.drop_last());
        assert forall|i: int| 0 <= i < s.len() implies #[trigger] trees_of(s)[i] == tree_of(s[i]) by {
            if i < s.len() - 1 {
                assert(trees_of(s)[i] == trees_of(s.drop_last())[i]);
            }
        }
    }
}

pub proof fn lemma_entries(s: Seq<(String, Json)>)
    ensures
        entries_of(s).len() == s.len(),
        forall|i: int| 0 <= i < s.len() ==> #[trigger] entries_of(s)[i] == (s[i].0@, tree_of(s[i].1)),
    decreases s.len(),
{
    if s.len() > 0 {
        lemma_entries(s.drop_last());
        assert forall|i: int| 0 <= i < s.len() implies #[trigger] entries_of(s)[i] == (s[i].0@, tree_of(s[i].1)) by {
            if i < s.len() - 1 {
                assert(entries_of(s)[i] == entries_of(s.drop_last())[i]);
            }
        }
    }
}

/// The value of a name in a run of named values: the first of that name.
pub open spec fn lookup(entries: Seq<(Seq<char>, Tree)>, key: Seq<char>) -> Option<Tree>
    decreases entries.len(),
{
    if entries.len() == 0 {
        None
    } else if entries[0].0 == key {
        Some(entries[0].1)
    } else {
        lookup(entries.drop_first(), key)
    }
}

/// The value of a name in a table; nothing when the value is no table, or has no such name.
pub open spec fn field(t: Tree, key: Seq<char>) -> Option<Tree> {
    match t {
        Tree::Table(entries) => lookup(entries, key),
        _ => None,
    }
}

/// The first match is the value of a name.
pub proof fn lemma_lookup_at(entries: Seq<(Seq<char>, Tree)>, key: Seq<char>, n: int)
    requires
        0 <= n <= entries.len(),
        forall|i: int| 0 <= i < n ==> #[trigger] entries[i].0 != key,
    ensures
        n == entries.len() ==> lookup(entries, key) is None,
        n < entries.len() && entries[n].0 == key ==> lookup(entries, key) == Some(entries[n].1),
    decreases n,
{
    if n > 0 {
        let rest = entries.drop_first();
        assert forall|i: int| 0 <= i < n - 1 implies #[trigger] rest[i].0 != key by {
            assert(rest[i] == entries[i + 1]);
        }
        assert(entries[0].0 != key);
        lemma_lookup_at(rest, key, n - 1);
        if n < entries.len() {
            assert(rest[n - 1] == entries[n]);
        }
    }
}

/// The place of the first value of a name.
pub fn find_key(entries: &Vec<(String, Json)>, key: &str) -> (r: Option<usize>)
    ensures
        match r {
            Some(i) => i < entries.len() && entries@[i as int].0@ == key@
                && (forall|j: int| 0 <= j < i ==> #[trigger] entries@[j].0@ != key@)
                && lookup(entries_of(entries@), key@) == Some(tree_of(entries@[i as int].1)),
            None => (forall|j: int| 0 <= j < entries.len() ==> #[trigger] entries@[j].0@ != key@)
                && lookup(entries_of(entries@), key@) is None,
        },
{
    proof {
        lemma_entries(entries@);
    }
    let mut i: usize = 0;
    while i < entries.len()
        invariant
            i <= entries.len(),
            forall|j: int| 0 <= j < i ==> #[trigger] entries@[j].0@ != key@,
            entries_of(entries@).len() == entries@.len(),
            forall|j: int| 0 <= j < entries@.len() ==> #[trigger] entries_of(entries@)[j] == (entries@[j].0@, tree_of(entries@[j].1)),
        decreases entries.len() - i,
    {
        if same(&entries[i].0, key) {
            proof {
                assert forall|j: int| 0 <= j < i implies #[trigger] entries_of(entries@)[j].0 != key@ by {
                    assert(entries@[j].0@ != key@);
                }
                lemma_lookup_at(entries_of(entries@), key@, i as int);
            }
            return Some(i);
        }
        i += 1;
    }
    proof {
        assert forall|j: int| 0 <= j < i implies #[trigger] entries_of(entries@)[j].0 != key@ by {
            assert(entries@[j].0@ != key@);
        }
        lemma_lookup_at(entries_of(entries@), key@, i as int);
    }
    None
}

impl Clone for Json {
    fn clone(&self) -> (r: Self)
        ensures
            r@ == self@,
        decreases self,
    {
        match self {
            Json::Null => Json::Null,
            Json::Bool(b) => Json::Bool(*b),
            Json::Number(n) => Json::Number(*n),
            Json::Text(s) => Json::Text(s.clone()),
            Json::List(v) => {
                let mut out: Vec<Json> = Vec::new();
                let mut i: usize = 0;
                while i < v.len()
                    invariant
                        i <= v.len(),
                        *self == Json::List(*v),
                        out.len() == i,
                        trees_of(out@) == trees_of(v@.subrange(0, i as int)),
                    decreases v.len() - i,
                {
                    proof {
                        assert(decreases_to!(*self => self->List_0));
                        assert(decreases_to!(*v => v@));
                        assert(decreases_to!(v@ => v@[i as int]));
                    }
                    let item = v[i].clone();
                    let ghost before = out@;
                    out.push(item);
                    proof {
                        assert(out@.drop_last() =~= before);
                        let next = v@.subrange(0, i + 1);
                        assert(next.drop_last() =~= v@.subrange(0, i as int));
                        assert(next.last() == v@[i as int]);
                    }
                    i += 1;
                }
                proof {
                    assert(v@.subrange(0, v@.len() as int) =~= v@);
                }
                Json::List(out)
            },
            Json::Table(v) => {
                let mut out: Vec<(String, Json)> = Vec::new();
                let mut i: usize = 0;
                while i < v.len()
                    invariant
                        i <= v.len(),
                        *self == Json::Table(*v),
                        out.len() == i,
                        entries_of(out@) == entries_of(v@.subrange(0, i as int)),
                    decreases v.len() - i,
                {
                    proof {
                        assert(decreases_to!(*self => self->Table_0));
                        assert(decreases_to!(*v => v@));
                        assert(decreases_to!(v@ => v@[i as int]));
                        assert(decreases_to!(v@[i as int] => v@[i as int].1));
                    }
                    let item = v[i].1.clone();
                    let name = v[i].0.clone();
                    let ghost before = out@;
                    out.push((name, item));
                    proof {
                        assert(out@.drop_last() =~= before);
                        let next = v@.subrange(0, i + 1);
                        assert(next.drop_last() =~= v@.subrange(0, i as int));
                        assert(next.last() == v@[i as int]);
                    }
                    i += 1;
                }
                proof {
                    assert(v@.subrange(0, v@.len() as int) =~= v@);
                }
                Json::Table(out)
            },
        }
    }
}

impl Json {
    /// The value of a name, when this is a table that has it.
    pub fn get(&self, key: &str) -> (r: Option<&Json>)
        ensures
            match r {
                Some(v) => field(self@, key@) == Some(v@),
                None => field(self@, key@) is None,
            },
    {
        match self {
            Json::Table(entries) => match find_key(entries, key) {
                Some(i) => Some(&entries[i].1),
                None => None,
            },
            _ => None,
        }
    }

    /// Whether two values are the same.
    pub fn equal(&self, other: &Json) -> (r: bool)
        ensures
            r == (self@ == other@),
        decreases self,
    {
        match (self, other) {
            (Json::Null, Json::Null) => true,
            (Json::Bool(a), Json::Bool(b)) => *a == *b,
            (Json::Number(a), Json::Number(b)) => *a == *b,
            (Json::Text(a), Json::Text(b)) => same(a, b),
            (Json::List(a), Json::List(b)) => {
                proof {
                    lemma_trees(a@);
                    lemma_trees(b@);
                }
                if a.len() != b.len() {
                    return false;
                }
                let mut i: usize = 0;
                while i < a.len()
                    invariant
                        i <= a.len() == b.len(),
                        *self == Json::List(*a),
                        *other == Json::List(*b),
                        trees_of(a@).len() == a@.len(),
                        trees_of(b@).len() == b@.len(),
                        forall|j: int| 0 <= j < a@.len() ==> #[trigger] trees_of(a@)[j] == tree_of(a@[j]),
                        forall|j: int| 0 <= j < b@.len() ==> #[trigger] trees_of(b@)[j] == tree_of(b@[j]),
                        forall|j: int| 0 <= j < i ==> #[trigger] trees_of(a@)[j] == trees_of(b@)[j],
                    decreases a.len() - i,
                {
                    proof {
                        assert(decreases_to!(*self => self->List_0));
                        assert(decreases_to!(*a => a@));
                        assert(decreases_to!(a@ => a@[i as int]));
                    }
                    if !a[i].equal(&b[i]) {
                        proof {
                            assert(trees_of(a@)[i as int] != trees_of(b@)[i as int]);
                        }
                        return false;
                    }
                    i += 1;
                }
                proof {
                    assert(trees_of(a@) =~= trees_of(b@));
                }
                true
            },
            (Json::Table(a), Json::Table(b)) => {
                proof {
                    lemma_entries(a@);
                    lemma_entries(b@);
                }
                if a.len() != b.len() {
                    return false;
                }
                let mut i: usize = 0;
                while i < a.len()
                    invariant
                        i <= a.len() == b.len(),
                        *self == Json::Table(*a),
                        *other == Json::Table(*b),
                        entries_of(a@).len() == a@.len(),
                        entries_of(b@).len() == b@.len(),
                        forall|j: int| 0 <= j < a@.len() ==> #[trigger] entries_of(a@)[j] == (a@[j].0@, tree_of(a@[j].1)),
                        forall|j: int| 0 <= j < b@.len() ==> #[trigger] entries_of(b@)[j] == (b@[j].0@, tree_of(b@[j].1)),
                        forall|j: int| 0 <= j < i ==> #[trigger] entries_of(a@)[j] == entries_of(b@)[j],
                    decreases a.len() - i,
                {
                    proof {
                        assert(decreases_to!(*self => self->Table_0));
                        assert(decreases_to!(*a => a@));
                        assert(decreases_to!(a@ => a@[i as int]));
                        assert(decreases_to!(a@[i as int] => a@[i as int].1));
                    }
                    if !same(&a[i].0, &b[i].0) || !a[i].1.equal(&b[i].1) {
                        proof {
                            assert(entries_of(a@)[i as int] != entries_of(b@)[i as int]);
                        }
                        return false;
                    }
                    i += 1;
                }
                proof {
                    assert(entries_of(a@) =~= entries_of(b@));
                }
                true
            },
            _ => false,
        }
    }
}

/// A run of named values with the first of a name changed to a value.
pub open spec fn replaced(entries: Seq<(Seq<char>, Tree)>, key: Seq<char>, value: Tree) -> Seq<(Seq<char>, Tree)>
    decreases entries.len(),
{
    if entries.len() == 0 {
        entries
    } else if entries[0].0 == key {
        seq![(key, value)] + entries.drop_first()
    } else {
        seq![entries[0]] + replaced(entries.drop_first(), key, value)
    }
}

/// A run of named values with one more, before the first whose name comes after its own.
pub open spec fn placed(entries: Seq<(Seq<char>, Tree)>, key: Seq<char>, value: Tree) -> Seq<(Seq<char>, Tree)>
    decreases entries.len(),
{
    if entries.len() == 0 || precedes(key, entries[0].0) {
        seq![(key, value)] + entries
    } else {
        seq![entries[0]] + placed(entries.drop_first(), key, value)
    }
}

/// A run of named values with a value put under a name: in place of the one that has it, or
/// where the name belongs in a run that is ordered by name.
pub open spec fn put(entries: Seq<(Seq<char>, Tree)>, key: Seq<char>, value: Tree) -> Seq<(Seq<char>, Tree)> {
    if lookup(entries, key) is Some { replaced(entries, key, value) } else { placed(entries, key, value) }
}

proof fn lemma_replaced(entries: Seq<(Seq<char>, Tree)>, key: Seq<char>, value: Tree, other: Seq<char>)
    requires
        lookup(entries, key) is Some,
    ensures
        lookup(replaced(entries, key, value), key) == Some(value),
        other != key ==> lookup(replaced(entries, key, value), other) == lookup(entries, other),
    decreases entries.len(),
{
    if entries.len() > 0 {
        if entries[0].0 == key {
            assert(replaced(entries, key, value).drop_first() =~= entries.drop_first());
        } else {
            lemma_replaced(entries.drop_first(), key, value, other);
            assert(replaced(entries, key, value).drop_first() =~= replaced(entries.drop_first(), key, value));
        }
    }
}

proof fn lemma_placed(entries: Seq<(Seq<char>, Tree)>, key: Seq<char>, value: Tree, other: Seq<char>)
    requires
        lookup(entries, key) is None,
    ensures
        lookup(placed(entries, key, value), key) == Some(value),
        other != key ==> lookup(placed(entries, key, value), other) == lookup(entries, other),
    decreases entries.len(),
{
    if entries.len() == 0 || precedes(key, entries[0].0) {
        assert(placed(entries, key, value).drop_first() =~= entries);
    } else {
        lemma_placed(entries.drop_first(), key, value, other);
        assert(placed(entries, key, value).drop_first() =~= placed(entries.drop_first(), key, value));
    }
}

/// What was put under a name is found there, and nothing else is changed.
pub proof fn put_is_found(entries: Seq<(Seq<char>, Tree)>, key: Seq<char>, value: Tree, other: Seq<char>)
    ensures
        lookup(put(entries, key, value), key) == Some(value),
        other != key ==> lookup(put(entries, key, value), other) == lookup(entries, other),
{
    if lookup(entries, key) is Some {
        lemma_replaced(entries, key, value, other);
    } else {
        lemma_placed(entries, key, value, other);
    }
}

/// Whether the names of a run come in order, each once.
pub open spec fn ordered_names(entries: Seq<(Seq<char>, Tree)>) -> bool {
    forall|i: int, j: int|
        0 <= i < j < entries.len() ==> precedes((#[trigger] entries[i]).0, (#[trigger] entries[j]).0)
}

/// A run that is in order stays in order, whatever is put into it.
pub proof fn putting_keeps_the_order(entries: Seq<(Seq<char>, Tree)>, key: Seq<char>, value: Tree)
    requires
        ordered_names(entries),
    ensures
        ordered_names(put(entries, key, value)),
{
    if lookup(entries, key) is Some {
        lemma_replaced_names(entries, key, value);
        let r = replaced(entries, key, value);
        assert forall|i: int, j: int| 0 <= i < j < r.len() implies precedes(
            (#[trigger] r[i]).0,
            (#[trigger] r[j]).0,
        ) by {
            assert(r[i].0 == entries[i].0 && r[j].0 == entries[j].0);
        }
    } else {
        lemma_placed_order(entries, key, value);
    }
}

proof fn lemma_replaced_names(entries: Seq<(Seq<char>, Tree)>, key: Seq<char>, value: Tree)
    ensures
        replaced(entries, key, value).len() == entries.len(),
        forall|i: int| 0 <= i < entries.len() ==> (#[trigger] replaced(entries, key, value)[i]).0 == entries[i].0,
    decreases entries.len(),
{
    if entries.len() > 0 && entries[0].0 != key {
        let rest = entries.drop_first();
        lemma_replaced_names(rest, key, value);
        assert forall|i: int| 0 <= i < entries.len() implies (#[trigger] replaced(entries, key, value)[i]).0
            == entries[i].0 by {
            if i > 0 {
                assert(replaced(entries, key, value)[i] == replaced(rest, key, value)[i - 1]);
                assert(rest[i - 1] == entries[i]);
            }
        }
    }
}

proof fn lemma_placed_order(entries: Seq<(Seq<char>, Tree)>, key: Seq<char>, value: Tree)
    requires
        ordered_names(entries),
        lookup(entries, key) is None,
    ensures
        ordered_names(placed(entries, key, value)),
        placed(entries, key, value).len() == entries.len() + 1,
        forall|i: int|
            0 <= i < placed(entries, key, value).len() ==> (#[trigger] placed(entries, key, value)[i]).0 == key || exists|j: int|
                0 <= j < entries.len() && (#[trigger] entries[j]).0 == placed(entries, key, value)[i].0,
    decreases entries.len(),
{
    let p = placed(entries, key, value);
    if entries.len() == 0 || precedes(key, entries[0].0) {
        assert forall|i: int, j: int| 0 <= i < j < p.len() implies precedes((#[trigger] p[i]).0, (#[trigger] p[j]).0) by {
            assert(p[j] == entries[j - 1]);
            if i > 0 {
                assert(p[i] == entries[i - 1]);
            } else if j > 1 {
                assert(precedes(entries[0].0, entries[j - 1].0));
                order_is_transitive(key, entries[0].0, entries[j - 1].0);
            }
        }
        assert forall|i: int| 0 <= i < p.len() implies (#[trigger] p[i]).0 == key || exists|j: int|
            0 <= j < entries.len() && (#[trigger] entries[j]).0 == p[i].0 by {
            if i > 0 {
                assert(entries[i - 1] == p[i]);
            }
        }
    } else {
        let rest = entries.drop_first();
        assert(ordered_names(rest)) by {
            assert forall|i: int, j: int| 0 <= i < j < rest.len() implies precedes(
                (#[trigger] rest[i]).0,
                (#[trigger] rest[j]).0,
            ) by {
                assert(rest[i] == entries[i + 1] && rest[j] == entries[j + 1]);
            }
        }
        lemma_placed_order(rest, key, value);
        let q = placed(rest, key, value);
        order_is_total(key, entries[0].0);
        assert forall|i: int| 0 <= i < p.len() implies (#[trigger] p[i]).0 == key || exists|j: int|
            0 <= j < entries.len() && (#[trigger] entries[j]).0 == p[i].0 by {
            if i > 0 {
                assert(p[i] == q[i - 1]);
                if q[i - 1].0 != key {
                    let j = choose|j: int| 0 <= j < rest.len() && (#[trigger] rest[j]).0 == q[i - 1].0;
                    assert(entries[j + 1] == rest[j]);
                }
            } else {
                assert(entries[0] == p[0]);
            }
        }
        assert forall|i: int, j: int| 0 <= i < j < p.len() implies precedes((#[trigger] p[i]).0, (#[trigger] p[j]).0) by {
            assert(p[j] == q[j - 1]);
            if i > 0 {
                assert(p[i] == q[i - 1]);
            } else if q[j - 1].0 != key {
                let k = choose|k: int| 0 <= k < rest.len() && (#[trigger] rest[k]).0 == q[j - 1].0;
                assert(entries[k + 1] == rest[k]);
            }
        }
    }
}

proof fn lemma_replaced_at(entries: Seq<(Seq<char>, Tree)>, key: Seq<char>, value: Tree, n: int)
    requires
        0 <= n < entries.len(),
        forall|i: int| 0 <= i < n ==> (#[trigger] entries[i]).0 != key,
        entries[n].0 == key,
    ensures
        replaced(entries, key, value) == entries.update(n, (key, value)),
    decreases n,
{
    if n == 0 {
        assert(entries.update(0, (key, value)) =~= seq![(key, value)] + entries.drop_first());
    } else {
        let rest = entries.drop_first();
        assert(entries[0].0 != key);
        assert forall|i: int| 0 <= i < n - 1 implies (#[trigger] rest[i]).0 != key by {
            assert(rest[i] == entries[i + 1]);
        }
        assert(rest[n - 1] == entries[n]);
        lemma_replaced_at(rest, key, value, n - 1);
        assert(seq![entries[0]] + rest.update(n - 1, (key, value)) =~= entries.update(n, (key, value)));
    }
}

pub(crate) proof fn lemma_placed_at(entries: Seq<(Seq<char>, Tree)>, key: Seq<char>, value: Tree, n: int)
    requires
        0 <= n <= entries.len(),
        forall|i: int| 0 <= i < n ==> !precedes(key, (#[trigger] entries[i]).0),
        n == entries.len() || precedes(key, entries[n].0),
    ensures
        placed(entries, key, value) == entries.insert(n, (key, value)),
    decreases n,
{
    if n == 0 {
        assert(entries.insert(0, (key, value)) =~= seq![(key, value)] + entries);
    } else {
        let rest = entries.drop_first();
        assert(!precedes(key, entries[0].0));
        assert forall|i: int| 0 <= i < n - 1 implies !precedes(key, (#[trigger] rest[i]).0) by {
            assert(rest[i] == entries[i + 1]);
        }
        if n < entries.len() {
            assert(rest[n - 1] == entries[n]);
        }
        lemma_placed_at(rest, key, value, n - 1);
        assert(seq![entries[0]] + rest.insert(n - 1, (key, value)) =~= entries.insert(n, (key, value)));
    }
}

/// Put a value under a name: in place of the one that has it, or where the name belongs.
pub fn put_entry(entries: &mut Vec<(String, Json)>, key: &str, value: Json)
    ensures
        entries_of(final(entries)@) == put(entries_of(old(entries)@), key@, value@),
{
    let ghost before = entries@;
    let ghost tree = entries_of(before);
    let ghost entry = (key@, value@);
    proof {
        lemma_entries(before);
    }
    match find_key(entries, key) {
        Some(i) => {
            entries.set(i, (key.to_owned(), value));
            proof {
                lemma_entries(entries@);
                assert forall|j: int| 0 <= j < i implies (#[trigger] tree[j]).0 != key@ by {
                    assert(before[j].0@ != key@);
                }
                lemma_replaced_at(tree, key@, entry.1, i as int);
                lemma_lookup_at(tree, key@, i as int);
                assert(entries_of(entries@) =~= tree.update(i as int, entry));
            }
        },
        None => {
            let mut i: usize = 0;
            while i < entries.len() && !comes_before(key, &entries[i].0)
                invariant
                    i <= entries.len(),
                    entries@ == before,
                    tree == entries_of(before),
                    tree.len() == before.len(),
                    forall|j: int| 0 <= j < tree.len() ==> #[trigger] tree[j] == (before[j].0@, tree_of(before[j].1)),
                    forall|j: int| 0 <= j < i ==> !precedes(key@, (#[trigger] tree[j]).0),
                decreases entries.len() - i,
            {
                proof {
                    assert(tree[i as int].0 == before[i as int].0@);
                }
                i += 1;
            }
            proof {
                if i < before.len() {
                    assert(tree[i as int].0 == before[i as int].0@);
                }
                lemma_placed_at(tree, key@, entry.1, i as int);
            }
            entries.insert(i, (key.to_owned(), value));
            proof {
                lemma_entries(entries@);
                assert(entries_of(entries@) =~= tree.insert(i as int, entry));
            }
        },
    }
}

/// A number that may have a decimal point, in full.
pub open spec fn real_text(nano: int) -> Seq<char> {
    if nano % 1_000_000_000 == 0 { plain_decimal(nano) + ".0"@ } else { plain_decimal(nano) }
}

/// A number as a document writes it: one that may have a decimal point as `serde_json` does,
/// which takes an exponent where that is shorter.
pub open spec fn number_text(n: Number) -> Seq<char> {
    match n {
        Number::Unsigned(n) => digits(n as nat),
        Number::Negative(n) => signed_digits(n as int),
        Number::Real(n) => as_written(real_text(n as int)),
        Number::Fine(negative, size, power) => as_written(fine_text(negative, size, power)),
    }
}

/// A number by its digits and the power of ten they stand at.
pub open spec fn fine_text(negative: bool, size: u64, power: i32) -> Seq<char> {
    (if negative { "-"@ } else { ""@ }) + digits(size as nat) + "e"@ + signed_digits(power as int)
}

/// How `serde_json` writes the number it reads in a text, where there is one.
pub uninterp spec fn json_number(s: Seq<char>) -> Option<Seq<char>>;

/// A `serde_json::Number` read from a text by its `FromStr`, as its `to_string` writes it. Claimed
/// of it: what is written, where anything is, is named by the text alone.
#[verifier::external_body]
fn number_in_text(s: &str) -> (r: Option<String>)
    ensures
        match r {
            Some(t) => json_number(s@) == Some(t@),
            None => json_number(s@) is None,
        },
{
    s.parse::<serde_json::Number>().ok().map(|n| n.to_string())
}

/// A number as `serde_json` writes it.
pub open spec fn as_written(s: Seq<char>) -> Seq<char> {
    match json_number(s) {
        Some(t) => t,
        None => s,
    }
}

fn written(s: String) -> (r: String)
    ensures
        r@ == as_written(s@),
{
    match number_in_text(&s) {
        Some(t) => t,
        None => s,
    }
}

/// A number as a document writes it.
pub fn write_number(n: Number) -> (r: String)
    ensures
        r@ == number_text(n),
{
    match n {
        Number::Unsigned(n) => crate::text::whole(n as u128),
        Number::Negative(n) => signed(n as i128),
        Number::Real(n) => {
            let s = decimal_text(n);
            let low: i128 = if n >= 0 { n % 1_000_000_000 } else { (-(n + 1)) % 1_000_000_000 };
            let is_whole: bool = if n >= 0 { low == 0 } else { low == 999_999_999 };
            proof {
                assert(is_whole == (n as int % 1_000_000_000 == 0));
            }
            written(if is_whole { cat(&s, ".0") } else { s })
        },
        Number::Fine(negative, size, power) => {
            let mut s = cat(if negative { "-" } else { "" }, &crate::text::whole(size as u128));
            s.append("e");
            s.append(&signed(power as i128));
            written(s)
        },
    }
}

/// What `serde_json` writes for a text: in quotes, with what needs it escaped.
pub uninterp spec fn json_text(s: Seq<char>) -> Seq<char>;

/// A text as a document writes it, by the `to_string` of a `serde_json::Value` that holds it.
/// Claimed of it: what is written is named by the text alone.
#[verifier::external_body]
pub(crate) fn write_text(s: &str) -> (r: String)
    ensures
        r@ == json_text(s@),
{
    serde_json::Value::from(s).to_string()
}

/// A value as a document writes it, on one line.
pub open spec fn tree_text(t: Tree) -> Seq<char>
    decreases t,
{
    match t {
        Tree::Null => "null"@,
        Tree::Bool(b) => if b { "true"@ } else { "false"@ },
        Tree::Number(n) => number_text(n),
        Tree::Text(s) => json_text(s),
        Tree::List(items) => "["@ + items_text(items) + "]"@,
        Tree::Table(entries) => "{"@ + entries_text(entries) + "}"@,
    }
}

/// A run of values as a document writes it.
pub open spec fn items_text(s: Seq<Tree>) -> Seq<char>
    decreases s,
{
    if s.len() == 0 {
        ""@
    } else {
        items_text(s.drop_last()) + (if s.len() == 1 { ""@ } else { ","@ }) + tree_text(s.last())
    }
}

/// A run of named values as a document writes it.
pub open spec fn entries_text(s: Seq<(Seq<char>, Tree)>) -> Seq<char>
    decreases s,
{
    if s.len() == 0 {
        ""@
    } else {
        entries_text(s.drop_last()) + (if s.len() == 1 { ""@ } else { ","@ }) + json_text(s.last().0) + ":"@
            + tree_text(s.last().1)
    }
}

impl Json {
    /// The value as a document writes it, on one line.
    pub fn write(&self) -> (r: String)
        ensures
            r@ == tree_text(self@),
        decreases self,
    {
        match self {
            Json::Null => "null".to_owned(),
            Json::Bool(b) => if *b { "true".to_owned() } else { "false".to_owned() },
            Json::Number(n) => write_number(*n),
            Json::Text(s) => write_text(s),
            Json::List(v) => {
                let mut out = "".to_owned();
                let mut i: usize = 0;
                proof {
                    lemma_trees(v@);
                    assert(trees_of(v@).subrange(0, 0) =~= Seq::empty());
                }
                while i < v.len()
                    invariant
                        i <= v.len(),
                        *self == Json::List(*v),
                        trees_of(v@).len() == v@.len(),
                        forall|j: int| 0 <= j < v@.len() ==> #[trigger] trees_of(v@)[j] == tree_of(v@[j]),
                        out@ == items_text(trees_of(v@).subrange(0, i as int)),
                    decreases v.len() - i,
                {
                    proof {
                        assert(decreases_to!(*self => self->List_0));
                        assert(decreases_to!(*v => v@));
                        assert(decreases_to!(v@ => v@[i as int]));
                        let next = trees_of(v@).subrange(0, i + 1);
                        assert(next.drop_last() =~= trees_of(v@).subrange(0, i as int));
                        assert(next.last() == tree_of(v@[i as int]));
                    }
                    out.append(if i == 0 { "" } else { "," });
                    let item = v[i].write();
                    out.append(&item);
                    i += 1;
                }
                proof {
                    assert(trees_of(v@).subrange(0, i as int) =~= trees_of(v@));
                }
                let mut all = cat("[", &out);
                all.append("]");
                all
            },
            Json::Table(v) => {
                let mut out = "".to_owned();
                let mut i: usize = 0;
                proof {
                    lemma_entries(v@);
                    assert(entries_of(v@).subrange(0, 0) =~= Seq::empty());
                }
                while i < v.len()
                    invariant
                        i <= v.len(),
                        *self == Json::Table(*v),
                        entries_of(v@).len() == v@.len(),
                        forall|j: int| 0 <= j < v@.len() ==> #[trigger] entries_of(v@)[j] == (v@[j].0@, tree_of(v@[j].1)),
                        out@ == entries_text(entries_of(v@).subrange(0, i as int)),
                    decreases v.len() - i,
                {
                    proof {
                        assert(decreases_to!(*self => self->Table_0));
                        assert(decreases_to!(*v => v@));
                        assert(decreases_to!(v@ => v@[i as int]));
                        assert(decreases_to!(v@[i as int] => v@[i as int].1));
                        let next = entries_of(v@).subrange(0, i + 1);
                        assert(next.drop_last() =~= entries_of(v@).subrange(0, i as int));
                        assert(next.last() == (v@[i as int].0@, tree_of(v@[i as int].1)));
                    }
                    out.append(if i == 0 { "" } else { "," });
                    out.append(&write_text(&v[i].0));
                    out.append(":");
                    let item = v[i].1.write();
                    out.append(&item);
                    i += 1;
                }
                proof {
                    assert(entries_of(v@).subrange(0, i as int) =~= entries_of(v@));
                }
                let mut all = cat("{", &out);
                all.append("}");
                all
            },
        }
    }
}

/// A value as a document writes it over several lines, the first of which is already set in by
/// `pad`.
pub open spec fn pretty(t: Tree, pad: Seq<char>) -> Seq<char>
    decreases t,
{
    match t {
        Tree::List(items) => if items.len() == 0 {
            "[]"@
        } else {
            "["@ + pretty_items(items, pad + "  "@) + "\n"@ + pad + "]"@
        },
        Tree::Table(entries) => if entries.len() == 0 {
            "{}"@
        } else {
            "{"@ + pretty_entries(entries, pad + "  "@) + "\n"@ + pad + "}"@
        },
        _ => tree_text(t),
    }
}

/// A run of values, each on lines of its own.
pub open spec fn pretty_items(s: Seq<Tree>, pad: Seq<char>) -> Seq<char>
    decreases s,
{
    if s.len() == 0 {
        ""@
    } else {
        pretty_items(s.drop_last(), pad) + (if s.len() == 1 { "\n"@ } else { ",\n"@ }) + pad + pretty(s.last(), pad)
    }
}

/// A run of named values, each on lines of its own.
pub open spec fn pretty_entries(s: Seq<(Seq<char>, Tree)>, pad: Seq<char>) -> Seq<char>
    decreases s,
{
    if s.len() == 0 {
        ""@
    } else {
        pretty_entries(s.drop_last(), pad) + (if s.len() == 1 { "\n"@ } else { ",\n"@ }) + pad + json_text(s.last().0)
            + ": "@ + pretty(s.last().1, pad)
    }
}

impl Json {
    /// The value as a document writes it over several lines, the first of which is already set in
    /// by `pad`.
    pub fn write_lines(&self, pad: &str) -> (r: String)
        ensures
            r@ == pretty(self@, pad@),
        decreases self,
    {
        match self {
            Json::List(v) => {
                proof {
                    lemma_trees(v@);
                    assert(trees_of(v@).subrange(0, 0) =~= Seq::empty());
                }
                if v.len() == 0 {
                    return "[]".to_owned();
                }
                let inner = cat(pad, "  ");
                let mut out = "".to_owned();
                let mut i: usize = 0;
                while i < v.len()
                    invariant
                        i <= v.len(),
                        *self == Json::List(*v),
                        inner@ == pad@ + "  "@,
                        trees_of(v@).len() == v@.len(),
                        forall|j: int| 0 <= j < v@.len() ==> #[trigger] trees_of(v@)[j] == tree_of(v@[j]),
                        out@ == pretty_items(trees_of(v@).subrange(0, i as int), inner@),
                    decreases v.len() - i,
                {
                    proof {
                        assert(decreases_to!(*self => self->List_0));
                        assert(decreases_to!(*v => v@));
                        assert(decreases_to!(v@ => v@[i as int]));
                        let next = trees_of(v@).subrange(0, i + 1);
                        assert(next.drop_last() =~= trees_of(v@).subrange(0, i as int));
                        assert(next.last() == tree_of(v@[i as int]));
                    }
                    out.append(if i == 0 { "\n" } else { ",\n" });
                    out.append(&inner);
                    let item = v[i].write_lines(&inner);
                    out.append(&item);
                    i += 1;
                }
                proof {
                    assert(trees_of(v@).subrange(0, i as int) =~= trees_of(v@));
                }
                let mut all = cat("[", &out);
                all.append("\n");
                all.append(pad);
                all.append("]");
                all
            },
            Json::Table(v) => {
                proof {
                    lemma_entries(v@);
                    assert(entries_of(v@).subrange(0, 0) =~= Seq::empty());
                }
                if v.len() == 0 {
                    return "{}".to_owned();
                }
                let inner = cat(pad, "  ");
                let mut out = "".to_owned();
                let mut i: usize = 0;
                while i < v.len()
                    invariant
                        i <= v.len(),
                        *self == Json::Table(*v),
                        inner@ == pad@ + "  "@,
                        entries_of(v@).len() == v@.len(),
                        forall|j: int| 0 <= j < v@.len() ==> #[trigger] entries_of(v@)[j] == (v@[j].0@, tree_of(v@[j].1)),
                        out@ == pretty_entries(entries_of(v@).subrange(0, i as int), inner@),
                    decreases v.len() - i,
                {
                    proof {
                        assert(decreases_to!(*self => self->Table_0));
                        assert(decreases_to!(*v => v@));
                        assert(decreases_to!(v@ => v@[i as int]));
                        assert(decreases_to!(v@[i as int] => v@[i as int].1));
                        let next = entries_of(v@).subrange(0, i + 1);
                        assert(next.drop_last() =~= entries_of(v@).subrange(0, i as int));
                        assert(next.last() == (v@[i as int].0@, tree_of(v@[i as int].1)));
                    }
                    out.append(if i == 0 { "\n" } else { ",\n" });
                    out.append(&inner);
                    out.append(&write_text(&v[i].0));
                    out.append(": ");
                    let item = v[i].1.write_lines(&inner);
                    out.append(&item);
                    i += 1;
                }
                proof {
                    assert(entries_of(v@).subrange(0, i as int) =~= entries_of(v@));
                }
                let mut all = cat("{", &out);
                all.append("\n");
                all.append(pad);
                all.append("}");
                all
            },
            other => other.write(),
        }
    }
}

} // verus!
