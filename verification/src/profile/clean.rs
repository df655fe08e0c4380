//! Loading what was just captured changes nothing that a profile carries: a store is clean right
//! after a profile was saved.
use vstd::prelude::*;

use super::laws::{
    a_profile_carries_nothing_of_this_computer, all_named, all_settings, dotted_path, holds_at, is_setting, keyed_as,
    lemma_descriptions, lemma_keyed_as_saved, lemma_keying, lemma_known_scope, lemma_leaf_at, lemma_leaf_is_no_table, lemma_leaves_in, lemma_lookup_member, lemma_parts,
    lemma_parts_len, lemma_parts_of_plain, lemma_path_push, lemma_projected_at, lemma_put_leaves, lemma_put_members,
    lemma_shape_laid_out, open_path, plain_name, saving_and_loading_gives_back_the_keying,
    saving_and_loading_gives_back_the_setting, the_keying_is_the_profiles,
};
use super::file::profile_text;
use super::kept::{a_captured_profile_is_read_back, neat};
use super::{
    adopted_name, adopting, applied, at_defaults, callsign_in, captured, checked_name, first_setting, known_settings,
    moved, named, objection, parsed, portable_part, projected, sorted_many, sorted_settings, written, Adopting,
    EntryModel, Fault, InventoryModel, ProfileModel, Reading, Shelf,
};
use crate::json::read::{is_read_back, legible, MAX_DEPTH};
use crate::json::{field, lemma_lookup_at, lookup, ordered_names, put, put_is_found, putting_keeps_the_order, Tree};
use crate::settings::{
    carried, described, descriptions, dotted, get_path, joined_leaves, keying_leaves, leads_on, leaves_of,
    parts, put_path, shape_leaves, table_entries, with_keying, SettingModel,
};
use crate::text::{
    begins, leading, lemma_leading_bound, lemma_leading_is, lemma_trailing_bound, lemma_trailing_is, order_is_total,
    precedes, stripped, trailing, trimmed, white_space,
};

verus! {

/// Whether a document is in order: the names of every table in it come in order, each once, and
/// none is empty or has a full stop in it.
pub open spec fn tidy(t: Tree) -> bool
    decreases t,
{
    match t {
        Tree::Table(entries) => ordered_names(entries) && tidy_entries(entries),
        _ => true,
    }
}

/// Whether every one of some named values is in order.
pub open spec fn tidy_entries(entries: Seq<(Seq<char>, Tree)>) -> bool
    decreases entries,
{
    if entries.len() == 0 {
        true
    } else {
        tidy_entries(entries.drop_last()) && entries.last().0.len() > 0 && plain_name(entries.last().0) && tidy(
            entries.last().1,
        )
    }
}

/// Whether no table inside a document is empty.
pub open spec fn filled(t: Tree) -> bool
    decreases t,
{
    match t {
        Tree::Table(entries) => filled_entries(entries),
        _ => true,
    }
}

/// Whether none of some named values is, or has inside it, a table that is empty.
pub open spec fn filled_entries(entries: Seq<(Seq<char>, Tree)>) -> bool
    decreases entries,
{
    if entries.len() == 0 {
        true
    } else {
        filled_entries(entries.drop_last()) && filled(entries.last().1) && entries.last().1 != Tree::Table(Seq::empty())
    }
}

proof fn lemma_tidy_each(entries: Seq<(Seq<char>, Tree)>)
    ensures
        tidy_entries(entries) == forall|i: int|
            0 <= i < entries.len() ==> (#[trigger] entries[i]).0.len() > 0 && plain_name(entries[i].0) && tidy(entries[i].1),
    decreases entries.len(),
{
    if entries.len() > 0 {
        let rest = entries.drop_last();
        lemma_tidy_each(rest);
        if tidy_entries(entries) {
            assert forall|i: int| 0 <= i < entries.len() implies (#[trigger] entries[i]).0.len() > 0 && plain_name(
                entries[i].0,
            ) && tidy(entries[i].1) by {
                if i < rest.len() {
                    assert(rest[i] == entries[i]);
                }
            }
        }
        if forall|i: int|
            0 <= i < entries.len() ==> (#[trigger] entries[i]).0.len() > 0 && plain_name(entries[i].0) && tidy(
                entries[i].1,
            ) {
            assert forall|i: int| 0 <= i < rest.len() implies (#[trigger] rest[i]).0.len() > 0 && plain_name(rest[i].0)
                && tidy(rest[i].1) by {
                assert(entries[i] == rest[i]);
            }
            assert(entries[entries.len() - 1] == entries.last());
        }
    }
}

proof fn lemma_filled_each(entries: Seq<(Seq<char>, Tree)>)
    ensures
        filled_entries(entries) == forall|i: int|
            0 <= i < entries.len() ==> filled((#[trigger] entries[i]).1) && entries[i].1 != Tree::Table(Seq::empty()),
    decreases entries.len(),
{
    if entries.len() > 0 {
        let rest = entries.drop_last();
        lemma_filled_each(rest);
        if filled_entries(entries) {
            assert forall|i: int| 0 <= i < entries.len() implies filled((#[trigger] entries[i]).1) && entries[i].1
                != Tree::Table(Seq::empty()) by {
                if i < rest.len() {
                    assert(rest[i] == entries[i]);
                }
            }
        }
        if forall|i: int|
            0 <= i < entries.len() ==> filled((#[trigger] entries[i]).1) && entries[i].1 != Tree::Table(Seq::empty()) {
            assert forall|i: int| 0 <= i < rest.len() implies filled((#[trigger] rest[i]).1) && rest[i].1 != Tree::Table(
                Seq::empty(),
            ) by {
                assert(entries[i] == rest[i]);
            }
            assert(entries[entries.len() - 1] == entries.last());
        }
    }
}

proof fn lemma_lookup_here(entries: Seq<(Seq<char>, Tree)>, i: int)
    requires
        ordered_names(entries),
        0 <= i < entries.len(),
    ensures
        lookup(entries, entries[i].0) == Some(entries[i].1),
{
    assert forall|j: int| 0 <= j < i implies #[trigger] entries[j].0 != entries[i].0 by {
        order_is_total(entries[j].0, entries[i].0);
    }
    lemma_lookup_at(entries, entries[i].0, i);
}

/// Whether every step of a path is a name without a full stop.
pub open spec fn plain_path(path: Seq<Seq<char>>) -> bool {
    forall|i: int| 0 <= i < path.len() ==> (#[trigger] path[i]).len() > 0 && plain_name(path[i])
}

proof fn lemma_way_is_plain(t: Tree, path: Seq<Seq<char>>)
    requires
        tidy(t),
        get_path(t, path) is Some,
    ensures
        plain_path(path),
        tidy(get_path(t, path)->0),
    decreases path.len(),
{
    if path.len() > 0 {
        let entries = table_entries(t);
        let rest = path.drop_first();
        lemma_tidy_each(entries);
        lemma_lookup_member(entries, path[0]);
        let x = lookup(entries, path[0])->0;
        let k = choose|k: int| 0 <= k < entries.len() && entries[k] == (path[0], x);
        assert(entries[k].0 == path[0]);
        lemma_way_is_plain(x, rest);
        assert forall|i: int| 0 <= i < path.len() implies (#[trigger] path[i]).len() > 0 && plain_name(path[i]) by {
            if i > 0 {
                assert(rest[i - 1] == path[i]);
            }
        }
    }
}

proof fn lemma_way_is_open(t: Tree, path: Seq<Seq<char>>, k: int)
    requires
        get_path(t, path) is Some,
        0 <= k < path.len(),
    ensures
        get_path(t, path.subrange(0, k)) is Some,
        get_path(t, path.subrange(0, k))->0 is Table,
    decreases k,
{
    let way = path.subrange(0, k);
    if k == 0 {
        assert(way =~= Seq::empty());
    } else {
        assert(way[0] == path[0]);
        assert(way.drop_first() =~= path.drop_first().subrange(0, k - 1));
        lemma_way_is_open(field(t, path[0])->0, path.drop_first(), k - 1);
    }
}

proof fn lemma_open(t: Tree, path: Seq<Seq<char>>)
    requires
        path.len() > 0,
        get_path(t, path) is Some,
    ensures
        open_path(t, path),
{
    lemma_way_is_open(t, path, 0);
    assert(path.subrange(0, 0) =~= Seq::empty());
    assert forall|k: int| 0 < k < path.len() implies leads_on(t, #[trigger] path.subrange(0, k)) by {
        lemma_way_is_open(t, path, k);
    }
}

proof fn lemma_path_of(path: Seq<Seq<char>>)
    requires
        plain_path(path),
        path.len() > 0,
    ensures
        dotted_path(Seq::empty(), path).len() > 0,
        parts(dotted_path(Seq::empty(), path)) == path,
    decreases path.len(),
{
    let head = path.drop_last();
    let last = path.last();
    assert(path =~= head.push(last));
    assert(plain_name(path[path.len() - 1]));
    lemma_path_push(Seq::empty(), head, last);
    if head.len() == 0 {
        assert(dotted_path(Seq::<char>::empty(), head) == Seq::<char>::empty());
        lemma_parts_of_plain(Seq::empty(), last);
        assert(path =~= seq![last]);
    } else {
        assert forall|i: int| 0 <= i < head.len() implies (#[trigger] head[i]).len() > 0 && plain_name(head[i]) by {
            assert(path[i] == head[i]);
        }
        lemma_path_of(head);
        lemma_parts_of_plain(dotted_path(Seq::empty(), head), last);
    }
}

proof fn lemma_leaf_path(prefix: Seq<char>, t: Tree, leaf: (Seq<char>, Tree)) -> (path: Seq<Seq<char>>)
    requires
        tidy(t),
        leaves_of(prefix, t).contains(leaf),
    ensures
        get_path(t, path) == Some(leaf.1),
        dotted_path(prefix, path) == leaf.0,
    decreases t,
{
    match t {
        Tree::Table(entries) => {
            lemma_leaves_in(prefix, entries, leaf);
            let i = choose|i: int|
                0 <= i < entries.len() && leaves_of(dotted(prefix, (#[trigger] entries[i]).0), entries[i].1).contains(leaf);
            assert(decreases_to!(t => t->Table_0));
            assert(decreases_to!(entries => entries[i]));
            assert(decreases_to!(entries[i] => entries[i].1));
            lemma_tidy_each(entries);
            lemma_lookup_here(entries, i);
            let name = entries[i].0;
            let rest = lemma_leaf_path(dotted(prefix, name), entries[i].1, leaf);
            let path = seq![name] + rest;
            assert(path.drop_first() =~= rest);
            path
        },
        _ => {
            let path: Seq<Seq<char>> = Seq::empty();
            assert(leaves_of(prefix, t)[0] == (prefix, t));
            path
        },
    }
}

/// A leaf of a document that is in order is what is found under its name, and the other way
/// round.
proof fn lemma_leaf_found(t: Tree, leaf: (Seq<char>, Tree))
    requires
        tidy(t),
        t is Table,
        leaves_of(""@, t).contains(leaf),
    ensures
        get_path(t, parts(leaf.0)) == Some(leaf.1),
        !(leaf.1 is Table),
{
    reveal_strlit("");
    assert(""@ =~= Seq::<char>::empty());
    lemma_leaf_is_no_table(""@, t, leaf);
    let path = lemma_leaf_path(""@, t, leaf);
    if path.len() == 0 {
        assert(get_path(t, path) == Some(t));
    }
    lemma_way_is_plain(t, path);
    lemma_path_of(path);
}

proof fn lemma_found_leaf(t: Tree, key: Seq<char>)
    requires
        get_path(t, parts(key)) is Some,
        !(get_path(t, parts(key))->0 is Table),
        parts(key)[0].len() > 0,
    ensures
        leaves_of(""@, t).contains((key, get_path(t, parts(key))->0)),
{
    reveal_strlit("");
    assert(""@ =~= Seq::<char>::empty());
    lemma_parts(key);
    lemma_leaf_at(""@, t, parts(key));
}

proof fn lemma_put_tidy(entries: Seq<(Seq<char>, Tree)>, name: Seq<char>, value: Tree)
    requires
        ordered_names(entries),
        tidy_entries(entries),
        name.len() > 0,
        plain_name(name),
        tidy(value),
    ensures
        tidy(Tree::Table(put(entries, name, value))),
{
    let now = put(entries, name, value);
    putting_keeps_the_order(entries, name, value);
    lemma_tidy_each(entries);
    assert forall|i: int| 0 <= i < now.len() implies (#[trigger] now[i]).0.len() > 0 && plain_name(now[i].0) && tidy(
        now[i].1,
    ) by {
        lemma_put_members(entries, name, value, i);
        if now[i] != (name, value) {
            let k = choose|k: int| 0 <= k < entries.len() && entries[k] == now[i];
            assert(entries[k].0.len() > 0);
        }
    }
    lemma_tidy_each(now);
}

proof fn lemma_set_tidy(t: Tree, path: Seq<Seq<char>>, value: Tree)
    requires
        tidy(t),
        path.len() > 0,
        plain_path(path),
        tidy(value),
    ensures
        tidy(put_path(t, path, value)),
    decreases path.len(),
{
    let entries = table_entries(t);
    let rest = path.drop_first();
    assert(path[0].len() > 0 && plain_name(path[0]));
    if path.len() == 1 {
        lemma_put_tidy(entries, path[0], value);
    } else {
        let inner = match lookup(entries, path[0]) {
            Some(x) => x,
            None => Tree::Table(Seq::empty()),
        };
        lemma_lookup_member(entries, path[0]);
        lemma_tidy_each(entries);
        if lookup(entries, path[0]) is Some {
            let k = choose|k: int| 0 <= k < entries.len() && entries[k] == (path[0], inner);
            assert(tidy(entries[k].1));
        }
        assert forall|i: int| 0 <= i < rest.len() implies (#[trigger] rest[i]).len() > 0 && plain_name(rest[i]) by {
            assert(path[i + 1] == rest[i]);
        }
        lemma_set_tidy(inner, rest, value);
        lemma_put_tidy(entries, path[0], put_path(inner, rest, value));
    }
}

proof fn lemma_set_filled(t: Tree, path: Seq<Seq<char>>, value: Tree)
    requires
        filled(t),
        path.len() > 0,
        !(value is Table),
    ensures
        filled(put_path(t, path, value)),
        put_path(t, path, value) != Tree::Table(Seq::empty()),
    decreases path.len(),
{
    let entries = table_entries(t);
    let name = path[0];
    let inner = match lookup(entries, name) {
        Some(x) => x,
        None => Tree::Table(Seq::empty()),
    };
    let sub = if path.len() == 1 { value } else { put_path(inner, path.drop_first(), value) };
    let now = put(entries, name, sub);
    lemma_filled_each(entries);
    if path.len() > 1 {
        lemma_lookup_member(entries, name);
        if lookup(entries, name) is Some {
            let k = choose|k: int| 0 <= k < entries.len() && entries[k] == (name, inner);
            assert(filled(entries[k].1));
        }
        lemma_set_filled(inner, path.drop_first(), value);
    }
    assert forall|i: int| 0 <= i < now.len() implies filled((#[trigger] now[i]).1) && now[i].1 != Tree::Table(
        Seq::empty(),
    ) by {
        lemma_put_members(entries, name, sub, i);
        if now[i] != (name, sub) {
            let k = choose|k: int| 0 <= k < entries.len() && entries[k] == now[i];
            assert(filled(entries[k].1));
        }
    }
    lemma_filled_each(now);
    put_is_found(entries, name, sub, name);
}

proof fn lemma_some_leaf(t: Tree) -> (path: Seq<Seq<char>>)
    requires
        tidy(t),
        filled(t),
        t != Tree::Table(Seq::empty()),
    ensures
        get_path(t, path) is Some,
        !(get_path(t, path)->0 is Table),
    decreases t,
{
    match t {
        Tree::Table(entries) => {
            if entries.len() == 0 {
                assert(entries =~= Seq::empty());
            }
            lemma_tidy_each(entries);
            lemma_filled_each(entries);
            lemma_lookup_here(entries, 0);
            assert(decreases_to!(t => t->Table_0));
            assert(decreases_to!(entries => entries[0]));
            assert(decreases_to!(entries[0] => entries[0].1));
            assert(filled(entries[0].1));
            let rest = lemma_some_leaf(entries[0].1);
            let path = seq![entries[0].0] + rest;
            assert(path.drop_first() =~= rest);
            path
        },
        _ => {
            let path: Seq<Seq<char>> = Seq::empty();
            path
        },
    }
}

/// The leaf at a path, where there is one.
pub open spec fn leaf_at(t: Tree, path: Seq<Seq<char>>) -> Option<Tree> {
    match get_path(t, path) {
        Some(x) => if x is Table { None } else { Some(x) },
        None => None,
    }
}

proof fn lemma_ordered_alike(a: Seq<(Seq<char>, Tree)>, b: Seq<(Seq<char>, Tree)>)
    requires
        ordered_names(a),
        ordered_names(b),
        forall|name: Seq<char>| #[trigger] lookup(a, name) == lookup(b, name),
    ensures
        a == b,
    decreases a.len(),
{
    if a.len() == 0 {
        if b.len() > 0 {
            lemma_lookup_here(b, 0);
            assert(lookup(a, b[0].0) == lookup(b, b[0].0));
        }
        assert(a =~= b);
    } else {
        lemma_lookup_here(a, 0);
        assert(lookup(a, a[0].0) == lookup(b, a[0].0));
        lemma_lookup_member(b, a[0].0);
        let j = choose|j: int| 0 <= j < b.len() && b[j] == (a[0].0, a[0].1);
        lemma_lookup_here(b, 0);
        assert(lookup(a, b[0].0) == lookup(b, b[0].0));
        lemma_lookup_member(a, b[0].0);
        let i = choose|i: int| 0 <= i < a.len() && a[i] == (b[0].0, b[0].1);
        order_is_total(a[0].0, b[0].0);
        if a[0].0 != b[0].0 {
            assert(i > 0 && j > 0);
            assert(precedes_both(a, b, i, j));
            assert(false);
        }
        let ra = a.drop_first();
        let rb = b.drop_first();
        assert(ordered_names(ra)) by {
            assert forall|x: int, y: int| 0 <= x < y < ra.len() implies precedes(
                (#[trigger] ra[x]).0,
                (#[trigger] ra[y]).0,
            ) by {
                assert(ra[x] == a[x + 1] && ra[y] == a[y + 1]);
            }
        }
        assert(ordered_names(rb)) by {
            assert forall|x: int, y: int| 0 <= x < y < rb.len() implies precedes(
                (#[trigger] rb[x]).0,
                (#[trigger] rb[y]).0,
            ) by {
                assert(rb[x] == b[x + 1] && rb[y] == b[y + 1]);
            }
        }
        assert forall|name: Seq<char>| #[trigger] lookup(ra, name) == lookup(rb, name) by {
            assert(lookup(a, name) == lookup(b, name));
            if name == a[0].0 {
                assert forall|x: int| 0 <= x < ra.len() implies #[trigger] ra[x].0 != name by {
                    assert(ra[x] == a[x + 1]);
                    order_is_total(a[0].0, a[x + 1].0);
                }
                assert forall|x: int| 0 <= x < rb.len() implies #[trigger] rb[x].0 != name by {
                    assert(rb[x] == b[x + 1]);
                    order_is_total(b[0].0, b[x + 1].0);
                }
                lemma_lookup_at(ra, name, ra.len() as int);
                lemma_lookup_at(rb, name, rb.len() as int);
            }
        }
        lemma_ordered_alike(ra, rb);
        assert(a =~= seq![a[0]] + ra);
        assert(b =~= seq![b[0]] + rb);
    }
}

spec fn precedes_both(a: Seq<(Seq<char>, Tree)>, b: Seq<(Seq<char>, Tree)>, i: int, j: int) -> bool {
    precedes(a[0].0, a[i].0) && precedes(b[0].0, b[j].0)
}

/// Two documents in order, none of whose tables is empty, are the same when the same leaves are
/// found at the same places.
proof fn lemma_alike(a: Tree, b: Tree)
    requires
        tidy(a),
        tidy(b),
        filled(a),
        filled(b),
        forall|path: Seq<Seq<char>>| #[trigger] leaf_at(a, path) == leaf_at(b, path),
    ensures
        a == b,
    decreases a,
{
    let here: Seq<Seq<char>> = Seq::empty();
    assert(leaf_at(a, here) == leaf_at(b, here));
    if a is Table && b is Table {
        let ea = a->Table_0;
        let eb = b->Table_0;
        lemma_tidy_each(ea);
        lemma_tidy_each(eb);
        lemma_filled_each(ea);
        lemma_filled_each(eb);
        assert forall|name: Seq<char>| #[trigger] lookup(ea, name) == lookup(eb, name) by {
            lemma_lookup_member(ea, name);
            lemma_lookup_member(eb, name);
            if lookup(ea, name) is Some {
                let x = lookup(ea, name)->0;
                let k = choose|k: int| 0 <= k < ea.len() && ea[k] == (name, x);
                assert(tidy(ea[k].1) && filled(ea[k].1) && ea[k].1 != Tree::Table(Seq::empty()));
                let rest = lemma_some_leaf(x);
                let path = seq![name] + rest;
                assert(path.drop_first() =~= rest);
                assert(leaf_at(a, path) == leaf_at(b, path));
                let y = lookup(eb, name)->0;
                let m = choose|m: int| 0 <= m < eb.len() && eb[m] == (name, y);
                assert(tidy(eb[m].1) && filled(eb[m].1));
                assert forall|p: Seq<Seq<char>>| #[trigger] leaf_at(x, p) == leaf_at(y, p) by {
                    let q = seq![name] + p;
                    assert(q.drop_first() =~= p);
                    assert(leaf_at(a, q) == leaf_at(b, q));
                }
                assert(decreases_to!(a => a->Table_0));
                assert(decreases_to!(ea => ea[k]));
                assert(decreases_to!(ea[k] => ea[k].1));
                lemma_alike(x, y);
            } else if lookup(eb, name) is Some {
                let y = lookup(eb, name)->0;
                let m = choose|m: int| 0 <= m < eb.len() && eb[m] == (name, y);
                assert(tidy(eb[m].1) && filled(eb[m].1) && eb[m].1 != Tree::Table(Seq::empty()));
                let rest = lemma_some_leaf(y);
                let path = seq![name] + rest;
                assert(path.drop_first() =~= rest);
                assert(leaf_at(a, path) == leaf_at(b, path));
            }
        }
        lemma_ordered_alike(ea, eb);
    }
}

proof fn lemma_named(t: Tree)
    requires
        all_settings(leaves_of(""@, t)),
    ensures
        all_named(leaves_of(""@, t)),
{
    let all = leaves_of(""@, t);
    assert forall|k: int| 0 <= k < all.len() implies parts((#[trigger] all[k]).0)[0].len() > 0 by {
        lemma_setting_named(all[k].0);
    }
}

proof fn lemma_setting_named(key: Seq<char>)
    requires
        is_setting(key),
    ensures
        parts(key)[0].len() > 0,
        parts(key).len() >= 1,
{
    let j = choose|j: int| 0 <= j < shape_leaves().len() && (#[trigger] shape_leaves()[j]).0 == key;
    lemma_shape_laid_out(j);
    lemma_parts_len(key);
}

proof fn lemma_projected_tidy(t: Tree, n: nat)
    requires
        tidy(t),
        t is Table,
        n <= leaves_of(""@, t).len(),
    ensures
        tidy(projected(leaves_of(""@, t), n)),
        filled(projected(leaves_of(""@, t), n)),
        projected(leaves_of(""@, t), n) is Table,
    decreases n,
{
    let all = leaves_of(""@, t);
    if n > 0 {
        lemma_projected_tidy(t, (n - 1) as nat);
        let leaf = all[n - 1];
        if carried(leaf.0) {
            assert(all.contains(leaf));
            lemma_leaf_found(t, leaf);
            lemma_way_is_plain(t, parts(leaf.0));
            lemma_parts_len(leaf.0);
            lemma_set_tidy(projected(all, (n - 1) as nat), parts(leaf.0), leaf.1);
            lemma_set_filled(projected(all, (n - 1) as nat), parts(leaf.0), leaf.1);
        }
    }
}

/// Whether what one document holds of a profile's settings, another one holds too.
pub open spec fn holds_all(x: Tree, y: Tree) -> bool {
    forall|key: Seq<char>|
        is_setting(key) && carried(key) && leaf_at(x, parts(key)) is Some ==> #[trigger] leaf_at(y, parts(key)) == leaf_at(
            x,
            parts(key),
        )
}

proof fn lemma_carried_over(x: Tree, y: Tree, path: Seq<Seq<char>>)
    requires
        tidy(x),
        tidy(y),
        x is Table,
        y is Table,
        all_settings(leaves_of(""@, x)),
        all_settings(leaves_of(""@, y)),
        holds_all(x, y),
        leaf_at(portable_part(x), path) is Some,
    ensures
        leaf_at(portable_part(y), path) == leaf_at(portable_part(x), path),
{
    reveal_strlit("");
    assert(""@ =~= Seq::<char>::empty());
    let all = leaves_of(""@, x);
    let there = leaves_of(""@, y);
    let kept = portable_part(x);
    let value = leaf_at(kept, path)->0;
    lemma_projected_tidy(x, all.len());
    lemma_named(x);
    if path.len() == 0 {
        assert(get_path(kept, path) == Some(kept));
    }
    lemma_leaf_at(""@, kept, path);
    lemma_way_is_plain(kept, path);
    lemma_path_of(path);
    let key = dotted_path(Seq::empty(), path);
    let saved = leaves_of(""@, kept);
    let i = choose|i: int| 0 <= i < saved.len() && saved[i] == (key, value);
    a_profile_carries_nothing_of_this_computer(x, i);
    assert(all.contains((key, value)));
    let at = choose|at: int| 0 <= at < all.len() && all[at] == (key, value);
    assert(is_setting(all[at].0));
    lemma_leaf_found(x, (key, value));
    assert(leaf_at(y, parts(key)) == leaf_at(x, parts(key)));
    lemma_setting_named(key);
    lemma_found_leaf(y, key);
    assert forall|k: int| 0 <= k < there.len() && (#[trigger] there[k]).0 == key implies there[k].1 == value by {
        assert(there.contains(there[k]));
        lemma_leaf_found(y, there[k]);
    }
    let m = choose|m: int| 0 <= m < there.len() && there[m] == (key, value);
    assert(there[m].0 == key);
    lemma_projected_at(there, there.len(), key, value);
}

/// Two documents that hold the same of a profile's settings have the same portable part.
proof fn lemma_same_part(x: Tree, y: Tree)
    requires
        tidy(x),
        tidy(y),
        x is Table,
        y is Table,
        all_settings(leaves_of(""@, x)),
        all_settings(leaves_of(""@, y)),
        holds_all(x, y),
        holds_all(y, x),
    ensures
        portable_part(x) == portable_part(y),
{
    lemma_projected_tidy(x, leaves_of(""@, x).len());
    lemma_projected_tidy(y, leaves_of(""@, y).len());
    assert forall|path: Seq<Seq<char>>| #[trigger] leaf_at(portable_part(x), path) == leaf_at(portable_part(y), path) by {
        if leaf_at(portable_part(x), path) is Some {
            lemma_carried_over(x, y, path);
        } else if leaf_at(portable_part(y), path) is Some {
            lemma_carried_over(y, x, path);
        }
    }
    lemma_alike(portable_part(x), portable_part(y));
}

/// Whether a configuration is a whole one: a document in order, that holds settings and nothing
/// else, every setting a profile carries among them but for the fields of the keying it does not
/// have, and each of those with a value that keeps its rule.
#[verifier::opaque]
pub open spec fn whole(config: Tree, plain: Tree) -> bool {
    let known = known_settings(plain);
    &&& config is Table
    &&& tidy(config)
    &&& all_settings(leaves_of(""@, config))
    &&& forall|i: int|
        0 <= i < known.len() && (#[trigger] known[i]).rule.scope.travels() && !begins(known[i].key, "ptt."@) ==> leaf_at(
            config,
            parts(known[i].key),
        ) is Some
    &&& exists|i: int|
        0 <= i < known.len() && (#[trigger] known[i]).key == "ptt."@ + "kind"@ && known[i].rule.scope.travels() && leaf_at(
            config,
            parts(known[i].key),
        ) is Some
    &&& forall|i: int|
        0 <= i < known.len() && (#[trigger] known[i]).rule.scope.travels() && leaf_at(config, parts(known[i].key)) is Some
            ==> objection(
            known[i].key,
            leaf_at(config, parts(known[i].key))->0,
            known[first_setting(known, known[i].key, 0) as int].type_,
        ) is None
}

proof fn lemma_whole(config: Tree, plain: Tree)
    requires
        whole(config, plain),
    ensures
        config is Table,
        tidy(config),
        all_settings(leaves_of(""@, config)),
        all_named(leaves_of(""@, config)),
{
    reveal(whole);
    lemma_named(config);
}

proof fn lemma_whole_has(config: Tree, plain: Tree, i: int)
    requires
        whole(config, plain),
        0 <= i < known_settings(plain).len(),
        known_settings(plain)[i].rule.scope.travels(),
        !begins(known_settings(plain)[i].key, "ptt."@),
    ensures
        leaf_at(config, parts(known_settings(plain)[i].key)) is Some,
{
    reveal(whole);
}

proof fn lemma_known_at(defaults: Seq<(Seq<char>, Tree)>, live: Seq<String>, n: nat, k: int) -> (i: int)
    requires
        0 <= k < n <= shape_leaves().len(),
        shape_leaves()[k].0 != "schema_version"@,
    ensures
        0 <= i < descriptions(defaults, live, n).len(),
        descriptions(defaults, live, n)[i].key == shape_leaves()[k].0,
    decreases n,
{
    let before = descriptions(defaults, live, (n - 1) as nat);
    let now = descriptions(defaults, live, n);
    if k < n - 1 {
        let i = lemma_known_at(defaults, live, (n - 1) as nat, k);
        assert(now[i] == before[i]);
        i
    } else {
        let i = before.len() as int;
        assert(now[i] == described(shape_leaves()[k], defaults, live));
        i
    }
}

proof fn lemma_known(plain: Tree, key: Seq<char>) -> (i: int)
    requires
        is_setting(key),
        carried(key),
    ensures
        0 <= i < known_settings(plain).len(),
        known_settings(plain)[i].key == key,
        known_settings(plain)[i].rule.scope.travels(),
{
    let k = choose|k: int| 0 <= k < shape_leaves().len() && (#[trigger] shape_leaves()[k]).0 == key;
    let i = lemma_known_at(with_keying(leaves_of(""@, plain)), Seq::empty(), shape_leaves().len(), k);
    lemma_known_scope(plain, i);
    i
}

proof fn lemma_known_is_setting(plain: Tree, i: int)
    requires
        0 <= i < known_settings(plain).len(),
    ensures
        is_setting(known_settings(plain)[i].key),
        !(known_settings(plain)[i].default is Table),
{
    let defaults = with_keying(leaves_of(""@, plain));
    lemma_descriptions(defaults, Seq::empty(), shape_leaves().len());
    let k = choose|k: int|
        0 <= k < shape_leaves().len() && known_settings(plain)[i] == described(
            #[trigger] shape_leaves()[k],
            defaults,
            Seq::empty(),
        );
    let key = shape_leaves()[k].0;
    lemma_lookup_member(defaults, key);
    if lookup(defaults, key) is Some {
        let m = choose|m: int| 0 <= m < defaults.len() && defaults[m] == (key, lookup(defaults, key)->0);
        lemma_defaults_no_tables(plain, keying_leaves().len(), m);
    }
}

proof fn lemma_defaults_no_tables(plain: Tree, n: nat, m: int)
    requires
        n <= keying_leaves().len(),
        0 <= m < joined_leaves(leaves_of(""@, plain), keying_leaves(), n).len(),
    ensures
        !(joined_leaves(leaves_of(""@, plain), keying_leaves(), n)[m].1 is Table),
    decreases n,
{
    let all = leaves_of(""@, plain);
    if n == 0 {
        assert(all.contains(all[m]));
        lemma_leaf_is_no_table(""@, plain, all[m]);
    } else {
        let before = joined_leaves(all, keying_leaves(), (n - 1) as nat);
        if m < before.len() {
            lemma_defaults_no_tables(plain, (n - 1) as nat, m);
            assert(joined_leaves(all, keying_leaves(), n)[m] == before[m]);
        } else {
            assert(!(keying_leaves()[n - 1].1 is Table));
        }
    }
}

proof fn lemma_held(config: Tree, plain: Tree, i: int) -> (m: int)
    requires
        whole(config, plain),
        0 <= i < known_settings(plain).len(),
        known_settings(plain)[i].rule.scope.travels(),
        leaf_at(config, parts(known_settings(plain)[i].key)) is Some,
    ensures
        holds_at(config, plain, i, m),
        leaves_of(""@, config)[m].1 == leaf_at(config, parts(known_settings(plain)[i].key))->0,
{
    let key = known_settings(plain)[i].key;
    let all = leaves_of(""@, config);
    reveal(whole);
    lemma_known_is_setting(plain, i);
    lemma_setting_named(key);
    lemma_found_leaf(config, key);
    let value = leaf_at(config, parts(key))->0;
    let m = choose|m: int| 0 <= m < all.len() && all[m] == (key, value);
    assert forall|k: int| 0 <= k < all.len() && (#[trigger] all[k]).0 == key implies all[k] == all[m] by {
        assert(all.contains(all[k]));
        lemma_leaf_found(config, all[k]);
    }
    m
}

proof fn lemma_defaults_tidy(config: Tree, plain: Tree, n: nat)
    requires
        whole(config, plain),
        n <= known_settings(plain).len(),
    ensures
        ({
            let t = at_defaults(config, known_settings(plain), n);
            t is Table && tidy(t) && all_settings(leaves_of(""@, t))
        }),
    decreases n,
{
    reveal_strlit("");
    assert(""@ =~= Seq::<char>::empty());
    let known = known_settings(plain);
    lemma_whole(config, plain);
    if n > 0 {
        lemma_defaults_tidy(config, plain, (n - 1) as nat);
        let before = at_defaults(config, known, (n - 1) as nat);
        let s = known[n - 1];
        if s.rule.scope.travels() && !begins(s.key, "ptt."@) {
            lemma_whole_has(config, plain, n - 1);
            lemma_way_is_plain(config, parts(s.key));
            lemma_known_is_setting(plain, n - 1);
            lemma_setting_named(s.key);
            lemma_set_tidy(before, parts(s.key), s.default);
            lemma_set_settings(before, s.key, s.default);
        }
    }
}

proof fn lemma_set_settings(t: Tree, key: Seq<char>, value: Tree)
    requires
        t is Table,
        all_settings(leaves_of(""@, t)),
        is_setting(key),
        !(value is Table),
    ensures
        put_path(t, parts(key), value) is Table,
        all_settings(leaves_of(""@, put_path(t, parts(key), value))),
{
    reveal_strlit("");
    assert(""@ =~= Seq::<char>::empty());
    lemma_setting_named(key);
    lemma_parts(key);
    let all = leaves_of(""@, t);
    let now = leaves_of(""@, put_path(t, parts(key), value));
    assert forall|k: int| 0 <= k < now.len() implies is_setting((#[trigger] now[k]).0) by {
        assert(now.contains(now[k]));
        lemma_put_leaves(""@, t, parts(key), value, now[k]);
        if all.contains(now[k]) {
            let j = choose|j: int| 0 <= j < all.len() && all[j] == now[k];
            assert(is_setting(all[j].0));
        }
    }
}

/// Whether every one of some keying fields is a setting's.
pub open spec fn keying_fields(keying: Seq<(Seq<char>, Tree)>) -> bool {
    forall|k: int|
        0 <= k < keying.len() ==> is_setting("ptt."@ + (#[trigger] keying[k]).0) && !(keying[k].1 is Table)
}

#[verifier::rlimit(60)]
#[verifier::spinoff_prover]
proof fn lemma_sorted_tidy(config: Tree, plain: Tree, n: nat)
    requires
        whole(config, plain),
        n <= leaves_of(""@, portable_part(config)).len(),
    ensures
        ({
            let s = sorted_many(known_settings(plain), config, leaves_of(""@, portable_part(config)), n);
            &&& s.document is Table
            &&& tidy(s.document)
            &&& all_settings(leaves_of(""@, s.document))
            &&& tidy(Tree::Table(s.keying))
            &&& keying_fields(s.keying)
        }),
    decreases n,
{
    let known = known_settings(plain);
    let saved = leaves_of(""@, portable_part(config));
    if n == 0 {
        lemma_defaults_tidy(config, plain, known.len());
        assert(tidy_entries(Seq::empty()));
    } else {
        lemma_sorted_tidy(config, plain, (n - 1) as nat);
        let before = sorted_many(known, config, saved, (n - 1) as nat);
        let (key, value) = saved[n - 1];
        let all = leaves_of(""@, config);
        lemma_whole(config, plain);
        a_profile_carries_nothing_of_this_computer(config, n - 1);
        let at = choose|at: int| 0 <= at < all.len() && all[at] == (key, value);
        assert(is_setting(all[at].0));
        assert(all.contains((key, value)));
        lemma_leaf_found(config, (key, value));
        lemma_way_is_plain(config, parts(key));
        lemma_setting_named(key);
        if begins(key, "ptt."@) {
            reveal_strlit("ptt.");
            let name = key.subrange(4, key.len() as int);
            assert(key =~= "ptt."@ + name);
            lemma_keying_name(name);
            assert(parts(key)[1] == name);
            assert(plain_path(parts(key)));
            assert(name.len() > 0 && plain_name(name));
            lemma_put_tidy(before.keying, name, value);
            let now = put(before.keying, name, value);
            assert forall|k: int| 0 <= k < now.len() implies is_setting("ptt."@ + (#[trigger] now[k]).0) && !(now[k].1 is Table) by {
                lemma_put_members(before.keying, name, value, k);
                if now[k] != (name, value) {
                    let j = choose|j: int| 0 <= j < before.keying.len() && before.keying[j] == now[k];
                    assert(is_setting("ptt."@ + before.keying[j].0));
                }
            }
        } else {
            lemma_set_tidy(before.document, parts(key), value);
            lemma_set_settings(before.document, key, value);
        }
    }
}

/// A field of the keying section stands in it, under its own name.
proof fn lemma_keying_name(name: Seq<char>)
    requires
        is_setting("ptt."@ + name),
    ensures
        parts("ptt."@ + name) == seq!["ptt"@, name],
        parts("ptt"@) == seq!["ptt"@],
{
    let key = "ptt."@ + name;
    reveal_strlit("ptt.");
    reveal_strlit("ptt");
    reveal_strlit(".");
    assert(plain_name("ptt"@));
    lemma_parts_of_plain(Seq::empty(), "ptt"@);
    assert(parts("ptt"@) =~= seq!["ptt"@]);
    let j = choose|j: int| 0 <= j < shape_leaves().len() && (#[trigger] shape_leaves()[j]).0 == key;
    lemma_shape_laid_out(j);
    lemma_parts(key);
    lemma_head("ptt"@, name);
    assert(key =~= "ptt"@ + "."@ + name);
    let p = parts(key);
    reveal_strlit("panel");
    reveal_strlit("callsign");
    reveal_strlit("schema_version");
    assert(p[0] == "ptt"@);
    assert(p.len() == 2);
    assert(p =~= seq![p[0]].push(p[1]));
    lemma_path_push(Seq::empty(), seq![p[0]], p[1]);
    assert(seq![p[0]] =~= Seq::<Seq<char>>::empty().push(p[0]));
    lemma_path_push(Seq::empty(), Seq::empty(), p[0]);
    assert(dotted_path(Seq::empty(), Seq::<Seq<char>>::empty()) == Seq::<char>::empty());
    assert(key == "ptt"@ + "."@ + p[1]);
    assert(key.subrange(4, key.len() as int) =~= p[1]);
    assert(key.subrange(4, key.len() as int) =~= name);
}

/// The first part of a dotted name is what stands before its first full stop.
proof fn lemma_head(head: Seq<char>, rest: Seq<char>)
    requires
        parts(head) == seq![head],
    ensures
        parts(head + "."@ + rest).len() >= 2,
        parts(head + "."@ + rest)[0] == head,
    decreases rest.len(),
{
    reveal_strlit(".");
    let whole = head + "."@ + rest;
    if rest.len() == 0 {
        assert(whole.drop_last() =~= head);
        assert(whole.last() == '.');
    } else {
        assert(whole.drop_last() =~= head + "."@ + rest.drop_last());
        assert(whole.last() == rest.last());
        lemma_head(head, rest.drop_last());
    }
}

proof fn lemma_keyed_is_saved(known: Seq<SettingModel>, all: Seq<(Seq<char>, Tree)>, n: nat, name: Seq<char>)
    requires
        n <= all.len(),
        keyed_as(known, all, n, name) is Some,
    ensures
        all.contains(("ptt."@ + name, keyed_as(known, all, n, name)->0)),
    decreases n,
{
    let (key, value) = all[n - 1];
    let at = first_setting(known, key, 0);
    if key == "ptt."@ + name && at < known.len() && known[at as int].rule.scope.travels() && objection(
        key,
        value,
        known[at as int].type_,
    ) is None {
        assert(all[n - 1] == ("ptt."@ + name, value));
    } else {
        lemma_keyed_is_saved(known, all, (n - 1) as nat, name);
    }
}

/// What loading a configuration's own profile makes of it.
pub open spec fn reloaded(config: Tree, plain: Tree) -> Tree {
    sorted_settings(portable_part(config), config, plain).document
}

proof fn lemma_kind(config: Tree, plain: Tree) -> (i: int)
    requires
        whole(config, plain),
    ensures
        0 <= i < known_settings(plain).len(),
        known_settings(plain)[i].key == "ptt."@ + "kind"@,
        known_settings(plain)[i].rule.scope.travels(),
        leaf_at(config, parts("ptt."@ + "kind"@)) is Some,
        is_setting("ptt."@ + "kind"@),
{
    reveal(whole);
    let known = known_settings(plain);
    let i = choose|i: int|
        0 <= i < known.len() && (#[trigger] known[i]).key == "ptt."@ + "kind"@ && known[i].rule.scope.travels() && leaf_at(
            config,
            parts(known[i].key),
        ) is Some;
    lemma_known_is_setting(plain, i);
    i
}

proof fn lemma_kind_is_keyed(config: Tree, plain: Tree)
    requires
        whole(config, plain),
    ensures
        ({
            let saved = leaves_of(""@, portable_part(config));
            lookup(sorted_many(known_settings(plain), config, saved, saved.len()).keying, "kind"@) is Some
        }),
{
    let saved = leaves_of(""@, portable_part(config));
    let i = lemma_kind(config, plain);
    let m = lemma_held(config, plain, i);
    lemma_keyed_as_saved(config, plain, i, m, "kind"@);
    lemma_keying(known_settings(plain), config, saved, saved.len(), "kind"@);
}

#[verifier::rlimit(60)]
#[verifier::spinoff_prover]
proof fn lemma_reloaded(config: Tree, plain: Tree)
    requires
        whole(config, plain),
    ensures
        reloaded(config, plain) is Table,
        tidy(reloaded(config, plain)),
        all_settings(leaves_of(""@, reloaded(config, plain))),
{
    reveal_strlit("");
    assert(""@ =~= Seq::<char>::empty());
    let saved = leaves_of(""@, portable_part(config));
    let s = sorted_many(known_settings(plain), config, saved, saved.len());
    lemma_sorted_tidy(config, plain, saved.len());
    lemma_kind_is_keyed(config, plain);
    let _ = lemma_kind(config, plain);
    lemma_keying_name("kind"@);
    reveal_strlit("ptt");
    assert(plain_name("ptt"@));
    assert(parts("ptt"@) == seq!["ptt"@]);
    let section = Tree::Table(s.keying);
    let entries = table_entries(s.document);
    let now = put(entries, "ptt"@, section);
    assert(reloaded(config, plain) == Tree::Table(now));
    lemma_put_tidy(entries, "ptt"@, section);
    let all = leaves_of(""@, Tree::Table(now));
    let before = leaves_of(""@, s.document);
    assert forall|k: int| 0 <= k < all.len() implies is_setting((#[trigger] all[k]).0) by {
        let leaf = all[k];
        assert(all.contains(leaf));
        lemma_leaves_in(""@, now, leaf);
        let i = choose|i: int|
            0 <= i < now.len() && leaves_of(dotted(""@, (#[trigger] now[i]).0), now[i].1).contains(leaf);
        lemma_put_members(entries, "ptt"@, section, i);
        if now[i] == ("ptt"@, section) {
            lemma_leaves_in("ptt"@, s.keying, leaf);
            let j = choose|j: int|
                0 <= j < s.keying.len() && leaves_of(dotted("ptt"@, (#[trigger] s.keying[j]).0), s.keying[j].1).contains(leaf);
            reveal_strlit(".");
            reveal_strlit("ptt.");
            assert(is_setting("ptt."@ + s.keying[j].0));
            assert(dotted("ptt"@, s.keying[j].0) =~= "ptt."@ + s.keying[j].0);
            assert(leaves_of(dotted("ptt"@, s.keying[j].0), s.keying[j].1) =~= seq![
                (dotted("ptt"@, s.keying[j].0), s.keying[j].1),
            ]);
        } else {
            let j = choose|j: int| 0 <= j < entries.len() && entries[j] == now[i];
            lemma_leaves_in(""@, entries, leaf);
            assert(leaves_of(dotted(""@, entries[j].0), entries[j].1).contains(leaf));
            assert(before.contains(leaf));
            let b = choose|b: int| 0 <= b < before.len() && before[b] == leaf;
            assert(is_setting(before[b].0));
        }
    }
}

#[verifier::rlimit(60)]
#[verifier::spinoff_prover]
proof fn lemma_kept(config: Tree, plain: Tree, key: Seq<char>)
    requires
        whole(config, plain),
        is_setting(key),
        carried(key),
        leaf_at(config, parts(key)) is Some,
    ensures
        leaf_at(reloaded(config, plain), parts(key)) == leaf_at(config, parts(key)),
{
    let i = lemma_known(plain, key);
    let m = lemma_held(config, plain, i);
    let value = leaves_of(""@, config)[m].1;
    lemma_parts_len(key);
    if begins(key, "ptt."@) {
        reveal_strlit("ptt.");
        let name = key.subrange(4, key.len() as int);
        assert(key =~= "ptt."@ + name);
        let kind = lemma_kind(config, plain);
        let named = lemma_held(config, plain, kind);
        saving_and_loading_gives_back_the_keying(config, config, plain, i, m, name, kind, named);
        lemma_keying_name(name);
        let section = get_path(reloaded(config, plain), parts("ptt"@))->0;
        assert(field(section, name) == Some(value));
        lemma_two_steps(reloaded(config, plain), "ptt"@, name);
    } else {
        lemma_open(config, parts(key));
        saving_and_loading_gives_back_the_setting(config, config, plain, i, m);
    }
}

proof fn lemma_two_steps(t: Tree, a: Seq<char>, b: Seq<char>)
    ensures
        get_path(t, seq![a]) == field(t, a),
        get_path(t, seq![a, b]) == match field(t, a) {
            Some(x) => field(x, b),
            None => None,
        },
{
    reveal_with_fuel(get_path, 3);
    let two = seq![a, b];
    assert(seq![a].drop_first() =~= Seq::empty());
    assert(two.drop_first() =~= seq![b]);
    assert(seq![b].drop_first() =~= Seq::empty());
    if field(t, a) is Some {
        let x = field(t, a)->0;
        assert(get_path(x, seq![b]) == field(x, b));
    }
}

#[verifier::rlimit(60)]
#[verifier::spinoff_prover]
proof fn lemma_nothing_new(config: Tree, plain: Tree, key: Seq<char>)
    requires
        whole(config, plain),
        is_setting(key),
        carried(key),
        leaf_at(reloaded(config, plain), parts(key)) is Some,
    ensures
        leaf_at(config, parts(key)) == leaf_at(reloaded(config, plain), parts(key)),
{
    let i = lemma_known(plain, key);
    let known = known_settings(plain);
    if begins(key, "ptt."@) {
        reveal_strlit("ptt.");
        let name = key.subrange(4, key.len() as int);
        assert(key =~= "ptt."@ + name);
        let saved = leaves_of(""@, portable_part(config));
        let all = leaves_of(""@, config);
        lemma_kind_is_keyed(config, plain);
        lemma_keying(known, config, saved, saved.len(), "kind"@);
        the_keying_is_the_profiles(portable_part(config), config, plain, name);
        lemma_keying_name(name);
        lemma_two_steps(reloaded(config, plain), "ptt"@, name);
        let value = leaf_at(reloaded(config, plain), parts(key))->0;
        assert(keyed_as(known, saved, saved.len(), name) == Some(value));
        lemma_keyed_is_saved(known, saved, saved.len(), name);
        let k = choose|k: int| 0 <= k < saved.len() && saved[k] == (key, value);
        lemma_whole(config, plain);
        a_profile_carries_nothing_of_this_computer(config, k);
        lemma_leaf_found(config, (key, value));
    } else {
        lemma_whole_has(config, plain, i);
        lemma_kept(config, plain, key);
    }
}

/// Loading a configuration's own profile changes nothing that a profile carries: where the
/// configuration is a whole one, the portable part of what is loaded is the one that was saved.
pub proof fn loading_ones_own_profile_changes_nothing(config: Tree, plain: Tree)
    requires
        whole(config, plain),
    ensures
        portable_part(sorted_settings(portable_part(config), config, plain).document) == portable_part(config),
{
    let now = reloaded(config, plain);
    lemma_whole(config, plain);
    lemma_reloaded(config, plain);
    assert forall|key: Seq<char>|
        is_setting(key) && carried(key) && leaf_at(config, parts(key)) is Some implies #[trigger] leaf_at(
        now,
        parts(key),
    ) == leaf_at(config, parts(key)) by {
        lemma_kept(config, plain, key);
    }
    assert forall|key: Seq<char>|
        is_setting(key) && carried(key) && leaf_at(now, parts(key)) is Some implies #[trigger] leaf_at(
        config,
        parts(key),
    ) == leaf_at(now, parts(key)) by {
        lemma_nothing_new(config, plain, key);
    }
    lemma_same_part(config, now);
}

/// A store is clean right after a profile was saved: where the running configuration is a whole
/// one, its active profile holds what it carries of it and the running dials, and the
/// configuration reads the loaded document for what is in it, nothing has moved. A change to a
/// setting that no profile carries leaves it clean.
pub proof fn a_store_is_clean_right_after_saving(
    name: Seq<char>,
    saved: Tree,
    running: Tree,
    plain: Tree,
    schema: u32,
    version: Seq<char>,
    memories: Seq<(u64, Seq<char>)>,
    inventory: Option<InventoryModel>,
    now: Seq<char>,
    verdict: Tree,
    dials: Seq<(u64, Seq<char>)>,
)
    requires
        whole(running, plain),
        portable_part(saved) == portable_part(running),
        portable_part(verdict) == portable_part(sorted_settings(portable_part(saved), running, plain).document),
    ensures
        ({
            let profile = captured(name, saved, schema, version, memories, inventory, now);
            let loaded = applied(profile, running, plain, Ok(verdict), Ok(dials), None);
            &&& moved(true, loaded, running, Ok(dials)) == Some(false)
            &&& moved(false, loaded, running, Ok(dials)) is None
        }),
{
    loading_ones_own_profile_changes_nothing(running, plain);
}

/// A store is clean right after the running configuration was adopted. Where the first start with
/// profiles saves one, its file is written and read again, and it is made active, then the profile
/// that is active is the one that was written, and nothing has moved: a setting that no profile
/// carries may have changed since. With no profile active there is nothing to have moved from.
///
/// The running configuration is a whole one, its numbers survive being written, and the
/// configuration reads the loaded document for what is in it.
pub proof fn a_store_is_clean_right_after_adopting(
    shelf: Shelf,
    saved: Tree,
    running: Tree,
    plain: Tree,
    schema: u32,
    version: Seq<char>,
    memories: Seq<(u64, Seq<char>)>,
    inventory: Option<InventoryModel>,
    now: Seq<char>,
    there: Seq<EntryModel>,
    path: Seq<char>,
    entry: EntryModel,
    document: Result<Tree, Seq<char>>,
    otherwise: Result<ProfileModel, Seq<char>>,
    verdict: Tree,
    dials: Seq<(u64, Seq<char>)>,
)
    requires
        ({
            let profile = captured(
                adopted_name(there, callsign_in(saved)),
                saved,
                schema,
                version,
                memories,
                inventory,
                now,
            );
            &&& adopting(shelf, saved, schema, version, memories, inventory, now, false, there) is Save
            &&& written(shelf, profile, None, there, path) == Ok::<EntryModel, Fault>(entry)
            &&& is_read_back(profile_text(profile), document)
        }),
        neat(saved),
        legible(portable_part(saved), (MAX_DEPTH - 1) as nat),
        whole(running, plain),
        portable_part(saved) == portable_part(running),
        portable_part(verdict) == portable_part(sorted_settings(portable_part(saved), running, plain).document),
    ensures
        ({
            let profile = captured(
                adopted_name(there, callsign_in(saved)),
                saved,
                schema,
                version,
                memories,
                inventory,
                now,
            );
            let after = Shelf { active: Some(entry.id), ..shelf };
            let cleared = Shelf { active: None, ..shelf };
            let loaded = applied(named(profile, entry.id), running, plain, Ok(verdict), Ok(dials), None);
            &&& adopting(shelf, saved, schema, version, memories, inventory, now, false, there) == Adopting::Save(profile)
            &&& parsed(document, otherwise, schema) == Ok::<Reading, Fault>(Reading::Whole(profile))
            &&& named(profile, entry.id) == profile
            &&& moved(after.active is Some, loaded, running, Ok(dials)) == Some(false)
            &&& moved(cleared.active is Some, loaded, running, Ok(dials)) is None
        }),
{
    let name = adopted_name(there, callsign_in(saved));
    let profile = captured(name, saved, schema, version, memories, inventory, now);
    a_captured_profile_is_read_back(name, saved, schema, version, memories, inventory, now, document, otherwise);
    lemma_trimmed_once(name);
    assert(checked_name(profile.name) is Ok);
    assert(trimmed(profile.name) == profile.name);
    assert(profile.name.len() > 0);
    a_store_is_clean_right_after_saving(
        name,
        saved,
        running,
        plain,
        schema,
        version,
        memories,
        inventory,
        now,
        verdict,
        dials,
    );
}

pub(crate) proof fn lemma_trimmed_once(s: Seq<char>)
    ensures
        trimmed(trimmed(s)) == trimmed(s),
{
    let white = |c: char| white_space(c);
    let front = s.subrange(leading(s, white) as int, s.len() as int);
    let t = trimmed(s);
    lemma_leading_bound(s, white);
    lemma_trailing_bound(front, white);
    if t.len() > 0 {
        assert(t[0] == s[leading(s, white) as int]);
        assert(t.last() == front[front.len() - trailing(front, white) - 1]);
    }
    lemma_leading_is(t, white, 0);
    assert(t.subrange(0, t.len() as int) =~= t);
    lemma_trailing_is(t, white, 0);
    assert(stripped(t, white) =~= t);
}

} // verus!
