//! A profile that was written is read back as it was.
use vstd::prelude::*;

use super::clean::lemma_trimmed_once;
use super::file::{
    dial_in, dials_in, fields_in, hint_in, hints_in, memories_in, profile_text, stored, stored_dial,
    stored_dials, stored_envelope, stored_hardware, stored_hint, text_entry, text_or_none, whole_entry, with_hint,
};
use super::laws::{lemma_leaves_in, lemma_lookup_member, lemma_parts_len, lemma_put_members};
use super::{
    captured, parsed, portable_part, projected, Fault, Hint, InventoryModel, ProfileModel, Reading, FORMAT, SCHEMA,
};
use crate::json::read::{
    entries_legible, in_order, is_read_back, items_in_order, items_legible, legible, names_in_order, MAX_DEPTH,
};
use crate::json::{
    field, lemma_lookup_at, lemma_placed_at, lookup, ordered_names, pretty, put, put_is_found, putting_keeps_the_order, Number, Tree,
};
use crate::settings::{carried, dotted, leaves_of, parts, put_path, table_entries};
use crate::text::{order_is_total, precedes, trimmed};

verus! {

/// Whether the names of every table in a document come in order, each once.
pub open spec fn neat(t: Tree) -> bool
    decreases t,
{
    match t {
        Tree::List(items) => neat_items(items),
        Tree::Table(entries) => ordered_names(entries) && neat_entries(entries),
        _ => true,
    }
}

/// Whether it is so of every document of a run.
pub open spec fn neat_items(s: Seq<Tree>) -> bool
    decreases s,
{
    s.len() == 0 || (neat_items(s.drop_last()) && neat(s.last()))
}

/// Whether it is so of every one of some named values.
pub open spec fn neat_entries(s: Seq<(Seq<char>, Tree)>) -> bool
    decreases s,
{
    s.len() == 0 || (neat_entries(s.drop_last()) && neat(s.last().1))
}

/// Whether a profile is read back as it is: it is one of this version's, with its settings in the
/// running schema and in order, its name without white space round it, and its settings' numbers
/// survive being written.
pub open spec fn keeps(p: ProfileModel, current: u32) -> bool {
    &&& p.format == FORMAT@
    &&& p.schema == SCHEMA
    &&& p.settings_schema == current
    &&& p.name == trimmed(p.name)
    &&& p.settings is Table
    &&& neat(p.settings)
    &&& legible(p.settings, (MAX_DEPTH - 1) as nat)
}

proof fn lemma_neat_each(s: Seq<(Seq<char>, Tree)>)
    ensures
        neat_entries(s) == forall|i: int| 0 <= i < s.len() ==> neat((#[trigger] s[i]).1),
    decreases s.len(),
{
    if s.len() > 0 {
        let rest = s.drop_last();
        lemma_neat_each(rest);
        if neat_entries(s) {
            assert forall|i: int| 0 <= i < s.len() implies neat((#[trigger] s[i]).1) by {
                if i < rest.len() {
                    assert(rest[i] == s[i]);
                }
            }
        }
        if forall|i: int| 0 <= i < s.len() ==> neat((#[trigger] s[i]).1) {
            assert forall|i: int| 0 <= i < rest.len() implies neat((#[trigger] rest[i]).1) by {
                assert(rest[i] == s[i]);
            }
            assert(s[s.len() - 1] == s.last());
        }
    }
}

/// A document that is in order is as a table of `serde_json`'s keeps it.
proof fn lemma_neat_is_in_order(t: Tree)
    requires
        neat(t),
    ensures
        in_order(t) == t,
    decreases t, 1nat,
{
    match t {
        Tree::List(items) => lemma_items_are_in_order(items),
        Tree::Table(entries) => lemma_names_are_in_order(entries),
        _ => {},
    }
}

proof fn lemma_items_are_in_order(s: Seq<Tree>)
    requires
        neat_items(s),
    ensures
        items_in_order(s) == s,
    decreases s, 0nat,
{
    if s.len() > 0 {
        lemma_items_are_in_order(s.drop_last());
        lemma_neat_is_in_order(s.last());
        assert(s.drop_last().push(s.last()) =~= s);
    }
}

proof fn lemma_names_are_in_order(s: Seq<(Seq<char>, Tree)>)
    requires
        ordered_names(s),
        neat_entries(s),
    ensures
        names_in_order(s) == s,
    decreases s, 0nat,
{
    if s.len() > 0 {
        let rest = s.drop_last();
        let last = s.last();
        assert forall|i: int, j: int| 0 <= i < j < rest.len() implies precedes(
            (#[trigger] rest[i]).0,
            (#[trigger] rest[j]).0,
        ) by {
            assert(rest[i] == s[i] && rest[j] == s[j]);
        }
        lemma_names_are_in_order(rest);
        lemma_neat_is_in_order(last.1);
        assert forall|i: int| 0 <= i < rest.len() implies (#[trigger] rest[i]).0 != last.0 && !precedes(
            last.0,
            rest[i].0,
        ) by {
            assert(rest[i] == s[i] && s[s.len() - 1] == last);
            assert(precedes(s[i].0, s[s.len() - 1].0));
            order_is_total(rest[i].0, last.0);
        }
        lemma_lookup_at(rest, last.0, rest.len() as int);
        lemma_placed_at(rest, last.0, last.1, rest.len() as int);
        assert(rest.insert(rest.len() as int, last) =~= s);
    }
}

/// What is found in a table whose names were put in order: of each name the last.
proof fn lemma_last_found(s: Seq<(Seq<char>, Tree)>, e: (Seq<char>, Tree), key: Seq<char>)
    ensures
        lookup(names_in_order(s.push(e)), key) == if e.0 == key {
            Some(in_order(e.1))
        } else {
            lookup(names_in_order(s), key)
        },
{
    assert(s.push(e).drop_last() =~= s);
    put_is_found(names_in_order(s), e.0, in_order(e.1), key);
}

proof fn lemma_finding()
    ensures
        forall|s: Seq<(Seq<char>, Tree)>, e: (Seq<char>, Tree), key: Seq<char>|
            #[trigger] lookup(names_in_order(s.push(e)), key) == (if e.0 == key {
                Some(in_order(e.1))
            } else {
                lookup(names_in_order(s), key)
            }),
        forall|key: Seq<char>| #[trigger] lookup(names_in_order(Seq::empty()), key) is None,
        forall|t: Tree, key: Seq<char>| #[trigger] field(in_order(t), key) == (match t {
            Tree::Table(s) => lookup(names_in_order(s), key),
            _ => None,
        }),
{
    assert forall|s: Seq<(Seq<char>, Tree)>, e: (Seq<char>, Tree), key: Seq<char>|
        #[trigger] lookup(names_in_order(s.push(e)), key) == (if e.0 == key {
            Some(in_order(e.1))
        } else {
            lookup(names_in_order(s), key)
        }) by {
        lemma_last_found(s, e, key);
    }
    assert(names_in_order(Seq::empty()) =~= Seq::empty());
}

proof fn lemma_keys()
    ensures
        "name"@ != "description"@,
        "hz"@ != "name"@,
        "ptt_port"@ != "ptt_device"@,
{
    reveal_strlit("name");
    reveal_strlit("description");
    reveal_strlit("hz");
    reveal_strlit("ptt_port");
    reveal_strlit("ptt_device");
    assert("name"@.len() == 4 && "description"@.len() == 11 && "hz"@.len() == 2);
    assert("ptt_port"@.len() == 8 && "ptt_device"@.len() == 10);
}

/// The names of a profile's fields, a number for each.
spec fn field_number(key: Seq<char>) -> int {
    if key.len() == 6 {
        if key[0] == 'f' { 0 } else { 1 }
    } else if key.len() == 15 {
        2
    } else if key.len() == 14 {
        3
    } else if key.len() == 4 {
        4
    } else if key.len() == 7 {
        5
    } else if key[1] == 'o' {
        6
    } else if key[0] == 's' {
        7
    } else if key[0] == 'h' {
        8
    } else {
        9
    }
}

proof fn lemma_field_numbers()
    ensures
        field_number("format"@) == 0,
        field_number("schema"@) == 1,
        field_number("settings_schema"@) == 2,
        field_number("aether_version"@) == 3,
        field_number("name"@) == 4,
        field_number("created"@) == 5,
        field_number("modified"@) == 6,
        field_number("settings"@) == 7,
        field_number("hardware"@) == 8,
        field_number("memories"@) == 9,
{
    reveal_strlit("format");
    reveal_strlit("schema");
    reveal_strlit("settings_schema");
    reveal_strlit("aether_version");
    reveal_strlit("name");
    reveal_strlit("created");
    reveal_strlit("modified");
    reveal_strlit("settings");
    reveal_strlit("hardware");
    reveal_strlit("memories");
}

proof fn lemma_hint_back(h: Hint)
    ensures
        in_order(stored_hint(h)) is Table,
        text_or_none(in_order(stored_hint(h)), "name"@) == Some(h.name),
        text_or_none(in_order(stored_hint(h)), "description"@) == Some(h.description),
{
    lemma_finding();
    lemma_keys();
}

proof fn lemma_hardware_back(p: ProfileModel)
    ensures
        ({
            let t = in_order(stored_hardware(p));
            t is Table && hint_in(t, "ptt_port"@) == Some(p.ptt_port) && hint_in(t, "ptt_device"@) == Some(p.ptt_device)
        }),
{
    lemma_finding();
    lemma_keys();
    match p.ptt_port {
        Some(h) => lemma_hint_back(h),
        None => {},
    }
    match p.ptt_device {
        Some(h) => lemma_hint_back(h),
        None => {},
    }
}

proof fn lemma_dial_back(m: (u64, Seq<char>))
    ensures
        dial_in(in_order(stored_dial(m))) == Some(m),
{
    lemma_finding();
    lemma_keys();
}

proof fn lemma_items_at(s: Seq<Tree>)
    ensures
        items_in_order(s).len() == s.len(),
        forall|i: int| 0 <= i < s.len() ==> #[trigger] items_in_order(s)[i] == in_order(s[i]),
    decreases s.len(),
{
    if s.len() > 0 {
        let rest = s.drop_last();
        lemma_items_at(rest);
        assert forall|i: int| 0 <= i < s.len() implies #[trigger] items_in_order(s)[i] == in_order(s[i]) by {
            if i < rest.len() {
                assert(items_in_order(rest)[i] == in_order(rest[i]));
            }
        }
    }
}

proof fn lemma_dials_back(list: Seq<(u64, Seq<char>)>, n: nat)
    requires
        n <= list.len(),
    ensures
        dials_in(items_in_order(stored_dials(list)), n) == Some(list.subrange(0, n as int)),
    decreases n,
{
    let s = items_in_order(stored_dials(list));
    if n == 0 {
        assert(list.subrange(0, 0) =~= Seq::empty());
    } else {
        lemma_dials_back(list, (n - 1) as nat);
        lemma_items_at(stored_dials(list));
        assert(s[n - 1] == in_order(stored_dials(list)[n - 1]));
        assert(stored_dials(list)[n - 1] == stored_dial(list[n - 1]));
        lemma_dial_back(list[n - 1]);
        assert(list.subrange(0, n as int) =~= list.subrange(0, n - 1).push(list[n - 1]));
    }
}

/// The named values of a profile's file, the dials last.
spec fn stored_fields(p: ProfileModel) -> Seq<(Seq<char>, Tree)> {
    stored_envelope(p).push(("settings"@, p.settings)).push(("hardware"@, stored_hardware(p)))
}

proof fn lemma_fields_found(p: ProfileModel)
    ensures
        ({
            let s = names_in_order(stored_fields(p));
            &&& lookup(s, "format"@) == Some(Tree::Text(p.format))
            &&& lookup(s, "schema"@) == Some(Tree::Number(Number::Unsigned(p.schema as u64)))
            &&& lookup(s, "settings_schema"@) == Some(Tree::Number(Number::Unsigned(p.settings_schema as u64)))
            &&& lookup(s, "aether_version"@) == Some(Tree::Text(p.aether_version))
            &&& lookup(s, "name"@) == Some(Tree::Text(p.name))
            &&& lookup(s, "created"@) == Some(Tree::Text(p.created))
            &&& lookup(s, "modified"@) == Some(Tree::Text(p.modified))
            &&& lookup(s, "settings"@) == Some(in_order(p.settings))
            &&& lookup(s, "hardware"@) == Some(in_order(stored_hardware(p)))
            &&& lookup(s, "memories"@) is None
        }),
{
    lemma_finding();
    lemma_field_numbers();
}

proof fn lemma_stored_found(p: ProfileModel)
    ensures
        ({
            let t = in_order(stored(p));
            &&& t is Table
            &&& field(t, "memories"@) == match p.memories {
                Some(list) => Some(Tree::List(items_in_order(stored_dials(list)))),
                None => None,
            }
            &&& forall|key: Seq<char>|
                key != "memories"@ ==> #[trigger] field(t, key) == lookup(names_in_order(stored_fields(p)), key)
        }),
{
    lemma_fields_found(p);
    let t = in_order(stored(p));
    assert forall|key: Seq<char>| key != "memories"@ implies #[trigger] field(t, key) == lookup(
        names_in_order(stored_fields(p)),
        key,
    ) by {
        match p.memories {
            Some(list) => lemma_last_found(stored_fields(p), ("memories"@, Tree::List(stored_dials(list))), key),
            None => {},
        }
    }
    match p.memories {
        Some(list) => lemma_last_found(stored_fields(p), ("memories"@, Tree::List(stored_dials(list))), "memories"@),
        None => {},
    }
}

/// The fields of a profile's document say that profile.
proof fn lemma_fields_back(p: ProfileModel)
    requires
        neat(p.settings),
    ensures
        fields_in(in_order(stored(p))) == Some(p),
{
    let t = in_order(stored(p));
    lemma_field_numbers();
    lemma_fields_found(p);
    lemma_stored_found(p);
    lemma_neat_is_in_order(p.settings);
    lemma_hardware_back(p);
    assert(hints_in(t) == Some((p.ptt_port, p.ptt_device)));
    match p.memories {
        Some(list) => {
            lemma_items_at(stored_dials(list));
            lemma_dials_back(list, list.len());
            assert(list.subrange(0, list.len() as int) =~= list);
            assert(items_in_order(stored_dials(list)).len() == list.len());
        },
        None => {},
    }
    assert(memories_in(t) == Some(p.memories));
}

proof fn lemma_legible_push(s: Seq<(Seq<char>, Tree)>, e: (Seq<char>, Tree), depth: nat)
    ensures
        entries_legible(s.push(e), depth) == (entries_legible(s, depth) && legible(e.1, depth)),
{
    assert(s.push(e).drop_last() =~= s);
}

proof fn lemma_legibility()
    ensures
        forall|s: Seq<(Seq<char>, Tree)>, e: (Seq<char>, Tree), depth: nat|
            #[trigger] entries_legible(s.push(e), depth) == (entries_legible(s, depth) && legible(e.1, depth)),
        forall|depth: nat| #[trigger] entries_legible(Seq::empty(), depth),
{
    assert forall|s: Seq<(Seq<char>, Tree)>, e: (Seq<char>, Tree), depth: nat|
        #[trigger] entries_legible(s.push(e), depth) == (entries_legible(s, depth) && legible(e.1, depth)) by {
        lemma_legible_push(s, e, depth);
    }
}

proof fn lemma_hint_legible(h: Hint, depth: nat)
    requires
        depth > 0,
    ensures
        legible(stored_hint(h), depth),
{
    lemma_legibility();
    let one = Seq::empty().push(text_entry("name"@, h.name));
    assert(entries_legible(one, (depth - 1) as nat));
    assert(entries_legible(one.push(text_entry("description"@, h.description)), (depth - 1) as nat));
}

proof fn lemma_hardware_legible(p: ProfileModel, depth: nat)
    requires
        depth > 1,
    ensures
        legible(stored_hardware(p), depth),
{
    lemma_legibility();
    let d = (depth - 1) as nat;
    let one = with_hint(Seq::empty(), "ptt_port"@, p.ptt_port);
    match p.ptt_port {
        Some(h) => lemma_hint_legible(h, d),
        None => {},
    }
    assert(entries_legible(one, d));
    match p.ptt_device {
        Some(h) => lemma_hint_legible(h, d),
        None => {},
    }
    assert(entries_legible(with_hint(one, "ptt_device"@, p.ptt_device), d));
}

proof fn lemma_dials_legible(list: Seq<(u64, Seq<char>)>, depth: nat)
    requires
        depth > 0,
    ensures
        items_legible(stored_dials(list), depth),
    decreases list.len(),
{
    if list.len() > 0 {
        lemma_dials_legible(list.drop_last(), depth);
        assert(stored_dials(list).drop_last() =~= stored_dials(list.drop_last()));
        let m = list.last();
        assert(stored_dials(list).last() == stored_dial(m));
        lemma_legibility();
        let one = Seq::empty().push(whole_entry("hz"@, m.0));
        assert(entries_legible(one, (depth - 1) as nat));
        assert(entries_legible(one.push(text_entry("name"@, m.1)), (depth - 1) as nat));
        assert(legible(stored_dial(m), depth));
    }
}

proof fn lemma_stored_legible(p: ProfileModel)
    requires
        legible(p.settings, (MAX_DEPTH - 1) as nat),
    ensures
        legible(stored(p), MAX_DEPTH as nat),
{
    lemma_legibility();
    let d = (MAX_DEPTH - 1) as nat;
    lemma_hardware_legible(p, d);
    assert(entries_legible(stored_envelope(p), d));
    assert(entries_legible(stored_fields(p), d));
    match p.memories {
        Some(list) => {
            lemma_dials_legible(list, (d - 1) as nat);
            assert(legible(Tree::List(stored_dials(list)), d));
            lemma_legible_push(stored_fields(p), ("memories"@, Tree::List(stored_dials(list))), d);
        },
        None => {},
    }
}

/// What was written is read back: whatever document a profile's text is read as, so long as the
/// reader gives back what was written, the profile that it says is that profile.
pub proof fn what_was_written_is_read_back(
    p: ProfileModel,
    document: Result<Tree, Seq<char>>,
    otherwise: Result<ProfileModel, Seq<char>>,
    current: u32,
)
    requires
        keeps(p, current),
        is_read_back(profile_text(p), document),
    ensures
        parsed(document, otherwise, current) == Ok::<Reading, Fault>(Reading::Whole(p)),
{
    lemma_stored_legible(p);
    assert(profile_text(p) == pretty(stored(p), ""@) + "\n"@);
    assert(document == Ok::<Tree, Seq<char>>(in_order(stored(p))));
    lemma_field_numbers();
    lemma_fields_found(p);
    lemma_stored_found(p);
    lemma_fields_back(p);
}

proof fn lemma_put_neat(entries: Seq<(Seq<char>, Tree)>, name: Seq<char>, value: Tree)
    requires
        neat(Tree::Table(entries)),
        neat(value),
    ensures
        neat(Tree::Table(put(entries, name, value))),
{
    let now = put(entries, name, value);
    putting_keeps_the_order(entries, name, value);
    lemma_neat_each(entries);
    assert forall|i: int| 0 <= i < now.len() implies neat((#[trigger] now[i]).1) by {
        lemma_put_members(entries, name, value, i);
        if now[i] != (name, value) {
            let k = choose|k: int| 0 <= k < entries.len() && entries[k] == now[i];
            assert(neat(entries[k].1));
        }
    }
    lemma_neat_each(now);
}

proof fn lemma_set_neat(t: Tree, path: Seq<Seq<char>>, value: Tree)
    requires
        neat(t),
        neat(value),
    ensures
        neat(put_path(t, path, value)),
    decreases path.len(),
{
    let entries = table_entries(t);
    if path.len() == 1 {
        lemma_put_neat(entries, path[0], value);
    } else if path.len() > 1 {
        let inner = match lookup(entries, path[0]) {
            Some(x) => x,
            None => Tree::Table(Seq::empty()),
        };
        lemma_lookup_member(entries, path[0]);
        lemma_neat_each(entries);
        if lookup(entries, path[0]) is Some {
            let k = choose|k: int| 0 <= k < entries.len() && entries[k] == (path[0], inner);
            assert(neat(entries[k].1));
        }
        lemma_set_neat(inner, path.drop_first(), value);
        lemma_put_neat(entries, path[0], put_path(inner, path.drop_first(), value));
    }
}

proof fn lemma_leaf_neat(prefix: Seq<char>, t: Tree, leaf: (Seq<char>, Tree))
    requires
        neat(t),
        leaves_of(prefix, t).contains(leaf),
    ensures
        neat(leaf.1),
    decreases t,
{
    match t {
        Tree::Table(entries) => {
            lemma_leaves_in(prefix, entries, leaf);
            let i = choose|i: int|
                0 <= i < entries.len() && leaves_of(dotted(prefix, (#[trigger] entries[i]).0), entries[i].1).contains(leaf);
            lemma_neat_each(entries);
            assert(neat(entries[i].1));
            assert(decreases_to!(t => t->Table_0));
            assert(decreases_to!(entries => entries[i]));
            assert(decreases_to!(entries[i] => entries[i].1));
            lemma_leaf_neat(dotted(prefix, entries[i].0), entries[i].1, leaf);
        },
        _ => {},
    }
}

proof fn lemma_projected_neat(t: Tree, n: nat)
    requires
        neat(t),
        n <= leaves_of(""@, t).len(),
    ensures
        neat(projected(leaves_of(""@, t), n)),
        projected(leaves_of(""@, t), n) is Table,
    decreases n,
{
    let all = leaves_of(""@, t);
    if n > 0 {
        lemma_projected_neat(t, (n - 1) as nat);
        let leaf = all[n - 1];
        assert(all.contains(leaf));
        lemma_leaf_neat(""@, t, leaf);
        lemma_parts_len(leaf.0);
        if carried(leaf.0) {
            lemma_set_neat(projected(all, (n - 1) as nat), parts(leaf.0), leaf.1);
        }
    }
}

/// A captured profile is read back from its text: where the configuration is a document in order
/// whose numbers survive being written, and no deeper than a text may be, the text of what was
/// captured of it is read as the profile that was captured.
pub proof fn a_captured_profile_is_read_back(
    name: Seq<char>,
    config: Tree,
    current: u32,
    version: Seq<char>,
    memories: Seq<(u64, Seq<char>)>,
    inventory: Option<InventoryModel>,
    now: Seq<char>,
    document: Result<Tree, Seq<char>>,
    otherwise: Result<ProfileModel, Seq<char>>,
)
    requires
        neat(config),
        legible(portable_part(config), (MAX_DEPTH - 1) as nat),
        is_read_back(profile_text(captured(name, config, current, version, memories, inventory, now)), document),
    ensures
        ({
            let p = captured(name, config, current, version, memories, inventory, now);
            keeps(p, current) && parsed(document, otherwise, current) == Ok::<Reading, Fault>(Reading::Whole(p))
        }),
{
    let p = captured(name, config, current, version, memories, inventory, now);
    lemma_trimmed_once(name);
    lemma_projected_neat(config, leaves_of(""@, config).len());
    what_was_written_is_read_back(p, document, otherwise, current);
}

} // verus!
