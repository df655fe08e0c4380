//! What is said of a profile when it is named, found, listed and loaded.
use vstd::prelude::*;

use crate::json::{field, lookup, put_is_found, Number, Tree};
use crate::profile::{
    adopted_name, adopting, alike, answers_to, by_name, captured, changed_between, changes, checked_name, envelope_fault,
    first_called, first_described, first_setting, found, fresh_config, how_many, kept_entries, keyed_by, lower_names,
    missing_devices, missing_keying, missing_sound, moved, objection, only_match, ordered, portable_part, settings_fault,
    sorted_many, text_field, without_nulls, written, Adopting, AppliedModel, EntryModel, Fault, Hint, InventoryModel, Keyed, Missing,
    ProfileModel, Shelf,
};
use crate::settings::{leaves_of, parts, SettingModel};
use crate::text::{lowercase, order_of, ordering_keeps_them_all, place_before, precedes, trimmed};

verus! {

/// Whether a list names a device behind which a description stands.
pub open spec fn stands_at(list: Seq<Hint>, description: Seq<char>, i: int) -> bool {
    0 <= i < list.len() && list[i].description == description
}

proof fn lemma_how_many(list: Seq<Hint>, description: Seq<char>, n: nat)
    requires
        n <= list.len(),
    ensures
        how_many(list, description, n) == 0 <==> forall|i: int| 0 <= i < n ==> !#[trigger] stands_at(list, description, i),
        forall|i: int| 0 <= i < n && #[trigger] stands_at(list, description, i) ==> how_many(list, description, n) >= 1,
        forall|i: int, j: int|
            0 <= i < j < n && #[trigger] stands_at(list, description, i) && #[trigger] stands_at(list, description, j)
                ==> how_many(list, description, n) >= 2,
        how_many(list, description, n) >= 2 ==> exists|i: int, j: int|
            0 <= i < j < n && #[trigger] stands_at(list, description, i) && #[trigger] stands_at(list, description, j),
    decreases n,
{
    if n > 0 {
        let m = (n - 1) as nat;
        lemma_how_many(list, description, m);
        if how_many(list, description, n) == 0 {
            assert(!stands_at(list, description, m as int));
        }
        if how_many(list, description, n) >= 2 && how_many(list, description, m) < 2 {
            assert(stands_at(list, description, m as int));
            assert(how_many(list, description, m) != 0);
            let i = choose|i: int| 0 <= i < m && #[trigger] stands_at(list, description, i);
            assert(stands_at(list, description, i));
        }
        if stands_at(list, description, m as int) {
            assert(how_many(list, description, n) >= 1);
        }
    }
}

proof fn lemma_first_described(list: Seq<Hint>, description: Seq<char>, from: nat, i: int)
    requires
        from <= i < list.len(),
        list[i].description == description,
        forall|j: int| from <= j < i ==> (#[trigger] list[j]).description != description,
    ensures
        first_described(list, description, from) == i,
    decreases i - from,
{
    if from < i {
        lemma_first_described(list, description, from + 1, i);
    }
}

/// A device is suggested in the place of one that is gone where it is the only one that is
/// described as that one was: not where none is, nor where several are, nor where nothing was
/// said of it.
pub proof fn only_the_one_like_it_is_suggested(list: Seq<Hint>, hint: Hint, i: int)
    ensures
        hint.description.len() == 0 ==> only_match(list, Some(hint)) is None,
        (forall|j: int| !#[trigger] stands_at(list, hint.description, j)) ==> only_match(list, Some(hint)) is None,
        (exists|j: int, k: int|
            j < k && #[trigger] stands_at(list, hint.description, j) && #[trigger] stands_at(list, hint.description, k))
            ==> only_match(list, Some(hint)) is None,
        hint.description.len() > 0 && stands_at(list, hint.description, i) && (forall|j: int|
            j != i ==> !#[trigger] stands_at(list, hint.description, j)) ==> only_match(list, Some(hint)) == Some(
            list[i].name,
        ),
        only_match(list, None) is None,
{
    let d = hint.description;
    lemma_how_many(list, d, list.len());
    if d.len() > 0 && stands_at(list, d, i) && (forall|j: int| j != i ==> !#[trigger] stands_at(list, d, j)) {
        assert(how_many(list, d, list.len()) == 1);
        assert forall|j: int| 0 <= j < i implies (#[trigger] list[j]).description != d by {
            assert(!stands_at(list, d, j));
        }
        lemma_first_described(list, d, 0, i);
    }
}

/// Whether a list of what is missing names a setting.
pub open spec fn says(list: Seq<Missing>, key: Seq<char>, name: Seq<char>) -> bool {
    exists|i: int| 0 <= i < list.len() && (#[trigger] list[i]).key == key && list[i].name == name
}

/// The device of a section of the configuration, by the name of its field.
pub open spec fn named_in(config: Tree, section: Seq<char>, name: Seq<char>) -> Option<Seq<char>> {
    match field(config, section) {
        Some(t) => text_field(t, name),
        None => None,
    }
}

proof fn lemma_keys()
    ensures
        "audio.input"@ != "audio.output"@,
        "audio.input"@ != "ptt.port"@,
        "audio.input"@ != "ptt.device"@,
        "audio.output"@ != "ptt.port"@,
        "audio.output"@ != "ptt.device"@,
        "ptt.port"@ != "ptt.device"@,
{
    reveal_strlit("audio.input");
    reveal_strlit("audio.output");
    reveal_strlit("ptt.port");
    reveal_strlit("ptt.device");
    assert("audio.input"@.len() == 11 && "audio.output"@.len() == 12 && "ptt.port"@.len() == 8 && "ptt.device"@.len()
        == 10);
}

/// What a configuration names and the computer has not is said to be missing, and nothing
/// else: a sound card to listen with among those that can be listened with, one to play with
/// among those that can be played with, a port among the ports and an interface among the
/// interfaces.
pub proof fn what_is_named_and_not_there_is_missing(
    config: Tree,
    there: InventoryModel,
    port: Option<Hint>,
    device: Option<Hint>,
    name: Seq<char>,
)
    requires
        !there.says_nothing(),
    ensures
        ({
            let list = missing_devices(config, Some(there), port, device);
            &&& says(list, "audio.input"@, name) <==> named_in(config, "audio"@, "input"@) == Some(name)
                && !there.inputs.contains(name)
            &&& says(list, "audio.output"@, name) <==> named_in(config, "audio"@, "output"@) == Some(name)
                && !there.outputs.contains(name)
            &&& says(list, "ptt.port"@, name) <==> keyed_by(config) == Keyed::Port(name) && !(exists|i: int|
                0 <= i < there.serial_ports.len() && (#[trigger] there.serial_ports[i]).name == name)
            &&& says(list, "ptt.device"@, name) <==> keyed_by(config) == Keyed::Device(name) && !(exists|i: int|
                0 <= i < there.gpio_interfaces.len() && (#[trigger] there.gpio_interfaces[i]).name == name)
        }),
{
    lemma_keys();
    let a = missing_sound(config, "input"@, "audio.input"@, there.inputs);
    let b = missing_sound(config, "output"@, "audio.output"@, there.outputs);
    let c = missing_keying(config, there, port, device);
    let list = missing_devices(config, Some(there), port, device);
    assert(list == a + b + c);
    lemma_says(a, b, c, "audio.input"@, name);
    lemma_says(a, b, c, "audio.output"@, name);
    lemma_says(a, b, c, "ptt.port"@, name);
    lemma_says(a, b, c, "ptt.device"@, name);
}

proof fn lemma_says(a: Seq<Missing>, b: Seq<Missing>, c: Seq<Missing>, key: Seq<char>, name: Seq<char>)
    requires
        a.len() <= 1,
        b.len() <= 1,
        c.len() <= 1,
    ensures
        says(a + b + c, key, name) <==> (a.len() == 1 && a[0].key == key && a[0].name == name) || (b.len() == 1 && b[0].key
            == key && b[0].name == name) || (c.len() == 1 && c[0].key == key && c[0].name == name),
{
    let all = a + b + c;
    if a.len() == 1 && a[0].key == key && a[0].name == name {
        assert(all[0] == a[0]);
    }
    if b.len() == 1 && b[0].key == key && b[0].name == name {
        assert(all[a.len() as int] == b[0]);
    }
    if c.len() == 1 && c[0].key == key && c[0].name == name {
        assert(all[(a.len() + b.len()) as int] == c[0]);
    }
    if says(all, key, name) {
        let i = choose|i: int| 0 <= i < all.len() && (#[trigger] all[i]).key == key && all[i].name == name;
        if i < a.len() {
            assert(all[i] == a[i]);
        } else if i < a.len() + b.len() {
            assert(all[i] == b[i - a.len()]);
        } else {
            assert(all[i] == c[i - a.len() - b.len()]);
        }
    }
}

/// A radio keyed over a serial line or by CAT is reached at the port, one keyed by a sound
/// interface at the device, and any other at neither.
pub proof fn the_kind_of_keying_says_where(config: Tree, section: Tree, kind: Seq<char>)
    requires
        field(config, "ptt"@) == Some(section),
        text_field(section, "kind"@) == Some(kind),
    ensures
        kind == "serial"@ || kind == "cat"@ ==> match text_field(section, "port"@) {
            Some(port) => keyed_by(config) == Keyed::Port(port),
            None => keyed_by(config) == Keyed::Nothing,
        },
        kind == "cm108"@ ==> match text_field(section, "device"@) {
            Some(device) => keyed_by(config) == Keyed::Device(device),
            None => keyed_by(config) == Keyed::Nothing,
        },
        kind != "serial"@ && kind != "cat"@ && kind != "cm108"@ ==> keyed_by(config) == Keyed::Nothing,
{
    reveal_strlit("serial");
    reveal_strlit("cat");
    reveal_strlit("cm108");
    assert("serial"@.len() == 6 && "cat"@.len() == 3 && "cm108"@.len() == 5);
}

/// A computer that says nothing of what it has is not held to lack anything.
pub proof fn a_silent_computer_lacks_nothing(config: Tree, there: InventoryModel, port: Option<Hint>, device: Option<Hint>)
    requires
        there.inputs.len() == 0,
        there.outputs.len() == 0,
        there.serial_ports.len() == 0,
        there.gpio_interfaces.len() == 0,
    ensures
        missing_devices(config, Some(there), port, device).len() == 0,
        missing_devices(config, None, port, device).len() == 0,
{
}

/// Whether a setting is other than it was: it was not there, or it had another value.
pub open spec fn changed_at(was: Seq<(Seq<char>, Tree)>, now: Seq<(Seq<char>, Tree)>, key: Seq<char>, i: int) -> bool {
    0 <= i < now.len() && now[i].0 == key && (lookup(was, key) matches Some(old_value) ==> !alike(old_value, now[i].1))
}

proof fn lemma_changes(was: Seq<(Seq<char>, Tree)>, now: Seq<(Seq<char>, Tree)>, n: nat, key: Seq<char>)
    requires
        n <= now.len(),
    ensures
        changes(was, now, n).contains(key) <==> exists|i: int| i < n && #[trigger] changed_at(was, now, key, i),
    decreases n,
{
    if n > 0 {
        let m = (n - 1) as nat;
        lemma_changes(was, now, m, key);
        let before = changes(was, now, m);
        let all = changes(was, now, n);
        if before.contains(key) {
            let k = before.index_of(key);
            assert(all[k] == key);
        }
        if changed_at(was, now, key, m as int) {
            assert(all.last() == key);
        }
        if all.contains(key) && !before.contains(key) {
            let k = all.index_of(key);
            if k < before.len() {
                assert(before[k] == key);
            }
            assert(changed_at(was, now, key, m as int));
        }
    }
}

proof fn lemma_ordered(s: Seq<Seq<char>>, key: Seq<char>)
    ensures
        ordered(s).len() == s.len(),
        ordered(s).contains(key) <==> s.contains(key),
        forall|i: int, j: int| 0 <= i < j < s.len() ==> !precedes(#[trigger] ordered(s)[j], #[trigger] ordered(s)[i]),
{
    let places = order_of(s, s.len());
    ordering_keeps_them_all(s, s.len());
    if ordered(s).contains(key) {
        let i = ordered(s).index_of(key);
        assert(s[places[i]] == key);
    }
    if s.contains(key) {
        let i = s.index_of(key);
        lemma_every_place(places, s.len(), i);
        let k = choose|k: int| 0 <= k < places.len() && places[k] == i;
        assert(ordered(s)[k] == key);
    }
    assert forall|i: int, j: int| 0 <= i < j < s.len() implies !precedes(
        #[trigger] ordered(s)[j],
        #[trigger] ordered(s)[i],
    ) by {
        assert(place_before(s, places[i], places[j]));
        crate::text::order_is_total(s[places[i]], s[places[j]]);
    }
}

proof fn lemma_every_place(places: Seq<int>, n: nat, i: int)
    requires
        crate::text::all_places(places, n),
        0 <= i < n,
    ensures
        exists|k: int| 0 <= k < places.len() && places[k] == i,
{
    let there = places.to_set();
    let all = vstd::set_lib::set_int_range(0, n as int);
    vstd::set_lib::lemma_int_range(0, n as int);
    places.unique_seq_to_set();
    assert(there.subset_of(all));
    vstd::set_lib::lemma_subset_equality(there, all);
    assert(there.contains(i));
}

/// The settings said to have changed are those that differ from what they were, in order.
pub proof fn what_changed_is_what_differs(before: Tree, after: Tree, key: Seq<char>)
    ensures
        changed_between(before, after).contains(key) <==> exists|i: int| #[trigger]
            changed_at(leaves_of(""@, before), leaves_of(""@, after), key, i),
        forall|i: int, j: int|
            0 <= i < j < changed_between(before, after).len() ==> !precedes(
                #[trigger] changed_between(before, after)[j],
                #[trigger] changed_between(before, after)[i],
            ),
{
    let was = leaves_of(""@, before);
    let now = leaves_of(""@, after);
    lemma_changes(was, now, now.len(), key);
    lemma_ordered(changes(was, now, now.len()), key);
}

/// A profile is of the station as it stands: its settings that travel, how it is keyed, its
/// dials, the name it was given and the time.
pub proof fn a_profile_is_of_the_station_as_it_stands(
    name: Seq<char>,
    config: Tree,
    settings_schema: u32,
    version: Seq<char>,
    memories: Seq<(u64, Seq<char>)>,
    inventory: Option<InventoryModel>,
    now: Seq<char>,
)
    ensures
        ({
            let p = captured(name, config, settings_schema, version, memories, inventory, now);
            &&& p.format == "aether-hf-profile"@ && p.schema == 1
            &&& p.settings_schema == settings_schema && p.aether_version == version
            &&& p.name == trimmed(name) && p.created == now && p.modified == now
            &&& p.settings == portable_part(config)
            &&& p.memories == Some(memories)
            &&& p.ptt_port is Some <==> keyed_by(config) is Port
            &&& p.ptt_device is Some <==> keyed_by(config) is Device
            &&& p.ptt_port matches Some(h) ==> keyed_by(config) == Keyed::Port(h.name)
            &&& p.ptt_device matches Some(h) ==> keyed_by(config) == Keyed::Device(h.name)
        }),
{
}

/// A name is taken when there is something of it besides white space and no more than sixty
/// characters.
pub proof fn a_name_has_its_length(name: Seq<char>)
    ensures
        checked_name(name) is Ok <==> 1 <= trimmed(name).len() <= 60,
        checked_name(name) matches Ok(n) ==> n == trimmed(name),
        checked_name(name) matches Err(f) ==> f is BadName,
{
}

/// Whether the entry at a place answers to a name, by its own name or its id, in any case.
pub open spec fn called(s: Seq<EntryModel>, name: Seq<char>, i: int) -> bool {
    0 <= i < s.len() && (lowercase(s[i].name) == lowercase(trimmed(name)) || lowercase(s[i].id) == lowercase(trimmed(name)))
}

proof fn lemma_first_called(s: Seq<EntryModel>, wanted: Seq<char>, from: nat)
    requires
        from <= s.len(),
    ensures
        from <= first_called(s, wanted, from) <= s.len(),
        first_called(s, wanted, from) < s.len() ==> answers_to(s[first_called(s, wanted, from) as int], wanted),
        forall|i: int| from <= i < first_called(s, wanted, from) ==> !answers_to(#[trigger] s[i], wanted),
    decreases s.len() - from,
{
    if from < s.len() && !answers_to(s[from as int], wanted) {
        lemma_first_called(s, wanted, from + 1);
    }
}

/// A name finds the first entry that answers to it, and nothing where none does.
pub proof fn a_name_finds_what_answers_to_it(s: Seq<EntryModel>, name: Seq<char>)
    ensures
        found(s, name) is None <==> forall|i: int| !#[trigger] called(s, name, i),
        found(s, name) matches Some(id) ==> exists|i: int| #[trigger]
            called(s, name, i) && s[i].id == id && (forall|j: int| j < i ==> !#[trigger] called(s, name, j)),
{
    let wanted = lowercase(trimmed(name));
    lemma_first_called(s, wanted, 0);
    let at = first_called(s, wanted, 0) as int;
    if at < s.len() {
        assert(called(s, name, at));
        assert forall|j: int| j < at implies !#[trigger] called(s, name, j) by {
            if 0 <= j {
                assert(!answers_to(s[j], wanted));
            }
        }
    } else {
        assert forall|i: int| !#[trigger] called(s, name, i) by {
            if 0 <= i < s.len() {
                assert(!answers_to(s[i], wanted));
            }
        }
    }
}

/// A profile is kept under a name that nothing else answers to. Where it takes the place of
/// another, that one's name is free to it.
pub proof fn no_two_profiles_share_a_name(
    shelf: Shelf,
    profile: ProfileModel,
    there: Seq<EntryModel>,
    path: Seq<char>,
)
    requires
        1 <= trimmed(profile.name).len() <= 60,
    ensures
        ({
            let name = trimmed(profile.name);
            let r = written(shelf, profile, None, there, path);
            &&& (exists|i: int| #[trigger] called(there, name, i)) ==> r == Err::<EntryModel, Fault>(Fault::NameTaken(name))
            &&& (forall|i: int| !#[trigger] called(there, name, i)) && shelf.dir is None ==> r == Err::<EntryModel, Fault>(
                Fault::NoDirectory,
            )
            &&& (forall|i: int| !#[trigger] called(there, name, i)) && shelf.dir is Some ==> (r matches Ok(e) && e.name
                == name && e.created == profile.created && e.modified == profile.modified && e.aether_version
                == profile.aether_version && e.path == path && e.error is None)
            &&& found(there, name) matches Some(id) ==> shelf.dir is Some ==> written(shelf, profile, Some(id), there, path)
                is Ok
        }),
{
    let name = trimmed(profile.name);
    a_name_finds_what_answers_to_it(there, name);
    if exists|i: int| #[trigger] called(there, name, i) {
        assert(found(there, name) is Some);
    }
}

/// A list of profiles holds them all, by name without regard to case.
pub proof fn the_list_is_by_name(s: Seq<EntryModel>)
    ensures
        by_name(s).len() == s.len(),
        forall|i: int, j: int|
            0 <= i < j < s.len() ==> !precedes(
                lowercase((#[trigger] by_name(s)[j]).name),
                lowercase((#[trigger] by_name(s)[i]).name),
            ),
        forall|i: int| 0 <= i < s.len() ==> s.contains(#[trigger] by_name(s)[i]),
        forall|i: int| 0 <= i < s.len() ==> by_name(s).contains(#[trigger] s[i]),
{
    let keys = lower_names(s);
    let places = order_of(keys, s.len());
    ordering_keeps_them_all(keys, s.len());
    assert forall|i: int, j: int| 0 <= i < j < s.len() implies !precedes(
        lowercase((#[trigger] by_name(s)[j]).name),
        lowercase((#[trigger] by_name(s)[i]).name),
    ) by {
        assert(place_before(keys, places[i], places[j]));
        crate::text::order_is_total(keys[places[i]], keys[places[j]]);
    }
    assert forall|i: int| 0 <= i < s.len() implies s.contains(#[trigger] by_name(s)[i]) by {
        assert(s[places[i]] == by_name(s)[i]);
    }
    assert forall|i: int| 0 <= i < s.len() implies by_name(s).contains(#[trigger] s[i]) by {
        lemma_every_place(places, s.len(), i);
        let k = choose|k: int| 0 <= k < places.len() && places[k] == i;
        assert(by_name(s)[k] == s[i]);
    }
}

/// A station that was set up before it had profiles is saved as one, once: under `Default`, or
/// under that and its callsign where there is a `Default` already.
pub proof fn a_station_is_adopted_once(
    shelf: Shelf,
    config: Tree,
    settings_schema: u32,
    version: Seq<char>,
    memories: Seq<(u64, Seq<char>)>,
    inventory: Option<InventoryModel>,
    now: Seq<char>,
    used: bool,
    there: Seq<EntryModel>,
)
    ensures
        ({
            let r = adopting(shelf, config, settings_schema, version, memories, inventory, now, used, there);
            &&& r == Adopting::Leave <==> shelf.dir is None || used
            &&& r matches Adopting::Save(p) ==> {
                &&& forall|i: int| !#[trigger] called(there, adopted_name(there, crate::profile::callsign_in(config)), i)
                &&& p.settings == portable_part(config) && p.memories == Some(memories)
            }
            &&& (forall|i: int| !#[trigger] called(there, "Default"@, i)) && shelf.dir is Some && !used ==> (
            r matches Adopting::Save(p) && p.name == trimmed("Default"@))
        }),
{
    let callsign = crate::profile::callsign_in(config);
    a_name_finds_what_answers_to_it(there, "Default"@);
    a_name_finds_what_answers_to_it(there, adopted_name(there, callsign));
}

/// A station has moved from its profile when what it would save is not what the profile would
/// load: a setting that travels, or the dials where the profile has any.
pub proof fn a_station_has_moved_where_it_differs(
    loaded: AppliedModel,
    config: Tree,
    dials: Seq<(u64, Seq<char>)>,
)
    ensures
        ({
            let r = moved(true, Ok(loaded), config, Ok(dials));
            &&& r is Some
            &&& portable_part(loaded.config) != portable_part(config) ==> r == Some(true)
            &&& loaded.memories matches Some(list) ==> list != dials ==> r == Some(true)
            &&& portable_part(loaded.config) == portable_part(config) && (loaded.memories matches Some(list) ==> list
                == dials) ==> r == Some(false)
            &&& moved(false, Ok(loaded), config, Ok(dials)) is None
        }),
{
}

/// A profile that says it is one is read unless a newer version wrote it: its envelope beyond
/// the first, or its settings beyond what this version has.
pub proof fn a_newer_profile_is_refused(t: Tree, schema: u64, p: ProfileModel, current: u32)
    requires
        t is Table,
        text_field(t, "format"@) == Some("aether-hf-profile"@),
        field(t, "schema"@) == Some(Tree::Number(Number::Unsigned(schema))),
        p.settings is Table,
    ensures
        schema <= 1 ==> envelope_fault(t) is None,
        schema > 1 ==> (envelope_fault(t) matches Some(f) && f is Newer),
        p.settings_schema <= current ==> settings_fault(p, current) is None,
        p.settings_schema > current ==> (settings_fault(p, current) matches Some(f) && f is Newer),
{
}

proof fn lemma_first_setting(known: Seq<SettingModel>, key: Seq<char>, from: nat)
    requires
        from <= known.len(),
    ensures
        from <= first_setting(known, key, from) <= known.len(),
        first_setting(known, key, from) == known.len() <==> forall|i: int|
            from <= i < known.len() ==> (#[trigger] known[i]).key != key,
        first_setting(known, key, from) < known.len() ==> known[first_setting(known, key, from) as int].key == key,
    decreases known.len() - from,
{
    if from < known.len() && known[from as int].key != key {
        lemma_first_setting(known, key, from + 1);
    }
}

/// Whether a list of refusals names a setting.
pub open spec fn refused(list: Seq<crate::profile::Refusal>, key: Seq<char>, value: Tree) -> bool {
    exists|i: int| 0 <= i < list.len() && (#[trigger] list[i]).key == key && list[i].value == value
}

/// Nothing of a profile is passed over in silence: a setting that is not known is said to be
/// unknown, one that does not travel to be ignored, and one whose value cannot be taken is
/// refused with its value.
pub proof fn nothing_is_passed_over_in_silence(
    known: Seq<SettingModel>,
    document: Tree,
    all: Seq<(Seq<char>, Tree)>,
    n: nat,
    i: int,
)
    requires
        n <= all.len(),
        0 <= i < n,
    ensures
        ({
            let s = sorted_many(known, document, all, n);
            let (key, value) = all[i];
            let at = first_setting(known, key, 0) as int;
            &&& (forall|k: int| 0 <= k < known.len() ==> (#[trigger] known[k]).key != key) ==> s.unknown.contains(key)
            &&& at < known.len() && !known[at].rule.scope.travels() ==> s.ignored.contains(key)
            &&& at < known.len() && known[at].rule.scope.travels() && objection(key, value, known[at].type_) is Some
                ==> refused(s.invalid, key, value)
        }),
    decreases n,
{
    let m = (n - 1) as nat;
    let before = sorted_many(known, document, all, m);
    let s = sorted_many(known, document, all, n);
    let (key, value) = all[i];
    lemma_first_setting(known, key, 0);
    if i < m {
        nothing_is_passed_over_in_silence(known, document, all, m, i);
        if before.unknown.contains(key) {
            let k = before.unknown.index_of(key);
            assert(s.unknown[k] == key);
        }
        if before.ignored.contains(key) {
            let k = before.ignored.index_of(key);
            assert(s.ignored[k] == key);
        }
        if refused(before.invalid, key, value) {
            let k = choose|k: int|
                0 <= k < before.invalid.len() && (#[trigger] before.invalid[k]).key == key && before.invalid[k].value == value;
            assert(s.invalid[k] == before.invalid[k]);
        }
    } else {
        let at = first_setting(known, key, 0) as int;
        if at >= known.len() {
            assert(s.unknown.last() == key);
        } else if !known[at].rule.scope.travels() {
            assert(s.ignored.last() == key);
        } else if objection(key, value, known[at].type_) is Some {
            assert(s.invalid.last().key == key && s.invalid.last().value == value);
        }
    }
}

proof fn lemma_without_nulls(t: Tree)
    ensures
        without_nulls(t) is Null <==> t is Null,
        !(t is Table) ==> without_nulls(t) == t,
{
}

/// Leaving the nulls out of a table leaves out no value, and no null stays.
pub proof fn only_nulls_are_left_out(entries: Seq<(Seq<char>, Tree)>, i: int)
    requires
        0 <= i < entries.len(),
    ensures
        forall|k: int| 0 <= k < kept_entries(entries).len() ==> !((#[trigger] kept_entries(entries)[k]).1 is Null),
        !(entries[i].1 is Null) ==> exists|k: int|
            0 <= k < kept_entries(entries).len() && (#[trigger] kept_entries(entries)[k]).0 == entries[i].0,
        !(entries[i].1 is Null) && !(entries[i].1 is Table) ==> kept_entries(entries).contains(entries[i]),
    decreases entries.len(),
{
    let rest = entries.drop_last();
    let before = kept_entries(rest);
    let all = kept_entries(entries);
    lemma_without_nulls(entries.last().1);
    reveal_with_fuel(kept_entries, 2);
    if rest.len() == 0 {
        assert(before =~= Seq::empty());
    } else {
        only_nulls_are_left_out(rest, if i < rest.len() { i } else { 0 });
    }
    assert forall|k: int| 0 <= k < all.len() implies !((#[trigger] all[k]).1 is Null) by {
        if k < before.len() {
            assert(all[k] == before[k]);
        }
    }
    if i < rest.len() {
        assert(rest[i] == entries[i]);
        if !(entries[i].1 is Null) {
            let k = choose|k: int| 0 <= k < before.len() && (#[trigger] before[k]).0 == entries[i].0;
            assert(all[k] == before[k]);
            if !(entries[i].1 is Table) {
                let j = before.index_of(entries[i]);
                assert(all[j] == entries[i]);
            }
        }
    } else if !(entries[i].1 is Null) {
        assert(all.last().0 == entries[i].0);
        assert(!(entries[i].1 is Table) ==> all.last() == entries[i]);
    }
}

/// A fresh configuration is the plain one under the operator's own name: the callsign and the
/// operator come from whoever asks, and every other section from the plain one.
pub proof fn a_fresh_configuration_keeps_only_the_operator(identity: Tree, plain: Tree, section: Seq<char>)
    requires
        plain is Table,
    ensures
        ({
            let fresh = fresh_config(identity, plain);
            &&& field(identity, "callsign"@) is Some ==> field(fresh, "callsign"@) == field(identity, "callsign"@)
            &&& field(identity, "operator"@) is Some ==> field(fresh, "operator"@) == field(identity, "operator"@)
            &&& section != "callsign"@ && section != "operator"@ ==> field(fresh, section) == field(plain, section)
        }),
{
    reveal_strlit("callsign");
    reveal_strlit("operator");
    lemma_whole_key("callsign"@);
    lemma_whole_key("operator"@);
    assert("callsign"@[0] != "operator"@[0]);
    let called = match field(identity, "callsign"@) {
        Some(t) => crate::settings::put_path(plain, parts("callsign"@), t),
        None => plain,
    };
    let entries = plain->Table_0;
    if field(identity, "callsign"@) is Some {
        let t = field(identity, "callsign"@)->0;
        put_is_found(entries, "callsign"@, t, section);
        put_is_found(entries, "callsign"@, t, "operator"@);
    }
    let more = called->Table_0;
    if field(identity, "operator"@) is Some {
        let t = field(identity, "operator"@)->0;
        put_is_found(more, "operator"@, t, section);
        put_is_found(more, "operator"@, t, "callsign"@);
    }
}

proof fn lemma_whole_key(s: Seq<char>)
    requires
        forall|i: int| 0 <= i < s.len() ==> #[trigger] s[i] != '.',
    ensures
        parts(s) == seq![s],
    decreases s.len(),
{
    if s.len() == 0 {
        assert(s =~= Seq::empty());
    } else {
        let before = s.drop_last();
        assert forall|i: int| 0 <= i < before.len() implies #[trigger] before[i] != '.' by {
            assert(s[i] != '.');
        }
        lemma_whole_key(before);
        assert(s[s.len() - 1] != '.');
        assert(before.push(s.last()) =~= s);
        let all = parts(before);
        assert(all.len() == 1 && all.last() == before);
        assert(parts(s) == all.update(0, before.push(s.last())));
        assert(all.update(0, s) =~= seq![s]);
    }
}

} // verus!
