//! A profile's file: the document it is written as, and the fields that are read in it again.
use vstd::prelude::*;

use super::{hint_view, memories_view, memory_views, DeviceHint, Hardware, Hint, Memory, Profile, ProfileModel};
use crate::json::{entries_of, field, lemma_trees, pretty, tree_of, trees_of, Json, Number, Tree};

verus! {

/// A named text.
pub open spec fn text_entry(name: Seq<char>, s: Seq<char>) -> (Seq<char>, Tree) {
    (name, Tree::Text(s))
}

/// A named whole number.
pub open spec fn whole_entry(name: Seq<char>, n: u64) -> (Seq<char>, Tree) {
    (name, Tree::Number(Number::Unsigned(n)))
}

/// A hint as a file holds it.
pub open spec fn stored_hint(h: Hint) -> Tree {
    Tree::Table(Seq::empty().push(text_entry("name"@, h.name)).push(text_entry("description"@, h.description)))
}

/// Named values with a hint's behind them, where there is one.
pub open spec fn with_hint(s: Seq<(Seq<char>, Tree)>, name: Seq<char>, h: Option<Hint>) -> Seq<(Seq<char>, Tree)> {
    match h {
        Some(h) => s.push((name, stored_hint(h))),
        None => s,
    }
}

/// A dial as a file holds it.
pub open spec fn stored_dial(m: (u64, Seq<char>)) -> Tree {
    Tree::Table(Seq::empty().push(whole_entry("hz"@, m.0)).push(text_entry("name"@, m.1)))
}

/// Dials as a file holds them.
pub open spec fn stored_dials(s: Seq<(u64, Seq<char>)>) -> Seq<Tree> {
    s.map_values(|m: (u64, Seq<char>)| stored_dial(m))
}

/// What a profile says of itself, as a file holds it.
pub open spec fn stored_envelope(p: ProfileModel) -> Seq<(Seq<char>, Tree)> {
    Seq::empty().push(text_entry("format"@, p.format)).push(whole_entry("schema"@, p.schema as u64)).push(
        whole_entry("settings_schema"@, p.settings_schema as u64),
    ).push(text_entry("aether_version"@, p.aether_version)).push(text_entry("name"@, p.name)).push(
        text_entry("created"@, p.created),
    ).push(text_entry("modified"@, p.modified))
}

/// What a profile knows of the hardware, as a file holds it.
pub open spec fn stored_hardware(p: ProfileModel) -> Tree {
    Tree::Table(with_hint(with_hint(Seq::empty(), "ptt_port"@, p.ptt_port), "ptt_device"@, p.ptt_device))
}

/// A profile as a file holds it.
pub open spec fn stored(p: ProfileModel) -> Tree {
    let all = stored_envelope(p).push(("settings"@, p.settings)).push(("hardware"@, stored_hardware(p)));
    Tree::Table(
        match p.memories {
            Some(list) => all.push(("memories"@, Tree::List(stored_dials(list)))),
            None => all,
        },
    )
}

/// A profile's text: its document over several lines.
pub open spec fn profile_text(p: ProfileModel) -> Seq<char> {
    pretty(stored(p), ""@) + "\n"@
}

/// The text under a name, none being an empty one; no text where there is something else.
pub open spec fn text_or_none(t: Tree, key: Seq<char>) -> Option<Seq<char>> {
    match field(t, key) {
        None => Some(""@),
        Some(Tree::Text(s)) => Some(s),
        _ => None,
    }
}

/// The schema under a name, none being the first; no schema where there is something else.
pub open spec fn schema_or_first(t: Tree, key: Seq<char>) -> Option<u32> {
    match field(t, key) {
        None => Some(1),
        Some(Tree::Number(Number::Unsigned(n))) => if n <= u32::MAX { Some(n as u32) } else { None },
        _ => None,
    }
}

/// The hint under a name, where there is one; nothing where there is something else.
pub open spec fn hint_in(t: Tree, key: Seq<char>) -> Option<Option<Hint>> {
    match field(t, key) {
        None => Some(None),
        Some(Tree::Null) => Some(None),
        Some(Tree::Table(entries)) => {
            let h = Tree::Table(entries);
            match (text_or_none(h, "name"@), text_or_none(h, "description"@)) {
                (Some(name), Some(description)) => Some(Some(Hint { name, description })),
                _ => None,
            }
        },
        _ => None,
    }
}

/// The hints of a profile's hardware, of which there may be none; nothing where it is none.
pub open spec fn hints_in(t: Tree) -> Option<(Option<Hint>, Option<Hint>)> {
    match field(t, "hardware"@) {
        None => Some((None, None)),
        Some(Tree::Table(entries)) => {
            let h = Tree::Table(entries);
            match (hint_in(h, "ptt_port"@), hint_in(h, "ptt_device"@)) {
                (Some(port), Some(device)) => Some((port, device)),
                _ => None,
            }
        },
        _ => None,
    }
}

/// A dial, where a value is one.
pub open spec fn dial_in(t: Tree) -> Option<(u64, Seq<char>)> {
    if t is Table {
        match (field(t, "hz"@), text_or_none(t, "name"@)) {
            (Some(Tree::Number(Number::Unsigned(hz))), Some(name)) => Some((hz, name)),
            _ => None,
        }
    } else {
        None
    }
}

/// The dials the first `n` values are, where each is one.
pub open spec fn dials_in(s: Seq<Tree>, n: nat) -> Option<Seq<(u64, Seq<char>)>>
    decreases n,
{
    if n == 0 {
        Some(Seq::empty())
    } else {
        match (dials_in(s, (n - 1) as nat), dial_in(s[n - 1])) {
            (Some(before), Some(m)) => Some(before.push(m)),
            _ => None,
        }
    }
}

/// The dials of a profile, of which there may be none; nothing where they are none.
pub open spec fn memories_in(t: Tree) -> Option<Option<Seq<(u64, Seq<char>)>>> {
    match field(t, "memories"@) {
        None => Some(None),
        Some(Tree::Null) => Some(None),
        Some(Tree::List(s)) => match dials_in(s, s.len()) {
            Some(list) => Some(Some(list)),
            None => None,
        },
        _ => None,
    }
}

/// The profile a document's fields say, where each is what it is to be. A field that is not there
/// takes its default; one that a profile does not have is passed over.
pub open spec fn fields_in(t: Tree) -> Option<ProfileModel> {
    match (
        text_or_none(t, "format"@),
        schema_or_first(t, "schema"@),
        schema_or_first(t, "settings_schema"@),
        text_or_none(t, "aether_version"@),
        text_or_none(t, "name"@),
        text_or_none(t, "created"@),
        text_or_none(t, "modified"@),
        field(t, "settings"@),
        hints_in(t),
        memories_in(t),
    ) {
        (
            Some(format),
            Some(schema),
            Some(settings_schema),
            Some(aether_version),
            Some(name),
            Some(created),
            Some(modified),
            Some(settings),
            Some((ptt_port, ptt_device)),
            Some(memories),
        ) => Some(
            ProfileModel {
                format,
                schema,
                settings_schema,
                aether_version,
                name,
                created,
                modified,
                settings,
                ptt_port,
                ptt_device,
                memories,
            },
        ),
        _ => None,
    }
}

fn read_text(document: &Json, key: &str) -> (r: Option<String>)
    ensures
        match r {
            Some(s) => text_or_none(document@, key@) == Some(s@),
            None => text_or_none(document@, key@) is None,
        },
{
    match document.get(key) {
        None => Some("".to_owned()),
        Some(Json::Text(s)) => Some(s.clone()),
        _ => None,
    }
}

fn read_schema(document: &Json, key: &str) -> (r: Option<u32>)
    ensures
        r == schema_or_first(document@, key@),
{
    match document.get(key) {
        None => Some(1),
        Some(Json::Number(Number::Unsigned(n))) => if *n <= u32::MAX as u64 { Some(*n as u32) } else { None },
        _ => None,
    }
}

/// What a hint that was read is.
pub open spec fn read_hint_view(r: Option<Option<DeviceHint>>) -> Option<Option<Hint>> {
    match r {
        Some(h) => Some(hint_view(h)),
        None => None,
    }
}

fn read_hint(document: &Json, key: &str) -> (r: Option<Option<DeviceHint>>)
    ensures
        read_hint_view(r) == hint_in(document@, key@),
{
    let h = match document.get(key) {
        None => return Some(None),
        Some(h) => h,
    };
    match h {
        Json::Null => Some(None),
        Json::Table(_) => {
            match (read_text(h, "name"), read_text(h, "description")) {
                (Some(name), Some(description)) => Some(Some(DeviceHint { name, description })),
                _ => None,
            }
        },
        _ => None,
    }
}

fn read_hardware(document: &Json) -> (r: Option<Hardware>)
    ensures
        match r {
            Some(h) => hints_in(document@) == Some((hint_view(h.ptt_port), hint_view(h.ptt_device))),
            None => hints_in(document@) is None,
        },
{
    let h = match document.get("hardware") {
        None => return Some(Hardware { ptt_port: None, ptt_device: None }),
        Some(h) => h,
    };
    match h {
        Json::Table(_) => {
            match (read_hint(h, "ptt_port"), read_hint(h, "ptt_device")) {
                (Some(ptt_port), Some(ptt_device)) => Some(Hardware { ptt_port, ptt_device }),
                _ => None,
            }
        },
        _ => None,
    }
}

fn read_dial(t: &Json) -> (r: Option<Memory>)
    ensures
        match r {
            Some(m) => dial_in(t@) == Some((m.hz, m.name@)),
            None => dial_in(t@) is None,
        },
{
    match t {
        Json::Table(_) => {},
        _ => return None,
    }
    match (t.get("hz"), read_text(t, "name")) {
        (Some(Json::Number(Number::Unsigned(hz))), Some(name)) => Some(Memory { hz: *hz, name }),
        _ => None,
    }
}

proof fn lemma_no_dials(s: Seq<Tree>, n: nat, m: nat)
    requires
        n <= m,
        dials_in(s, n) is None,
    ensures
        dials_in(s, m) is None,
    decreases m,
{
    if n < m {
        lemma_no_dials(s, n, (m - 1) as nat);
    }
}

/// What dials that were read are.
pub open spec fn read_dials_view(r: Option<Option<Vec<Memory>>>) -> Option<Option<Seq<(u64, Seq<char>)>>> {
    match r {
        Some(m) => Some(memories_view(m)),
        None => None,
    }
}

fn read_memories(document: &Json) -> (r: Option<Option<Vec<Memory>>>)
    ensures
        read_dials_view(r) == memories_in(document@),
{
    let found = match document.get("memories") {
        None => return Some(None),
        Some(found) => found,
    };
    match found {
        Json::Null => Some(None),
        Json::List(list) => {
            let mut out: Vec<Memory> = Vec::new();
            let mut i: usize = 0;
            proof {
                lemma_trees(list@);
                assert(memory_views(out@) =~= Seq::empty());
            }
            while i < list.len()
                invariant
                    i <= list.len(),
                    trees_of(list@).len() == list@.len(),
                    forall|j: int| 0 <= j < list@.len() ==> #[trigger] trees_of(list@)[j] == tree_of(list@[j]),
                    field(document@, "memories"@) == Some(Tree::List(trees_of(list@))),
                    dials_in(trees_of(list@), i as nat) == Some(memory_views(out@)),
                decreases list.len() - i,
            {
                let ghost before = out@;
                match read_dial(&list[i]) {
                    Some(m) => {
                        out.push(m);
                        proof {
                            assert(memory_views(out@) =~= memory_views(before).push((m.hz, m.name@)));
                        }
                    },
                    None => {
                        proof {
                            lemma_no_dials(trees_of(list@), (i + 1) as nat, trees_of(list@).len());
                        }
                        return None;
                    },
                }
                i += 1;
            }
            Some(Some(out))
        },
        _ => None,
    }
}

impl Profile {
    /// The profile a document's fields say, where each is what it is to be.
    pub fn from_fields(document: &Json) -> (r: Option<Profile>)
        ensures
            match r {
                Some(p) => fields_in(document@) == Some(p@),
                None => fields_in(document@) is None,
            },
    {
        let settings = match document.get("settings") {
            Some(t) => t.clone(),
            None => return None,
        };
        let (schema, settings_schema) = match (
            read_schema(document, "schema"),
            read_schema(document, "settings_schema"),
        ) {
            (Some(a), Some(b)) => (a, b),
            _ => return None,
        };
        let (hardware, memories) = match (read_hardware(document), read_memories(document)) {
            (Some(h), Some(m)) => (h, m),
            _ => return None,
        };
        match (
            read_text(document, "format"),
            read_text(document, "aether_version"),
            read_text(document, "name"),
            read_text(document, "created"),
            read_text(document, "modified"),
        ) {
            (Some(format), Some(aether_version), Some(name), Some(created), Some(modified)) => Some(
                Profile {
                    format,
                    schema,
                    settings_schema,
                    aether_version,
                    name,
                    created,
                    modified,
                    settings,
                    hardware,
                    memories,
                },
            ),
            _ => None,
        }
    }

    /// The profile as its file holds it.
    pub fn to_document(&self) -> (r: Json)
        ensures
            r@ == stored(self@),
    {
        let mut all: Vec<(String, Json)> = Vec::new();
        proof {
            assert(entries_of(all@) =~= Seq::empty());
        }
        add_text(&mut all, "format", &self.format);
        add_whole(&mut all, "schema", self.schema as u64);
        add_whole(&mut all, "settings_schema", self.settings_schema as u64);
        add_text(&mut all, "aether_version", &self.aether_version);
        add_text(&mut all, "name", &self.name);
        add_text(&mut all, "created", &self.created);
        add_text(&mut all, "modified", &self.modified);
        proof {
            assert(entries_of(all@) == stored_envelope(self@));
        }
        add_value(&mut all, "settings", self.settings.clone());
        let mut hardware: Vec<(String, Json)> = Vec::new();
        proof {
            assert(entries_of(hardware@) =~= Seq::empty());
        }
        add_hint(&mut hardware, "ptt_port", &self.hardware.ptt_port);
        add_hint(&mut hardware, "ptt_device", &self.hardware.ptt_device);
        add_value(&mut all, "hardware", Json::Table(hardware));
        match &self.memories {
            Some(list) => add_value(&mut all, "memories", Json::List(dial_documents(list))),
            None => {},
        }
        Json::Table(all)
    }

    /// The profile's text.
    pub fn to_text(&self) -> (r: String)
        ensures
            r@ == profile_text(self@),
    {
        let mut text = self.to_document().write_lines("");
        text.append("\n");
        text
    }
}

fn add_value(all: &mut Vec<(String, Json)>, name: &str, value: Json)
    ensures
        entries_of(final(all)@) == entries_of(old(all)@).push((name@, value@)),
{
    let ghost before = all@;
    all.push((name.to_owned(), value));
    proof {
        assert(all@.drop_last() =~= before);
    }
}

fn add_text(all: &mut Vec<(String, Json)>, name: &str, s: &String)
    ensures
        entries_of(final(all)@) == entries_of(old(all)@).push(text_entry(name@, s@)),
{
    add_value(all, name, Json::Text(s.clone()));
}

fn add_whole(all: &mut Vec<(String, Json)>, name: &str, n: u64)
    ensures
        entries_of(final(all)@) == entries_of(old(all)@).push(whole_entry(name@, n)),
{
    add_value(all, name, Json::Number(Number::Unsigned(n)));
}

fn add_hint(all: &mut Vec<(String, Json)>, name: &str, h: &Option<DeviceHint>)
    ensures
        entries_of(final(all)@) == with_hint(entries_of(old(all)@), name@, hint_view(*h)),
{
    match h {
        Some(h) => {
            let mut hint: Vec<(String, Json)> = Vec::new();
            proof {
                assert(entries_of(hint@) =~= Seq::empty());
            }
            add_text(&mut hint, "name", &h.name);
            add_text(&mut hint, "description", &h.description);
            add_value(all, name, Json::Table(hint));
        },
        None => {},
    }
}

fn dial_documents(list: &Vec<Memory>) -> (r: Vec<Json>)
    ensures
        trees_of(r@) == stored_dials(memory_views(list@)),
{
    let mut out: Vec<Json> = Vec::new();
    let mut i: usize = 0;
    proof {
        assert(trees_of(out@) =~= stored_dials(memory_views(list@)).subrange(0, 0));
    }
    while i < list.len()
        invariant
            i <= list.len(),
            trees_of(out@) == stored_dials(memory_views(list@)).subrange(0, i as int),
        decreases list.len() - i,
    {
        let ghost before = out@;
        let mut dial: Vec<(String, Json)> = Vec::new();
        proof {
            assert(entries_of(dial@) =~= Seq::empty());
        }
        add_whole(&mut dial, "hz", list[i].hz);
        add_text(&mut dial, "name", &list[i].name);
        let document = Json::Table(dial);
        proof {
            assert(document@ == stored_dial((list@[i as int].hz, list@[i as int].name@)));
        }
        out.push(document);
        proof {
            let all = stored_dials(memory_views(list@));
            assert(out@.drop_last() =~= before);
            assert(all[i as int] == stored_dial((list@[i as int].hz, list@[i as int].name@)));
            assert(all.subrange(0, i + 1) =~= all.subrange(0, i as int).push(all[i as int]));
        }
        i += 1;
    }
    proof {
        let all = stored_dials(memory_views(list@));
        assert(all.subrange(0, i as int) =~= all);
    }
    out
}

} // verus!
