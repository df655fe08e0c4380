//! Profiles: a station's settings as one portable file.
//!
//! The configuration is what the daemon runs from. A profile is the *portable* part of it
//! (everything the settings registry, [`crate::settings`], does not mark as this computer's
//! wiring or a secret) under a name, with the dial memories beside it, so an operator can keep
//! one per radio or per place, go back to one, and carry one to another computer. Nothing here
//! is a list of fields: a profile is the configuration projected through the registry.
//!
//! Loading is transactional. The settings are applied to a *copy* of the running configuration
//! one at a time: a key this version does not have is reported and left out, a value that
//! fails its rule is reported and the default kept, a device this computer does not have is
//! reported and left as named. The whole is validated as the configuration file would be, and
//! only then committed.
//!
//! A configuration is a document here; reading one as the daemon's own structure, validating
//! it and bringing an older one forward are what the callers hand in.
use vstd::prelude::*;

use crate::json::{
    entries_of, field, find_key, lemma_entries, lemma_trees, lookup, put, put_entry, tree_of, tree_text,
    trees_of, Json, Number, Tree,
};
use crate::json::read::{document_view, json_value};
use crate::profile::file::{fields_in, profile_text};
use crate::profile::kept::{keeps, what_was_written_is_read_back};
use crate::settings::{
    breach, carried, descriptions, fits, is_portable, leaf_view, leaf_views, leaves, leaves_of, of_type, parts,
    put_path, schema, set_leaf, setting_views, shape_leaves, violation, with_keying, Setting, SettingModel,
};
use crate::text::{
    ascii_lowercase, begins, cat, chars_of, digits, holds_text, in_order, lemma_leading_is, lemma_trailing_is,
    lowercase, names, order_of, quote, quoted, same, starts_with, stripped, text_of, to_ascii_lower, to_lower,
    trim, trimmed, views, whole,
};

pub mod clean;
pub mod file;
pub mod kept;
pub mod laws;
pub mod shelf;

verus! {

/// What the `format` field of a profile says.
pub const FORMAT: &'static str = "aether-hf-profile";

/// The shape of the profile file this version writes: the envelope around the settings. The
/// settings inside carry the configuration file's own schema number; this number is for the
/// envelope's fields.
pub const SCHEMA: u32 = 1;

/// The file extension.
pub const EXTENSION: &'static str = "aetherprofile";

/// The most characters a name may have.
pub const NAME_CHARS: usize = 60;

/// The name the running configuration is adopted under on the first start with profiles.
pub const ADOPTED_NAME: &'static str = "Default";

/// A remembered dial.
#[derive(Clone, Debug)]
pub struct Memory {
    /// The dial, in hertz.
    pub hz: u64,
    /// The operator's name for it.
    pub name: String,
}

/// Where a serial port or a codec came from, so that another computer's can be told apart by
/// what is behind it rather than by the number the operating system gave it.
#[derive(Clone, PartialEq, Eq, Debug)]
pub struct DeviceHint {
    /// The name the configuration holds: `COM7`, a HID path.
    pub name: String,
    /// What the driver said was behind it when the profile was saved.
    pub description: String,
}

/// What a hint is.
pub struct Hint {
    pub name: Seq<char>,
    pub description: Seq<char>,
}

impl View for DeviceHint {
    type V = Hint;

    open spec fn view(&self) -> Hint {
        Hint { name: self.name@, description: self.description@ }
    }
}

/// What a hint that may be missing is.
pub open spec fn hint_view(h: Option<DeviceHint>) -> Option<Hint> {
    match h {
        Some(x) => Some(x@),
        None => None,
    }
}

/// What a run of hints is.
pub open spec fn hint_views(s: Seq<DeviceHint>) -> Seq<Hint> {
    s.map_values(|h: DeviceHint| h@)
}

/// What the profile remembers about the hardware beyond its names.
#[derive(Clone, PartialEq, Eq, Debug)]
pub struct Hardware {
    /// The keying port's description, for a serial or CAT port.
    pub ptt_port: Option<DeviceHint>,
    /// The CM108-class interface's name, for GPIO keying.
    pub ptt_device: Option<DeviceHint>,
}

/// A profile, as the file holds it.
#[derive(Debug)]
pub struct Profile {
    /// [`FORMAT`].
    pub format: String,
    /// [`SCHEMA`], as written.
    pub schema: u32,
    /// The configuration schema the settings are in, as written.
    pub settings_schema: u32,
    /// The version of the daemon that wrote it.
    pub aether_version: String,
    /// The operator's name for it.
    pub name: String,
    /// When it was first saved, RFC 3339.
    pub created: String,
    /// When it was last saved, RFC 3339.
    pub modified: String,
    /// The portable settings, in the configuration's own shape.
    pub settings: Json,
    /// What is known about the hardware beyond its names.
    pub hardware: Hardware,
    /// The remembered dials, when the profile carries them.
    pub memories: Option<Vec<Memory>>,
}

/// What a profile is.
pub struct ProfileModel {
    pub format: Seq<char>,
    pub schema: u32,
    pub settings_schema: u32,
    pub aether_version: Seq<char>,
    pub name: Seq<char>,
    pub created: Seq<char>,
    pub modified: Seq<char>,
    pub settings: Tree,
    pub ptt_port: Option<Hint>,
    pub ptt_device: Option<Hint>,
    pub memories: Option<Seq<(u64, Seq<char>)>>,
}

/// What a run of dials is.
pub open spec fn memory_views(s: Seq<Memory>) -> Seq<(u64, Seq<char>)> {
    s.map_values(|m: Memory| (m.hz, m.name@))
}

/// What dials that may be missing are.
pub open spec fn memories_view(m: Option<Vec<Memory>>) -> Option<Seq<(u64, Seq<char>)>> {
    match m {
        Some(v) => Some(memory_views(v@)),
        None => None,
    }
}

impl View for Profile {
    type V = ProfileModel;

    open spec fn view(&self) -> ProfileModel {
        ProfileModel {
            format: self.format@,
            schema: self.schema,
            settings_schema: self.settings_schema,
            aether_version: self.aether_version@,
            name: self.name@,
            created: self.created@,
            modified: self.modified@,
            settings: self.settings@,
            ptt_port: hint_view(self.hardware.ptt_port),
            ptt_device: hint_view(self.hardware.ptt_device),
            memories: memories_view(self.memories),
        }
    }
}

/// Why a profile could not be used.
#[derive(Clone, PartialEq, Eq, Debug)]
pub enum ProfileError {
    /// The text is not a profile at all.
    NotAProfile(String),
    /// A newer version wrote it and this one cannot read it faithfully.
    Newer(String),
    /// The settings as a whole would not run: what the configuration refused.
    Invalid(String),
    /// A file could not be read or written.
    Io(String),
    /// No profile has that id.
    NoSuchProfile(String),
    /// A profile already has that name.
    NameTaken(String),
    /// The name is empty or too long.
    BadName(String),
    /// There is nowhere to keep profiles: the daemon runs without a configuration file.
    NoDirectory,
}

/// What an error says.
pub enum Fault {
    NotAProfile(Seq<char>),
    Newer(Seq<char>),
    Invalid(Seq<char>),
    Io(Seq<char>),
    NoSuchProfile(Seq<char>),
    NameTaken(Seq<char>),
    BadName(Seq<char>),
    NoDirectory,
}

impl View for ProfileError {
    type V = Fault;

    open spec fn view(&self) -> Fault {
        match self {
            ProfileError::NotAProfile(s) => Fault::NotAProfile(s@),
            ProfileError::Newer(s) => Fault::Newer(s@),
            ProfileError::Invalid(s) => Fault::Invalid(s@),
            ProfileError::Io(s) => Fault::Io(s@),
            ProfileError::NoSuchProfile(s) => Fault::NoSuchProfile(s@),
            ProfileError::NameTaken(s) => Fault::NameTaken(s@),
            ProfileError::BadName(s) => Fault::BadName(s@),
            ProfileError::NoDirectory => Fault::NoDirectory,
        }
    }
}

/// An error as the operator reads it.
pub open spec fn fault_text(f: Fault) -> Seq<char> {
    match f {
        Fault::NotAProfile(detail) => "this is not an Aether HF profile: "@ + detail,
        Fault::Invalid(detail) => "the profile cannot be applied: "@ + detail,
        Fault::Newer(detail) => detail,
        Fault::Io(detail) => detail,
        Fault::BadName(detail) => detail,
        Fault::NoSuchProfile(id) => "there is no profile called "@ + quoted(id),
        Fault::NameTaken(name) => "a profile called "@ + quoted(name) + " already exists"@,
        Fault::NoDirectory =>
            "this daemon was started without a configuration file, so it has nowhere to keep profiles"@,
    }
}

impl ProfileError {
    /// The error as the operator reads it.
    pub fn text(&self) -> (r: String)
        ensures
            r@ == fault_text(self@),
    {
        match self {
            ProfileError::NotAProfile(detail) => cat("this is not an Aether HF profile: ", detail),
            ProfileError::Invalid(detail) => cat("the profile cannot be applied: ", detail),
            ProfileError::Newer(detail) => detail.clone(),
            ProfileError::Io(detail) => detail.clone(),
            ProfileError::BadName(detail) => detail.clone(),
            ProfileError::NoSuchProfile(id) => cat("there is no profile called ", &quote(id)),
            ProfileError::NameTaken(name) => {
                let mut s = cat("a profile called ", &quote(name));
                s.append(" already exists");
                s
            },
            ProfileError::NoDirectory =>
                "this daemon was started without a configuration file, so it has nowhere to keep profiles".to_owned(),
        }
    }
}

/// A text under a name in a document.
pub open spec fn text_field(t: Tree, key: Seq<char>) -> Option<Seq<char>> {
    match field(t, key) {
        Some(Tree::Text(s)) => Some(s),
        _ => None,
    }
}

fn text_at<'a>(value: &'a Json, key: &str) -> (r: Option<&'a String>)
    ensures
        match r {
            Some(s) => text_field(value@, key@) == Some(s@),
            None => text_field(value@, key@) is None,
        },
{
    match value.get(key) {
        Some(Json::Text(s)) => Some(s),
        _ => None,
    }
}

/// The values under a name in a document; none where there is no list.
pub open spec fn list_field(t: Tree, key: Seq<char>) -> Seq<Tree> {
    match field(t, key) {
        Some(Tree::List(s)) => s,
        _ => Seq::empty(),
    }
}

/// What this machine has, for checking a profile's devices against.
#[derive(Debug)]
pub struct Inventory {
    /// Capture device names.
    pub inputs: Vec<String>,
    /// Playback device names.
    pub outputs: Vec<String>,
    /// Serial ports, as name and description.
    pub serial_ports: Vec<DeviceHint>,
    /// CM108-class interfaces, as path and name.
    pub gpio_interfaces: Vec<DeviceHint>,
}

/// What an inventory is.
pub struct InventoryModel {
    pub inputs: Seq<Seq<char>>,
    pub outputs: Seq<Seq<char>>,
    pub serial_ports: Seq<Hint>,
    pub gpio_interfaces: Seq<Hint>,
}

impl View for Inventory {
    type V = InventoryModel;

    open spec fn view(&self) -> InventoryModel {
        InventoryModel {
            inputs: views(self.inputs@),
            outputs: views(self.outputs@),
            serial_ports: hint_views(self.serial_ports@),
            gpio_interfaces: hint_views(self.gpio_interfaces@),
        }
    }
}

/// The names of the first `n` devices that have a flag.
pub open spec fn flagged(list: Seq<Tree>, flag: Seq<char>, n: nat) -> Seq<Seq<char>>
    decreases n,
{
    if n == 0 {
        Seq::empty()
    } else {
        let before = flagged(list, flag, (n - 1) as nat);
        let device = list[n - 1];
        match text_field(device, "name"@) {
            Some(name) => if field(device, flag) == Some(Tree::Bool(true)) { before.push(name) } else { before },
            None => before,
        }
    }
}

/// The names and descriptions of the first `n` devices that have a name.
pub open spec fn described_devices(list: Seq<Tree>, name: Seq<char>, description: Seq<char>, n: nat) -> Seq<Hint>
    decreases n,
{
    if n == 0 {
        Seq::empty()
    } else {
        let before = described_devices(list, name, description, (n - 1) as nat);
        let device = list[n - 1];
        match text_field(device, name) {
            Some(s) => before.push(
                Hint {
                    name: s,
                    description: match text_field(device, description) {
                        Some(d) => d,
                        None => ""@,
                    },
                },
            ),
            None => before,
        }
    }
}

fn device_names(value: &Json, flag: &str) -> (r: Vec<String>)
    ensures
        views(r@) == flagged(list_field(value@, "devices"@), flag@, list_field(value@, "devices"@).len()),
{
    let mut out: Vec<String> = Vec::new();
    proof {
        assert(views(out@) =~= Seq::empty());
    }
    match value.get("devices") {
        Some(Json::List(list)) => {
            let ghost trees = trees_of(list@);
            let mut i: usize = 0;
            proof {
                lemma_trees(list@);
            }
            while i < list.len()
                invariant
                    i <= list.len(),
                    trees.len() == list@.len(),
                    forall|j: int| 0 <= j < list@.len() ==> #[trigger] trees[j] == tree_of(list@[j]),
                    views(out@) == flagged(trees, flag@, i as nat),
                decreases list.len() - i,
            {
                let ghost before = out@;
                proof {
                    assert(trees[i as int] == list@[i as int]@);
                }
                let has: bool = match list[i].get(flag) {
                    Some(Json::Bool(b)) => *b,
                    _ => false,
                };
                match text_at(&list[i], "name") {
                    Some(name) => {
                        if has {
                            out.push(name.clone());
                            proof {
                                assert(views(out@) =~= views(before).push(name@));
                            }
                        }
                    },
                    None => {},
                }
                i += 1;
            }
        },
        _ => {},
    }
    out
}

fn devices_with(value: &Json, key: &str, name: &str, description: &str) -> (r: Vec<DeviceHint>)
    ensures
        hint_views(r@) == described_devices(
            list_field(value@, key@),
            name@,
            description@,
            list_field(value@, key@).len(),
        ),
{
    let mut out: Vec<DeviceHint> = Vec::new();
    proof {
        assert(hint_views(out@) =~= Seq::empty());
    }
    match value.get(key) {
        Some(Json::List(list)) => {
            let ghost trees = trees_of(list@);
            let mut i: usize = 0;
            proof {
                lemma_trees(list@);
            }
            while i < list.len()
                invariant
                    i <= list.len(),
                    trees.len() == list@.len(),
                    forall|j: int| 0 <= j < list@.len() ==> #[trigger] trees[j] == tree_of(list@[j]),
                    hint_views(out@) == described_devices(trees, name@, description@, i as nat),
                decreases list.len() - i,
            {
                let ghost before = out@;
                proof {
                    assert(trees[i as int] == list@[i as int]@);
                }
                match text_at(&list[i], name) {
                    Some(s) => {
                        let d = match text_at(&list[i], description) {
                            Some(d) => d.clone(),
                            None => "".to_owned(),
                        };
                        let hint = DeviceHint { name: s.clone(), description: d };
                        out.push(hint);
                        proof {
                            assert(hint_views(out@) =~= hint_views(before).push(hint@));
                        }
                    },
                    None => {},
                }
                i += 1;
            }
        },
        _ => {},
    }
    out
}

impl InventoryModel {
    /// Whether nothing at all was reported.
    pub open spec fn says_nothing(self) -> bool {
        self.inputs.len() == 0 && self.outputs.len() == 0 && self.serial_ports.len() == 0 && self.gpio_interfaces.len()
            == 0
    }
}

impl Inventory {
    /// From the object `devices.list` answers with. An inventory that could not be taken is
    /// empty, and an empty inventory checks nothing.
    pub fn from_json(value: &Json) -> (r: Self)
        ensures
            r@ == (InventoryModel {
                inputs: flagged(list_field(value@, "devices"@), "input"@, list_field(value@, "devices"@).len()),
                outputs: flagged(list_field(value@, "devices"@), "output"@, list_field(value@, "devices"@).len()),
                serial_ports: described_devices(
                    list_field(value@, "serial_ports"@),
                    "name"@,
                    "description"@,
                    list_field(value@, "serial_ports"@).len(),
                ),
                gpio_interfaces: described_devices(
                    list_field(value@, "gpio_interfaces"@),
                    "path"@,
                    "name"@,
                    list_field(value@, "gpio_interfaces"@).len(),
                ),
            }),
    {
        Inventory {
            inputs: device_names(value, "input"),
            outputs: device_names(value, "output"),
            serial_ports: devices_with(value, "serial_ports", "name", "description"),
            gpio_interfaces: devices_with(value, "gpio_interfaces", "path", "name"),
        }
    }

    /// Whether nothing at all was reported: an empty inventory is a machine that could not be
    /// asked, and a check against it would call every device missing.
    pub fn is_empty(&self) -> (r: bool)
        ensures
            r == self@.says_nothing(),
    {
        self.inputs.len() == 0 && self.outputs.len() == 0 && self.serial_ports.len() == 0 && self.gpio_interfaces.len()
            == 0
    }
}

/// The carried leaves among the first `n`, each set where it belongs in a document.
pub open spec fn projected(all: Seq<(Seq<char>, Tree)>, n: nat) -> Tree
    decreases n,
{
    if n == 0 {
        Tree::Table(Seq::empty())
    } else {
        let before = projected(all, (n - 1) as nat);
        let leaf = all[n - 1];
        if carried(leaf.0) { put_path(before, parts(leaf.0), leaf.1) } else { before }
    }
}

/// The portable part of a configuration, in its own shape.
pub open spec fn portable_part(config: Tree) -> Tree {
    projected(leaves_of(""@, config), leaves_of(""@, config).len())
}

/// The portable part of a configuration, in its own shape.
pub fn portable(config: &Json) -> (r: Json)
    ensures
        r@ == portable_part(config@),
{
    let mut all: Vec<(String, Json)> = Vec::new();
    proof {
        assert(leaf_views(all@) =~= Seq::empty());
        assert(Seq::<(Seq<char>, Tree)>::empty() + leaves_of(""@, config@) =~= leaves_of(""@, config@));
    }
    leaves("", config, &mut all);
    let ghost s = leaf_views(all@);
    let mut out = Json::Table(Vec::new());
    let mut i: usize = 0;
    proof {
        assert(entries_of(Seq::<(String, Json)>::empty()) =~= Seq::empty());
    }
    while i < all.len()
        invariant
            i <= all.len(),
            s == leaf_views(all@),
            out@ == projected(s, i as nat),
        decreases all.len() - i,
    {
        proof {
            assert(s[i as int] == leaf_view(all@[i as int]));
        }
        if is_portable(&all[i].0) {
            set_leaf(&mut out, &all[i].0, all[i].1.clone());
        }
        i += 1;
    }
    out
}

/// A document without the unset values: a null setting is an absent one.
pub open spec fn without_nulls(t: Tree) -> Tree
    decreases t,
{
    match t {
        Tree::Table(entries) => Tree::Table(kept_entries(entries)),
        _ => t,
    }
}

/// Named values without the unset ones.
pub open spec fn kept_entries(entries: Seq<(Seq<char>, Tree)>) -> Seq<(Seq<char>, Tree)>
    decreases entries,
{
    if entries.len() == 0 {
        Seq::empty()
    } else {
        let before = kept_entries(entries.drop_last());
        if entries.last().1 is Null {
            before
        } else {
            before.push((entries.last().0, without_nulls(entries.last().1)))
        }
    }
}

/// A document without the unset values: the configuration file has no null, and a null setting
/// is an unset one, which is the same as an absent one.
pub fn strip_nulls(value: &Json) -> (r: Json)
    ensures
        r@ == without_nulls(value@),
    decreases value,
{
    match value {
        Json::Table(entries) => {
            let mut out: Vec<(String, Json)> = Vec::new();
            let mut i: usize = 0;
            proof {
                lemma_entries(entries@);
                assert(entries_of(entries@).subrange(0, 0) =~= Seq::empty());
            }
            while i < entries.len()
                invariant
                    i <= entries.len(),
                    *value == Json::Table(*entries),
                    entries_of(entries@).len() == entries@.len(),
                    forall|j: int|
                        0 <= j < entries@.len() ==> #[trigger] entries_of(entries@)[j] == (
                            entries@[j].0@,
                            tree_of(entries@[j].1),
                        ),
                    entries_of(out@) == kept_entries(entries_of(entries@).subrange(0, i as int)),
                decreases entries.len() - i,
            {
                proof {
                    assert(decreases_to!(*value => value->Table_0));
                    assert(decreases_to!(*entries => entries@));
                    assert(decreases_to!(entries@ => entries@[i as int]));
                    assert(decreases_to!(entries@[i as int] => entries@[i as int].1));
                    let next = entries_of(entries@).subrange(0, i + 1);
                    assert(next.drop_last() =~= entries_of(entries@).subrange(0, i as int));
                    assert(next.last() == (entries@[i as int].0@, tree_of(entries@[i as int].1)));
                }
                let unset: bool = match &entries[i].1 {
                    Json::Null => true,
                    _ => false,
                };
                if !unset {
                    let inner = strip_nulls(&entries[i].1);
                    let ghost before = out@;
                    out.push((entries[i].0.clone(), inner));
                    proof {
                        assert(out@.drop_last() =~= before);
                    }
                }
                i += 1;
            }
            proof {
                assert(entries_of(entries@).subrange(0, i as int) =~= entries_of(entries@));
            }
            Json::Table(out)
        },
        other => other.clone(),
    }
}

/// What a configuration keys the radio through.
pub enum Keyed {
    /// A serial port, for a control line or for CAT.
    Port(Seq<char>),
    /// A GPIO interface.
    Device(Seq<char>),
    /// Nothing that has a name on this computer.
    Nothing,
}

/// The keying section of a configuration.
pub open spec fn keying_section(config: Tree) -> Tree {
    match field(config, "ptt"@) {
        Some(t) => t,
        None => Tree::Null,
    }
}

/// What a configuration keys the radio through.
pub open spec fn keyed_by(config: Tree) -> Keyed {
    let section = keying_section(config);
    match text_field(section, "kind"@) {
        Some(kind) => if kind == "serial"@ || kind == "cat"@ {
            match text_field(section, "port"@) {
                Some(port) => Keyed::Port(port),
                None => Keyed::Nothing,
            }
        } else if kind == "cm108"@ {
            match text_field(section, "device"@) {
                Some(path) => Keyed::Device(path),
                None => Keyed::Nothing,
            }
        } else {
            Keyed::Nothing
        },
        None => Keyed::Nothing,
    }
}

/// What a configuration keys the radio through, by name.
#[derive(Debug)]
pub enum KeyedBy {
    /// A serial port.
    Port(String),
    /// A GPIO interface.
    Device(String),
    /// Nothing that has a name on this computer.
    Nothing,
}

impl View for KeyedBy {
    type V = Keyed;

    open spec fn view(&self) -> Keyed {
        match self {
            KeyedBy::Port(s) => Keyed::Port(s@),
            KeyedBy::Device(s) => Keyed::Device(s@),
            KeyedBy::Nothing => Keyed::Nothing,
        }
    }
}

/// What a configuration keys the radio through.
pub fn keying_device(config: &Json) -> (r: KeyedBy)
    ensures
        r@ == keyed_by(config@),
{
    let section = match config.get("ptt") {
        Some(t) => t,
        None => return KeyedBy::Nothing,
    };
    match text_at(section, "kind") {
        Some(kind) => if same(kind, "serial") || same(kind, "cat") {
            match text_at(section, "port") {
                Some(port) => KeyedBy::Port(port.clone()),
                None => KeyedBy::Nothing,
            }
        } else if same(kind, "cm108") {
            match text_at(section, "device") {
                Some(path) => KeyedBy::Device(path.clone()),
                None => KeyedBy::Nothing,
            }
        } else {
            KeyedBy::Nothing
        },
        None => KeyedBy::Nothing,
    }
}

/// What is behind a device, from the first of that name on; nothing known where none has it.
pub open spec fn behind(list: Seq<Hint>, name: Seq<char>, from: nat) -> Seq<char>
    decreases list.len() - from,
{
    if from >= list.len() {
        ""@
    } else if list[from as int].name == name {
        list[from as int].description
    } else {
        behind(list, name, from + 1)
    }
}

fn description_of(list: &Vec<DeviceHint>, name: &str) -> (r: String)
    ensures
        r@ == behind(hint_views(list@), name@, 0),
{
    let ghost s = hint_views(list@);
    let mut i: usize = 0;
    while i < list.len()
        invariant
            i <= list.len(),
            s == hint_views(list@),
            behind(s, name@, 0) == behind(s, name@, i as nat),
        decreases list.len() - i,
    {
        proof {
            assert(s[i as int] == list@[i as int]@);
        }
        if same(&list[i].name, name) {
            return list[i].description.clone();
        }
        i += 1;
    }
    "".to_owned()
}

/// What an inventory that may not have been taken is.
pub open spec fn inventory_view(i: Option<&Inventory>) -> Option<InventoryModel> {
    match i {
        Some(x) => Some(x@),
        None => None,
    }
}

/// What is known about the keying port of a configuration.
pub open spec fn port_hint(config: Tree, inventory: Option<InventoryModel>) -> Option<Hint> {
    match keyed_by(config) {
        Keyed::Port(name) => Some(
            Hint {
                name,
                description: match inventory {
                    Some(i) => behind(i.serial_ports, name, 0),
                    None => ""@,
                },
            },
        ),
        _ => None,
    }
}

/// What is known about the keying interface of a configuration.
pub open spec fn device_hint(config: Tree, inventory: Option<InventoryModel>) -> Option<Hint> {
    match keyed_by(config) {
        Keyed::Device(name) => Some(
            Hint {
                name,
                description: match inventory {
                    Some(i) => behind(i.gpio_interfaces, name, 0),
                    None => ""@,
                },
            },
        ),
        _ => None,
    }
}

fn clone_memories(list: &Vec<Memory>) -> (r: Vec<Memory>)
    ensures
        memory_views(r@) == memory_views(list@),
{
    let mut out: Vec<Memory> = Vec::new();
    let mut i: usize = 0;
    while i < list.len()
        invariant
            i <= list.len(),
            memory_views(out@) == memory_views(list@).subrange(0, i as int),
        decreases list.len() - i,
    {
        let ghost before = out@;
        out.push(Memory { hz: list[i].hz, name: list[i].name.clone() });
        proof {
            assert(memory_views(out@) =~= memory_views(before).push((list@[i as int].hz, list@[i as int].name@)));
            assert(memory_views(list@).subrange(0, i + 1) =~= memory_views(list@).subrange(0, i as int).push(
                memory_views(list@)[i as int],
            ));
        }
        i += 1;
    }
    proof {
        assert(memory_views(list@).subrange(0, i as int) =~= memory_views(list@));
    }
    out
}

/// A profile of a configuration as it stands.
pub open spec fn captured(
    name: Seq<char>,
    config: Tree,
    settings_schema: u32,
    version: Seq<char>,
    memories: Seq<(u64, Seq<char>)>,
    inventory: Option<InventoryModel>,
    now: Seq<char>,
) -> ProfileModel {
    ProfileModel {
        format: FORMAT@,
        schema: SCHEMA,
        settings_schema,
        aether_version: version,
        name: trimmed(name),
        created: now,
        modified: now,
        settings: portable_part(config),
        ptt_port: port_hint(config, inventory),
        ptt_device: device_hint(config, inventory),
        memories: Some(memories),
    }
}

/// The configuration a new profile is of: the defaults, with the callsign and the operator's
/// details of the running one.
pub open spec fn fresh_config(identity: Tree, plain: Tree) -> Tree {
    let called = match field(identity, "callsign"@) {
        Some(t) => put_path(plain, parts("callsign"@), t),
        None => plain,
    };
    match field(identity, "operator"@) {
        Some(t) => put_path(called, parts("operator"@), t),
        None => called,
    }
}

/// What a profile was read as.
#[derive(Debug)]
pub enum Parsed {
    /// A profile whose settings are in the running schema.
    Whole(Profile),
    /// A profile of an older schema, with its settings, unset ones left out, for the
    /// configuration file's own migrations.
    Older(Profile, Json),
}

/// What a profile was read as.
pub enum Reading {
    Whole(ProfileModel),
    Older(ProfileModel, Tree),
}

impl View for Parsed {
    type V = Reading;

    open spec fn view(&self) -> Reading {
        match self {
            Parsed::Whole(p) => Reading::Whole(p@),
            Parsed::Older(p, settings) => Reading::Older(p@, settings@),
        }
    }
}

/// The schema a number in the envelope says: one that is no whole number, or too large, is
/// newer than anything.
pub open spec fn schema_number(n: Number) -> u32 {
    match n {
        Number::Unsigned(v) => if v <= u32::MAX { v as u32 } else { u32::MAX },
        _ => u32::MAX,
    }
}

/// What is wrong with an envelope, if anything is.
pub open spec fn envelope_fault(t: Tree) -> Option<Fault> {
    if !(t is Table) {
        Some(Fault::NotAProfile("the file is not a JSON object"@))
    } else {
        match text_field(t, "format"@) {
            None => Some(Fault::NotAProfile("it does not say it is one (no \"format\" field)"@)),
            Some(other) => if other != FORMAT@ {
                Some(Fault::NotAProfile("its format is "@ + quoted(other) + ", not "@ + quoted(FORMAT@)))
            } else {
                match field(t, "schema"@) {
                    None => None,
                    Some(Tree::Number(n)) => if schema_number(n) > SCHEMA {
                        Some(
                            Fault::Newer(
                                "this profile was written by a newer Aether HF (profile schema "@ + digits(
                                    schema_number(n) as nat,
                                ) + "; this version reads up to "@ + digits(SCHEMA as nat)
                                    + "). Install that version to use it."@,
                            ),
                        )
                    } else {
                        None
                    },
                    Some(other) => Some(
                        Fault::NotAProfile("its schema is "@ + tree_text(other) + ", not a number"@),
                    ),
                }
            },
        }
    }
}

/// What is wrong with the fields of a profile, where the running configuration is of schema
/// `current`.
pub open spec fn settings_fault(p: ProfileModel, current: u32) -> Option<Fault> {
    if !(p.settings is Table) {
        Some(Fault::NotAProfile("its \"settings\" are not an object"@))
    } else if p.settings_schema > current {
        Some(
            Fault::Newer(
                "this profile's settings were written by a newer Aether HF (configuration schema "@ + digits(
                    p.settings_schema as nat,
                ) + "; this version reads up to "@ + digits(current as nat) + "). Install that version to use it."@,
            ),
        )
    } else {
        None
    }
}

/// What a profile's file is read as: `document` what the file holds, or why it is no document,
/// `fields` what its fields say where they are not plainly a profile's, or why they say nothing.
pub open spec fn parsed(
    document: Result<Tree, Seq<char>>,
    fields: Result<ProfileModel, Seq<char>>,
    current: u32,
) -> Result<Reading, Fault> {
    match document {
        Err(e) => Err(Fault::NotAProfile("not valid JSON ("@ + e + ")"@)),
        Ok(t) => match envelope_fault(t) {
            Some(f) => Err(f),
            None => match fields_said(t, fields) {
                Err(e) => Err(Fault::NotAProfile(e)),
                Ok(p) => match settings_fault(p, current) {
                    Some(f) => Err(f),
                    None => {
                        let named = ProfileModel { name: trimmed(p.name), ..p };
                        if p.settings_schema < current {
                            Ok(Reading::Older(named, without_nulls(p.settings)))
                        } else {
                            Ok(Reading::Whole(named))
                        }
                    },
                },
            },
        },
    }
}

/// The profile a document's fields say.
pub open spec fn fields_said(t: Tree, otherwise: Result<ProfileModel, Seq<char>>) -> Result<ProfileModel, Seq<char>> {
    match fields_in(t) {
        Some(p) => Ok(p),
        None => otherwise,
    }
}

/// What a profile that may not be one is.
pub open spec fn fields_view(d: Result<Profile, String>) -> Result<ProfileModel, Seq<char>> {
    match d {
        Ok(p) => Ok(p@),
        Err(e) => Err(e@),
    }
}

/// What a reading that may have failed is.
pub open spec fn parsed_view(d: Result<Parsed, ProfileError>) -> Result<Reading, Fault> {
    match d {
        Ok(p) => Ok(p@),
        Err(e) => Err(e@),
    }
}

fn newer(head: &str, schema: u32, reads: u32) -> (r: ProfileError)
    ensures
        r@ == Fault::Newer(
            head@ + digits(schema as nat) + "; this version reads up to "@ + digits(reads as nat)
                + "). Install that version to use it."@,
        ),
{
    let mut s = cat(head, &whole(schema as u128));
    s.append("; this version reads up to ");
    s.append(&whole(reads as u128));
    s.append("). Install that version to use it.");
    ProfileError::Newer(s)
}

fn not_a_profile(detail: &str) -> (r: ProfileError)
    ensures
        r@ == Fault::NotAProfile(detail@),
{
    ProfileError::NotAProfile(detail.to_owned())
}

fn check_envelope(document: &Json) -> (r: Result<(), ProfileError>)
    ensures
        match r {
            Ok(_) => envelope_fault(document@) is None,
            Err(e) => envelope_fault(document@) == Some(e@),
        },
{
    match document {
        Json::Table(_) => {},
        _ => return Err(not_a_profile("the file is not a JSON object")),
    }
    match text_at(document, "format") {
        None => return Err(not_a_profile("it does not say it is one (no \"format\" field)")),
        Some(other) => {
            if !same(other, FORMAT) {
                let mut s = cat("its format is ", &quote(other));
                s.append(", not ");
                s.append(&quote(FORMAT));
                return Err(ProfileError::NotAProfile(s));
            }
        },
    }
    match document.get("schema") {
        None => Ok(()),
        Some(Json::Number(n)) => {
            let schema: u32 = match n {
                Number::Unsigned(v) => if *v <= u32::MAX as u64 { *v as u32 } else { u32::MAX },
                _ => u32::MAX,
            };
            if schema > SCHEMA {
                return Err(newer("this profile was written by a newer Aether HF (profile schema ", schema, SCHEMA));
            }
            Ok(())
        },
        Some(other) => {
            let mut s = cat("its schema is ", &other.write());
            s.append(", not a number");
            Err(ProfileError::NotAProfile(s))
        },
    }
}

/// Named values without those of a name.
pub open spec fn removed(entries: Seq<(Seq<char>, Tree)>, key: Seq<char>) -> Seq<(Seq<char>, Tree)>
    decreases entries.len(),
{
    if entries.len() == 0 {
        entries
    } else {
        let before = removed(entries.drop_last(), key);
        if entries.last().0 == key { before } else { before.push(entries.last()) }
    }
}

/// A document without the values of a name.
pub open spec fn without(t: Tree, key: Seq<char>) -> Tree {
    match t {
        Tree::Table(entries) => Tree::Table(removed(entries, key)),
        _ => t,
    }
}

fn leave_out(value: &Json, key: &str) -> (r: Json)
    ensures
        r@ == without(value@, key@),
{
    match value {
        Json::Table(entries) => {
            let mut out: Vec<(String, Json)> = Vec::new();
            let mut i: usize = 0;
            proof {
                lemma_entries(entries@);
                assert(entries_of(entries@).subrange(0, 0) =~= Seq::empty());
            }
            while i < entries.len()
                invariant
                    i <= entries.len(),
                    entries_of(entries@).len() == entries@.len(),
                    forall|j: int|
                        0 <= j < entries@.len() ==> #[trigger] entries_of(entries@)[j] == (
                            entries@[j].0@,
                            tree_of(entries@[j].1),
                        ),
                    entries_of(out@) == removed(entries_of(entries@).subrange(0, i as int), key@),
                decreases entries.len() - i,
            {
                proof {
                    let next = entries_of(entries@).subrange(0, i + 1);
                    assert(next.drop_last() =~= entries_of(entries@).subrange(0, i as int));
                    assert(next.last() == (entries@[i as int].0@, tree_of(entries@[i as int].1)));
                }
                if !same(&entries[i].0, key) {
                    let ghost before = out@;
                    out.push((entries[i].0.clone(), entries[i].1.clone()));
                    proof {
                        assert(out@.drop_last() =~= before);
                    }
                }
                i += 1;
            }
            proof {
                assert(entries_of(entries@).subrange(0, i as int) =~= entries_of(entries@));
            }
            Json::Table(out)
        },
        other => other.clone(),
    }
}

impl Profile {
    /// A profile of a configuration as it stands.
    ///
    /// The inventory, when given, is where the keying port's description comes from (what the
    /// driver says is behind it), so a load on another computer can suggest the port with the
    /// same thing behind it.
    pub fn capture(
        name: &str,
        config: &Json,
        settings_schema: u32,
        version: &str,
        memories: &Vec<Memory>,
        inventory: Option<&Inventory>,
        now: &str,
    ) -> (r: Self)
        ensures
            r@ == captured(
                name@,
                config@,
                settings_schema,
                version@,
                memory_views(memories@),
                inventory_view(inventory),
                now@,
            ),
    {
        let hardware = match keying_device(config) {
            KeyedBy::Port(port) => {
                let description = match inventory {
                    Some(i) => description_of(&i.serial_ports, &port),
                    None => "".to_owned(),
                };
                Hardware { ptt_port: Some(DeviceHint { name: port, description }), ptt_device: None }
            },
            KeyedBy::Device(path) => {
                let description = match inventory {
                    Some(i) => description_of(&i.gpio_interfaces, &path),
                    None => "".to_owned(),
                };
                Hardware { ptt_port: None, ptt_device: Some(DeviceHint { name: path, description }) }
            },
            KeyedBy::Nothing => Hardware { ptt_port: None, ptt_device: None },
        };
        Profile {
            format: FORMAT.to_owned(),
            schema: SCHEMA,
            settings_schema,
            aether_version: version.to_owned(),
            name: trim(name),
            created: now.to_owned(),
            modified: now.to_owned(),
            settings: portable(config),
            hardware,
            memories: Some(clone_memories(memories)),
        }
    }

    /// A profile of the defaults, keeping only who the station is: its callsign and the
    /// operator's details. What *New profile* makes. `plain` is the configuration of the
    /// defaults and `dials` the list a new station starts with.
    pub fn fresh(
        name: &str,
        identity: &Json,
        plain: &Json,
        settings_schema: u32,
        version: &str,
        dials: &Vec<Memory>,
        now: &str,
    ) -> (r: Self)
        ensures
            r@ == captured(
                name@,
                fresh_config(identity@, plain@),
                settings_schema,
                version@,
                memory_views(dials@),
                None,
                now@,
            ),
    {
        let mut config = plain.clone();
        match identity.get("callsign") {
            Some(t) => set_leaf(&mut config, "callsign", t.clone()),
            None => {},
        }
        match identity.get("operator") {
            Some(t) => set_leaf(&mut config, "operator", t.clone()),
            None => {},
        }
        Profile::capture(name, &config, settings_schema, version, dials, None, now)
    }

    /// Read a profile from its text: `fields` is what its fields say where they are not plainly a
    /// profile's, or the reason where they say nothing; `current` is the schema of the running
    /// configuration. An older profile comes with its settings to be brought forward, for
    /// [`Profile::migrate_settings`]. What [`Profile::to_text`] wrote is read back as it was.
    pub fn parse(text: &str, fields: Result<Profile, String>, current: u32) -> (r: Result<Parsed, ProfileError>)
        ensures
            parsed_view(r) == parsed(json_value(text@), fields_view(fields), current),
            forall|p: ProfileModel|
                text@ == #[trigger] profile_text(p) && keeps(p, current) ==> parsed_view(r) == Ok::<Reading, Fault>(
                    Reading::Whole(p),
                ),
    {
        let document = Json::parse(text);
        proof {
            assert forall|p: ProfileModel| text@ == #[trigger] profile_text(p) && keeps(p, current) implies parsed(
                document_view(document),
                fields_view(fields),
                current,
            ) == Ok::<Reading, Fault>(Reading::Whole(p)) by {
                what_was_written_is_read_back(p, document_view(document), fields_view(fields), current);
            }
        }
        Profile::from_document(&document, fields, current)
    }

    /// Read a profile from its document, or the reason where its text is none.
    pub fn from_document(document: &Result<Json, String>, fields: Result<Profile, String>, current: u32) -> (r: Result<
        Parsed,
        ProfileError,
    >)
        ensures
            parsed_view(r) == parsed(document_view(*document), fields_view(fields), current),
    {
        let document = match document {
            Ok(d) => d,
            Err(e) => {
                let mut s = cat("not valid JSON (", e);
                s.append(")");
                return Err(ProfileError::NotAProfile(s));
            },
        };
        match check_envelope(document) {
            Ok(_) => {},
            Err(e) => return Err(e),
        }
        let mut profile = match (Profile::from_fields(document), fields) {
            (Some(p), _) => p,
            (None, Ok(p)) => p,
            (None, Err(e)) => return Err(ProfileError::NotAProfile(e)),
        };
        match &profile.settings {
            Json::Table(_) => {},
            _ => return Err(not_a_profile("its \"settings\" are not an object")),
        }
        if profile.settings_schema > current {
            return Err(
                newer(
                    "this profile's settings were written by a newer Aether HF (configuration schema ",
                    profile.settings_schema,
                    current,
                ),
            );
        }
        profile.name = trim(&profile.name);
        if profile.settings_schema < current {
            let settings = strip_nulls(&profile.settings);
            Ok(Parsed::Older(profile, settings))
        } else {
            Ok(Parsed::Whole(profile))
        }
    }

    /// Take the settings as the configuration file's own migrations brought them forward, with
    /// the schema they reached.
    pub fn migrate_settings(&mut self, migrated: Result<(Json, u32), String>) -> (r: Result<(), ProfileError>)
        ensures
            match migrated {
                Ok((settings, reached)) => r is Ok && final(self)@ == (ProfileModel {
                    settings: without(settings@, "schema_version"@),
                    settings_schema: reached,
                    ..old(self)@
                }),
                Err(e) => (r matches Err(x) && x@ == Fault::NotAProfile("its settings cannot be read: "@ + e@))
                    && final(self)@ == old(self)@,
            },
    {
        match migrated {
            Ok((settings, reached)) => {
                self.settings = leave_out(&settings, "schema_version");
                self.settings_schema = reached;
                Ok(())
            },
            Err(e) => Err(ProfileError::NotAProfile(cat("its settings cannot be read: ", &e))),
        }
    }
}

/// A device the profile names and this computer does not have.
#[derive(Clone, PartialEq, Eq, Debug)]
pub struct MissingHardware {
    /// Which setting: `audio.input`, `ptt.port`.
    pub key: String,
    /// What the profile named.
    pub name: String,
    /// A device of this computer with the same description, when there is exactly one:
    /// offered, never chosen.
    pub suggestion: Option<String>,
}

/// What a missing device is.
pub struct Missing {
    pub key: Seq<char>,
    pub name: Seq<char>,
    pub suggestion: Option<Seq<char>>,
}

/// What a text that may be missing is.
pub open spec fn text_view(s: Option<String>) -> Option<Seq<char>> {
    match s {
        Some(x) => Some(x@),
        None => None,
    }
}

impl View for MissingHardware {
    type V = Missing;

    open spec fn view(&self) -> Missing {
        Missing { key: self.key@, name: self.name@, suggestion: text_view(self.suggestion) }
    }
}

/// What a run of missing devices is.
pub open spec fn missing_views(s: Seq<MissingHardware>) -> Seq<Missing> {
    s.map_values(|m: MissingHardware| m@)
}

/// A value the profile carried that was not taken.
#[derive(Debug)]
pub struct Rejected {
    /// Which setting.
    pub key: String,
    /// What the profile said.
    pub value: Json,
    /// Why it was not taken.
    pub reason: String,
}

/// What a rejected value is.
pub struct Refusal {
    pub key: Seq<char>,
    pub value: Tree,
    pub reason: Seq<char>,
}

impl View for Rejected {
    type V = Refusal;

    open spec fn view(&self) -> Refusal {
        Refusal { key: self.key@, value: self.value@, reason: self.reason@ }
    }
}

/// What a run of rejected values is.
pub open spec fn rejected_views(s: Seq<Rejected>) -> Seq<Refusal> {
    s.map_values(|x: Rejected| x@)
}

/// What a profile's settings were sorted into.
#[derive(Debug)]
pub struct Sorted {
    /// The configuration with the settings that were taken.
    pub document: Json,
    /// Settings this version does not have.
    pub unknown: Vec<String>,
    /// Settings the file carried that a profile does not.
    pub ignored: Vec<String>,
    /// Values that failed their rule.
    pub invalid: Vec<Rejected>,
}

/// How far the sorting of a profile's settings has come.
pub struct Sorting {
    /// The configuration so far.
    pub document: Tree,
    /// The keying section so far.
    pub keying: Seq<(Seq<char>, Tree)>,
    /// Settings this version does not have.
    pub unknown: Seq<Seq<char>>,
    /// Settings the file carried that a profile does not.
    pub ignored: Seq<Seq<char>>,
    /// Values that failed their rule.
    pub invalid: Seq<Refusal>,
}

/// A document with the first `n` settings at their defaults, those that travel: the keying
/// section is one kind at a time and is rebuilt from what the profile says.
pub open spec fn at_defaults(document: Tree, known: Seq<SettingModel>, n: nat) -> Tree
    decreases n,
{
    if n == 0 {
        document
    } else {
        let before = at_defaults(document, known, (n - 1) as nat);
        let s = known[n - 1];
        if s.rule.scope.travels() && !begins(s.key, "ptt."@) {
            put_path(before, parts(s.key), s.default)
        } else {
            before
        }
    }
}

/// The first setting of a key, from `from` on.
pub open spec fn first_setting(known: Seq<SettingModel>, key: Seq<char>, from: nat) -> nat
    decreases known.len() - from,
{
    if from >= known.len() || known[from as int].key == key { from } else { first_setting(known, key, from + 1) }
}

/// A type with its article, for a sentence.
pub open spec fn type_phrase(kind: Seq<char>) -> Seq<char> {
    if kind == "boolean"@ {
        "true or false"@
    } else if kind == "integer"@ {
        "whole number"@
    } else if kind == "number"@ {
        "number"@
    } else {
        "text"@
    }
}

/// Why a value of a setting is not taken, if it is not.
pub open spec fn objection(key: Seq<char>, value: Tree, kind: Seq<char>) -> Option<Seq<char>> {
    if !of_type(key, value, kind) {
        Some(key + " must be a "@ + type_phrase(kind) + ", not "@ + tree_text(value))
    } else {
        breach(key, value)
    }
}

/// One of a profile's values taken, or set aside with the reason.
pub open spec fn sorted_one(known: Seq<SettingModel>, so_far: Sorting, leaf: (Seq<char>, Tree)) -> Sorting {
    let (key, value) = leaf;
    let at = first_setting(known, key, 0);
    if at >= known.len() {
        Sorting { unknown: so_far.unknown.push(key), ..so_far }
    } else if !known[at as int].rule.scope.travels() {
        Sorting { ignored: so_far.ignored.push(key), ..so_far }
    } else {
        match objection(key, value, known[at as int].type_) {
            Some(reason) => Sorting { invalid: so_far.invalid.push(Refusal { key, value, reason }), ..so_far },
            None => if begins(key, "ptt."@) {
                Sorting { keying: put(so_far.keying, key.subrange(4, key.len() as int), value), ..so_far }
            } else {
                Sorting { document: put_path(so_far.document, parts(key), value), ..so_far }
            },
        }
    }
}

/// The first `n` of a profile's values, each taken or set aside.
pub open spec fn sorted_many(
    known: Seq<SettingModel>,
    document: Tree,
    all: Seq<(Seq<char>, Tree)>,
    n: nat,
) -> Sorting
    decreases n,
{
    if n == 0 {
        Sorting {
            document: at_defaults(document, known, known.len()),
            keying: Seq::empty(),
            unknown: Seq::empty(),
            ignored: Seq::empty(),
            invalid: Seq::empty(),
        }
    } else {
        sorted_one(known, sorted_many(known, document, all, (n - 1) as nat), all[n - 1])
    }
}

/// The keying fields of a profile that names no kind for them to belong to, the first `n`.
pub open spec fn stray(keying: Seq<(Seq<char>, Tree)>, n: nat) -> Seq<Refusal>
    decreases n,
{
    if n == 0 {
        Seq::empty()
    } else {
        stray(keying, (n - 1) as nat).push(
            Refusal {
                key: "ptt."@ + keying[n - 1].0,
                value: keying[n - 1].1,
                reason: "the profile names no keying kind for it to belong to"@,
            },
        )
    }
}

/// The sorting with the keying section set: the kind decides which fields there are, so
/// without a kind the fields have nothing to hang on, and the station keys nothing until told.
pub open spec fn keying_set(s: Sorting) -> Sorting {
    if lookup(s.keying, "kind"@) is Some {
        Sorting { document: put_path(s.document, parts("ptt"@), Tree::Table(s.keying)), ..s }
    } else {
        Sorting {
            document: put_path(s.document, parts("ptt"@), Tree::Table(seq![("kind"@, Tree::Text("none"@))])),
            invalid: s.invalid + stray(s.keying, s.keying.len()),
            ..s
        }
    }
}

/// The settings there are, as the defaults describe them.
pub open spec fn known_settings(plain: Tree) -> Seq<SettingModel> {
    descriptions(with_keying(leaves_of(""@, plain)), Seq::empty(), shape_leaves().len())
}

/// What a profile's settings are sorted into over a running configuration, where `plain` is
/// the configuration of the defaults.
pub open spec fn sorted_settings(settings: Tree, running: Tree, plain: Tree) -> Sorting {
    let all = leaves_of(""@, settings);
    keying_set(sorted_many(known_settings(plain), running, all, all.len()))
}

fn type_words(kind: &str) -> (r: &'static str)
    ensures
        r@ == type_phrase(kind@),
{
    if same(kind, "boolean") {
        "true or false"
    } else if same(kind, "integer") {
        "whole number"
    } else if same(kind, "number") {
        "number"
    } else {
        "text"
    }
}

fn find_setting(known: &Vec<Setting>, key: &str) -> (r: usize)
    ensures
        r == first_setting(setting_views(known@), key@, 0),
        r <= known@.len(),
{
    let ghost s = setting_views(known@);
    let mut i: usize = 0;
    while i < known.len() && !same(&known[i].key, key)
        invariant
            i <= known.len(),
            s == setting_views(known@),
            first_setting(s, key@, 0) == first_setting(s, key@, i as nat),
        decreases known.len() - i,
    {
        proof {
            assert(s[i as int] == known@[i as int]@);
        }
        i += 1;
    }
    proof {
        if i < known@.len() {
            assert(s[i as int] == known@[i as int]@);
        }
    }
    i
}

fn object_to(key: &str, value: &Json, kind: &str) -> (r: Option<String>)
    ensures
        match r {
            Some(s) => objection(key@, value@, kind@) == Some(s@),
            None => objection(key@, value@, kind@) is None,
        },
{
    if !fits(key, value, kind) {
        let mut s = cat(key, " must be a ");
        s.append(type_words(kind));
        s.append(", not ");
        s.append(&value.write());
        return Some(s);
    }
    violation(key, value)
}

impl Sorted {
    /// What this is, with a keying section beside it.
    pub open spec fn with(self, keying: Seq<(String, Json)>) -> Sorting {
        Sorting {
            document: self.document@,
            keying: entries_of(keying),
            unknown: views(self.unknown@),
            ignored: views(self.ignored@),
            invalid: rejected_views(self.invalid@),
        }
    }

    fn take(&mut self, known: &Vec<Setting>, keying: &mut Vec<(String, Json)>, key: String, value: Json)
        ensures
            final(self).with(final(keying)@) == sorted_one(
                setting_views(known@),
                old(self).with(old(keying)@),
                (key@, value@),
            ),
    {
        let ghost before = *self;
        let at: usize = find_setting(known, &key);
        if at >= known.len() {
            self.unknown.push(key);
            proof {
                assert(views(self.unknown@) =~= views(before.unknown@).push(key@));
            }
            return;
        }
        proof {
            assert(setting_views(known@)[at as int] == known@[at as int]@);
        }
        if !known[at].scope.is_portable() {
            self.ignored.push(key);
            proof {
                assert(views(self.ignored@) =~= views(before.ignored@).push(key@));
            }
            return;
        }
        match object_to(&key, &value, known[at].type_) {
            Some(reason) => {
                let refused = Rejected { key, value, reason };
                self.invalid.push(refused);
                proof {
                    assert(rejected_views(self.invalid@) =~= rejected_views(before.invalid@).push(refused@));
                }
            },
            None => {
                proof {
                    reveal_strlit("ptt.");
                }
                if starts_with(&key, "ptt.") {
                    let chars = chars_of(&key);
                    let name = text_of(&chars, 4, chars.len());
                    put_entry(keying, &name, value);
                } else {
                    set_leaf(&mut self.document, &key, value);
                }
            },
        }
    }

    fn set_keying(&mut self, keying: Vec<(String, Json)>)
        ensures
            final(self).with(keying@) == keying_set(old(self).with(keying@)),
    {
        let ghost before = *self;
        let kind: bool = match find_key(&keying, "kind") {
            Some(_) => true,
            None => false,
        };
        if kind {
            set_leaf(&mut self.document, "ptt", Json::Table(keying));
            return;
        }
        let mut i: usize = 0;
        let ghost fields = entries_of(keying@);
        proof {
            lemma_entries(keying@);
            assert(rejected_views(before.invalid@) + stray(fields, 0) =~= rejected_views(before.invalid@));
        }
        while i < keying.len()
            invariant
                i <= keying.len(),
                fields == entries_of(keying@),
                fields.len() == keying@.len(),
                forall|j: int| 0 <= j < keying@.len() ==> #[trigger] fields[j] == (keying@[j].0@, tree_of(keying@[j].1)),
                self.document == before.document,
                self.unknown == before.unknown,
                self.ignored == before.ignored,
                rejected_views(self.invalid@) == rejected_views(before.invalid@) + stray(fields, i as nat),
            decreases keying.len() - i,
        {
            let ghost was = self.invalid@;
            proof {
                assert(fields[i as int] == (keying@[i as int].0@, tree_of(keying@[i as int].1)));
            }
            let refused = Rejected {
                key: cat("ptt.", &keying[i].0),
                value: keying[i].1.clone(),
                reason: "the profile names no keying kind for it to belong to".to_owned(),
            };
            self.invalid.push(refused);
            proof {
                assert(rejected_views(self.invalid@) =~= rejected_views(was).push(refused@));
                assert(rejected_views(self.invalid@) =~= rejected_views(before.invalid@) + stray(fields, (i + 1) as nat));
            }
            i += 1;
        }
        let mut none: Vec<(String, Json)> = Vec::new();
        none.push(("kind".to_owned(), Json::Text("none".to_owned())));
        proof {
            lemma_entries(none@);
            assert(entries_of(none@) =~= seq![("kind"@, Tree::Text("none"@))]);
        }
        set_leaf(&mut self.document, "ptt", Json::Table(none));
    }
}

/// Whether two values of a setting are the same: numbers by what they are, however they are
/// written.
pub open spec fn alike(a: Tree, b: Tree) -> bool {
    match (a, b) {
        (Tree::Number(x), Tree::Number(y)) => x.same_as(y),
        _ => a == b,
    }
}

/// Whether two values of a setting are the same: numbers by what they are, however they are
/// written.
pub fn same_value(a: &Json, b: &Json) -> (r: bool)
    ensures
        r == alike(a@, b@),
{
    match (a, b) {
        (Json::Number(x), Json::Number(y)) => x.equals(*y),
        _ => a.equal(b),
    }
}

/// Whether a leaf has another value than it had.
pub open spec fn differs(was: Seq<(Seq<char>, Tree)>, leaf: (Seq<char>, Tree)) -> bool {
    match lookup(was, leaf.0) {
        Some(old_value) => !alike(old_value, leaf.1),
        None => true,
    }
}

/// The keys of the first `n` leaves that have another value than they had.
pub open spec fn changes(was: Seq<(Seq<char>, Tree)>, now: Seq<(Seq<char>, Tree)>, n: nat) -> Seq<Seq<char>>
    decreases n,
{
    if n == 0 {
        Seq::empty()
    } else {
        let before = changes(was, now, (n - 1) as nat);
        if differs(was, now[n - 1]) { before.push(now[n - 1].0) } else { before }
    }
}

/// Texts in order.
pub open spec fn ordered(s: Seq<Seq<char>>) -> Seq<Seq<char>> {
    order_of(s, s.len()).map_values(|i: int| s[i])
}

/// The dotted keys whose value differs between two configurations, in order: what the result
/// has that the base did not have that way.
pub open spec fn changed_between(before: Tree, after: Tree) -> Seq<Seq<char>> {
    let now = leaves_of(""@, after);
    ordered(changes(leaves_of(""@, before), now, now.len()))
}

fn sort_texts(s: &Vec<String>) -> (r: Vec<String>)
    ensures
        views(r@) == ordered(views(s@)),
{
    let places = in_order(s);
    let ghost order = order_of(views(s@), s@.len());
    let ghost pick = |i: int| views(s@)[i];
    let mut out: Vec<String> = Vec::new();
    let mut i: usize = 0;
    while i < places.len()
        invariant
            i <= places.len(),
            order == places@.map_values(|i: usize| i as int),
            pick == (|i: int| views(s@)[i]),
            forall|j: int| 0 <= j < places@.len() ==> (#[trigger] places@[j]) < s@.len(),
            views(out@) == order.map_values(pick).subrange(0, i as int),
        decreases places.len() - i,
    {
        let ghost before = out@;
        proof {
            assert(places@[i as int] < s@.len());
            assert(order[i as int] == places@[i as int] as int);
        }
        out.push(s[places[i]].clone());
        proof {
            let m = order.map_values(pick);
            assert(views(out@) =~= views(before).push(m[i as int]));
            assert(m.subrange(0, i + 1) =~= m.subrange(0, i as int).push(m[i as int]));
        }
        i += 1;
    }
    proof {
        assert(order.map_values(pick).subrange(0, i as int) =~= order.map_values(pick));
        assert(views(s@).len() == s@.len());
    }
    out
}

/// The dotted keys whose value differs between two configurations, in order: what the result
/// has that the base did not have that way. A key the old keying kind had and the new one does
/// not is not listed: `ptt.kind` says it all.
pub fn changed_keys(before: &Json, after: &Json) -> (r: Vec<String>)
    ensures
        views(r@) == changed_between(before@, after@),
{
    let mut was: Vec<(String, Json)> = Vec::new();
    let mut now: Vec<(String, Json)> = Vec::new();
    proof {
        assert(leaf_views(was@) =~= Seq::empty());
        assert(leaf_views(now@) =~= Seq::empty());
        assert(Seq::<(Seq<char>, Tree)>::empty() + leaves_of(""@, before@) =~= leaves_of(""@, before@));
        assert(Seq::<(Seq<char>, Tree)>::empty() + leaves_of(""@, after@) =~= leaves_of(""@, after@));
    }
    leaves("", before, &mut was);
    leaves("", after, &mut now);
    let ghost old_leaves = leaf_views(was@);
    let ghost new_leaves = leaf_views(now@);
    let mut out: Vec<String> = Vec::new();
    let mut i: usize = 0;
    proof {
        lemma_entries(was@);
        assert(entries_of(was@) =~= old_leaves);
        assert(views(out@) =~= Seq::empty());
    }
    while i < now.len()
        invariant
            i <= now.len(),
            old_leaves == entries_of(was@),
            new_leaves == leaf_views(now@),
            views(out@) == changes(old_leaves, new_leaves, i as nat),
        decreases now.len() - i,
    {
        let ghost so_far = out@;
        proof {
            assert(new_leaves[i as int] == leaf_view(now@[i as int]));
        }
        let kept: bool = match find_key(&was, &now[i].0) {
            Some(k) => same_value(&was[k].1, &now[i].1),
            None => false,
        };
        if !kept {
            out.push(now[i].0.clone());
            proof {
                assert(views(out@) =~= views(so_far).push(now@[i as int].0@));
            }
        }
        i += 1;
    }
    sort_texts(&out)
}

/// How many devices of a list have a description.
pub open spec fn how_many(list: Seq<Hint>, description: Seq<char>, n: nat) -> nat
    decreases n,
{
    if n == 0 {
        0
    } else {
        how_many(list, description, (n - 1) as nat) + if list[n - 1].description == description { 1nat } else { 0nat }
    }
}

/// The first device with a description, from `from` on.
pub open spec fn first_described(list: Seq<Hint>, description: Seq<char>, from: nat) -> nat
    decreases list.len() - from,
{
    if from >= list.len() || list[from as int].description == description {
        from
    } else {
        first_described(list, description, from + 1)
    }
}

/// The device with the same thing behind it as a hint says, when there is exactly one: picking
/// one of two would be a guess.
pub open spec fn only_match(list: Seq<Hint>, hint: Option<Hint>) -> Option<Seq<char>> {
    match hint {
        Some(h) => if h.description.len() > 0 && how_many(list, h.description, list.len()) == 1 {
            Some(list[first_described(list, h.description, 0) as int].name)
        } else {
            None
        },
        None => None,
    }
}

/// Whether a device of a name is in a list.
pub open spec fn has_device(list: Seq<Hint>, name: Seq<char>) -> bool {
    exists|i: int| 0 <= i < list.len() && (#[trigger] list[i]).name == name
}

/// A sound device a configuration names and an inventory lacks.
pub open spec fn missing_sound(config: Tree, field_name: Seq<char>, key: Seq<char>, there: Seq<Seq<char>>) -> Seq<Missing> {
    let section = match field(config, "audio"@) {
        Some(t) => t,
        None => Tree::Null,
    };
    match text_field(section, field_name) {
        Some(name) => if there.contains(name) {
            Seq::empty()
        } else {
            seq![Missing { key, name, suggestion: None }]
        },
        None => Seq::empty(),
    }
}

/// The keying device a configuration names and an inventory lacks.
pub open spec fn missing_keying(config: Tree, there: InventoryModel, port: Option<Hint>, device: Option<Hint>) -> Seq<
    Missing,
> {
    match keyed_by(config) {
        Keyed::Port(name) => if has_device(there.serial_ports, name) {
            Seq::empty()
        } else {
            seq![Missing { key: "ptt.port"@, name, suggestion: only_match(there.serial_ports, port) }]
        },
        Keyed::Device(name) => if has_device(there.gpio_interfaces, name) {
            Seq::empty()
        } else {
            seq![Missing { key: "ptt.device"@, name, suggestion: only_match(there.gpio_interfaces, device) }]
        },
        Keyed::Nothing => Seq::empty(),
    }
}

/// The devices a configuration names that this computer does not report. A computer that could
/// not be asked misses none.
pub open spec fn missing_devices(
    config: Tree,
    inventory: Option<InventoryModel>,
    port: Option<Hint>,
    device: Option<Hint>,
) -> Seq<Missing> {
    match inventory {
        Some(there) => if there.says_nothing() {
            Seq::empty()
        } else {
            missing_sound(config, "input"@, "audio.input"@, there.inputs) + missing_sound(
                config,
                "output"@,
                "audio.output"@,
                there.outputs,
            ) + missing_keying(config, there, port, device)
        },
        None => Seq::empty(),
    }
}

proof fn lemma_how_many_grows(list: Seq<Hint>, description: Seq<char>, a: nat, b: nat)
    requires
        a <= b,
    ensures
        how_many(list, description, a) <= how_many(list, description, b),
    decreases b,
{
    if a < b {
        lemma_how_many_grows(list, description, a, (b - 1) as nat);
    }
}

fn find_only(list: &Vec<DeviceHint>, hint: &Option<DeviceHint>) -> (r: Option<String>)
    ensures
        text_view(r) == only_match(hint_views(list@), hint_view(*hint)),
{
    let description = match hint {
        Some(h) => &h.description,
        None => return None,
    };
    if description.as_str().is_empty() {
        return None;
    }
    let ghost s = hint_views(list@);
    let ghost d = description@;
    let mut found: Option<usize> = None;
    let mut i: usize = 0;
    while i < list.len()
        invariant
            i <= list.len(),
            s == hint_views(list@),
            d == description@,
            hint matches Some(h) && h.description@ == d,
            found is None ==> how_many(s, d, i as nat) == 0 && first_described(s, d, 0) == first_described(s, d, i as nat),
            found matches Some(k) ==> k < i && how_many(s, d, i as nat) == 1 && first_described(s, d, 0) == k,
        decreases list.len() - i,
    {
        proof {
            assert(s[i as int] == list@[i as int]@);
        }
        if same(&list[i].description, description) {
            if found.is_some() {
                proof {
                    assert(how_many(s, d, (i + 1) as nat) == 2);
                    lemma_how_many_grows(s, d, (i + 1) as nat, s.len());
                }
                return None;
            }
            found = Some(i);
        }
        i += 1;
    }
    match found {
        Some(k) => {
            proof {
                assert(s[k as int] == list@[k as int]@);
            }
            Some(list[k].name.clone())
        },
        None => None,
    }
}

fn lists_device(list: &Vec<DeviceHint>, name: &str) -> (r: bool)
    ensures
        r == has_device(hint_views(list@), name@),
{
    let ghost s = hint_views(list@);
    let mut i: usize = 0;
    while i < list.len()
        invariant
            i <= list.len(),
            s == hint_views(list@),
            forall|j: int| 0 <= j < i ==> (#[trigger] s[j]).name != name@,
        decreases list.len() - i,
    {
        proof {
            assert(s[i as int] == list@[i as int]@);
        }
        if same(&list[i].name, name) {
            return true;
        }
        i += 1;
    }
    false
}

proof fn lemma_names_of(list: Seq<String>, name: Seq<char>)
    ensures
        names(list, name) == views(list).contains(name),
{
    if names(list, name) {
        let i = choose|i: int| 0 <= i < list.len() && #[trigger] list[i]@ == name;
        assert(views(list)[i] == name);
    }
    if views(list).contains(name) {
        let i = choose|i: int| 0 <= i < views(list).len() && views(list)[i] == name;
        assert(list[i]@ == name);
    }
}

fn note_sound(config: &Json, field_name: &str, key: &str, there: &Vec<String>, out: &mut Vec<MissingHardware>)
    ensures
        missing_views(final(out)@) == missing_views(old(out)@) + missing_sound(
            config@,
            field_name@,
            key@,
            views(there@),
        ),
{
    let ghost before = out@;
    proof {
        assert(missing_views(before) + Seq::<Missing>::empty() =~= missing_views(before));
    }
    let section = match config.get("audio") {
        Some(t) => t,
        None => return,
    };
    match text_at(section, field_name) {
        Some(name) => {
            proof {
                lemma_names_of(there@, name@);
            }
            if !holds_text(there, name) {
                let m = MissingHardware { key: key.to_owned(), name: name.clone(), suggestion: None };
                out.push(m);
                proof {
                    assert(missing_views(out@) =~= missing_views(before) + seq![m@]);
                }
            }
        },
        None => {},
    }
}

/// What applying a profile to a configuration produced.
#[derive(Debug)]
pub struct Applied {
    /// The configuration to run: the base's machine-local settings, the profile's for the
    /// rest, validated.
    pub config: Json,
    /// The dial memories to keep, when the profile carried a usable list.
    pub memories: Option<Vec<Memory>>,
    /// The dotted keys whose value the profile changed, in order.
    pub changed: Vec<String>,
    /// Settings this version does not have: from a newer version, or a typo.
    pub unknown: Vec<String>,
    /// Settings the file carried that a profile does not: this computer's were kept.
    pub ignored: Vec<String>,
    /// Values that failed their rule; the default was kept for each.
    pub invalid: Vec<Rejected>,
    /// Devices this computer does not have.
    pub missing_hardware: Vec<MissingHardware>,
}

/// What the result of applying a profile is.
pub struct AppliedModel {
    pub config: Tree,
    pub memories: Option<Seq<(u64, Seq<char>)>>,
    pub changed: Seq<Seq<char>>,
    pub unknown: Seq<Seq<char>>,
    pub ignored: Seq<Seq<char>>,
    pub invalid: Seq<Refusal>,
    pub missing_hardware: Seq<Missing>,
}

impl View for Applied {
    type V = AppliedModel;

    open spec fn view(&self) -> AppliedModel {
        AppliedModel {
            config: self.config@,
            memories: memories_view(self.memories),
            changed: views(self.changed@),
            unknown: views(self.unknown@),
            ignored: views(self.ignored@),
            invalid: rejected_views(self.invalid@),
            missing_hardware: missing_views(self.missing_hardware@),
        }
    }
}

/// The texts among the first `n` that are not in a list.
pub open spec fn not_among(s: Seq<Seq<char>>, list: Seq<String>, n: nat) -> Seq<Seq<char>>
    decreases n,
{
    if n == 0 {
        Seq::empty()
    } else {
        let before = not_among(s, list, (n - 1) as nat);
        if names(list, s[n - 1]) { before } else { before.push(s[n - 1]) }
    }
}

impl Applied {
    /// The changed keys that take effect only after a restart, where `live` names the settings
    /// that change without one.
    pub fn restart_required(&self, live: &Vec<String>) -> (r: Vec<String>)
        ensures
            views(r@) == not_among(self@.changed, live@, self@.changed.len()),
    {
        let mut out: Vec<String> = Vec::new();
        let mut i: usize = 0;
        proof {
            assert(views(out@) =~= Seq::empty());
        }
        while i < self.changed.len()
            invariant
                i <= self.changed.len(),
                views(out@) == not_among(views(self.changed@), live@, i as nat),
            decreases self.changed.len() - i,
        {
            let ghost before = out@;
            if !holds_text(live, &self.changed[i]) {
                out.push(self.changed[i].clone());
                proof {
                    assert(views(out@) =~= views(before).push(self.changed@[i as int]@));
                }
            }
            i += 1;
        }
        out
    }
}

/// What the tidied dial list of a profile is, or why it cannot be used.
pub open spec fn dials_view(d: Result<Vec<Memory>, String>) -> Result<Seq<(u64, Seq<char>)>, Seq<char>> {
    match d {
        Ok(v) => Ok(memory_views(v@)),
        Err(e) => Err(e@),
    }
}

/// What applying a profile to a configuration produces: `verdict` is the configuration as it
/// reads the sorted document, or why it refuses it, and `dials` the profile's dial list in
/// order, or why it is no list.
pub open spec fn applied(
    profile: ProfileModel,
    base: Tree,
    plain: Tree,
    verdict: Result<Tree, Seq<char>>,
    dials: Result<Seq<(u64, Seq<char>)>, Seq<char>>,
    inventory: Option<InventoryModel>,
) -> Result<AppliedModel, Fault> {
    let sorted = sorted_settings(profile.settings, base, plain);
    match verdict {
        Err(detail) => Err(Fault::Invalid(detail)),
        Ok(config) => Ok(
            AppliedModel {
                config,
                memories: match profile.memories {
                    Some(_) => match dials {
                        Ok(list) => Some(list),
                        Err(_) => None,
                    },
                    None => None,
                },
                changed: changed_between(base, sorted.document),
                unknown: sorted.unknown,
                ignored: sorted.ignored,
                invalid: match (profile.memories, dials) {
                    (Some(_), Err(reason)) => sorted.invalid.push(
                        Refusal {
                            key: "memories"@,
                            value: Tree::Null,
                            reason: "the dial list was left alone: "@ + reason,
                        },
                    ),
                    _ => sorted.invalid,
                },
                missing_hardware: missing_devices(config, inventory, profile.ptt_port, profile.ptt_device),
            },
        ),
    }
}

/// What the result of applying a profile is, or why there is none.
pub open spec fn applied_view(r: Result<Applied, ProfileError>) -> Result<AppliedModel, Fault> {
    match r {
        Ok(a) => Ok(a@),
        Err(e) => Err(e@),
    }
}

impl Profile {
    /// Put the profile's settings into a copy of the running configuration: every portable
    /// setting reset to its default, then each of the profile's values taken or set aside with
    /// the reason. `plain` is the configuration of the defaults.
    pub fn sort_settings(&self, running: &Json, plain: &Json) -> (r: Sorted)
        ensures
            ({
                let sorted = sorted_settings(self.settings@, running@, plain@);
                &&& r.document@ == sorted.document
                &&& views(r.unknown@) == sorted.unknown
                &&& views(r.ignored@) == sorted.ignored
                &&& rejected_views(r.invalid@) == sorted.invalid
            }),
    {
        let live: Vec<String> = Vec::new();
        let known = schema(plain, &live);
        let ghost models = setting_views(known@);
        proof {
            assert(live@ =~= Seq::empty());
            assert(models == known_settings(plain@));
        }
        let mut document = running.clone();
        let mut i: usize = 0;
        while i < known.len()
            invariant
                i <= known.len(),
                models == setting_views(known@),
                document@ == at_defaults(running@, models, i as nat),
            decreases known.len() - i,
        {
            proof {
                assert(models[i as int] == known@[i as int]@);
            }
            if known[i].scope.is_portable() && !starts_with(&known[i].key, "ptt.") {
                set_leaf(&mut document, &known[i].key, known[i].default.clone());
            }
            i += 1;
        }
        let mut sorted = Sorted { document, unknown: Vec::new(), ignored: Vec::new(), invalid: Vec::new() };
        let mut keying: Vec<(String, Json)> = Vec::new();
        let mut all: Vec<(String, Json)> = Vec::new();
        proof {
            assert(leaf_views(all@) =~= Seq::empty());
            assert(Seq::<(Seq<char>, Tree)>::empty() + leaves_of(""@, self.settings@) =~= leaves_of(""@, self.settings@));
        }
        leaves("", &self.settings, &mut all);
        let ghost s = leaf_views(all@);
        i = 0;
        proof {
            assert(views(sorted.unknown@) =~= Seq::empty());
            assert(views(sorted.ignored@) =~= Seq::empty());
            assert(rejected_views(sorted.invalid@) =~= Seq::empty());
            assert(entries_of(keying@) =~= Seq::empty());
            assert(models.len() == known@.len());
        }
        while i < all.len()
            invariant
                i <= all.len(),
                s == leaf_views(all@),
                models == setting_views(known@),
                sorted.with(keying@) == sorted_many(models, running@, s, i as nat),
            decreases all.len() - i,
        {
            proof {
                assert(s[i as int] == leaf_view(all@[i as int]));
            }
            sorted.take(&known, &mut keying, all[i].0.clone(), all[i].1.clone());
            i += 1;
        }
        sorted.set_keying(keying);
        sorted
    }

    /// The devices the applied configuration names that this computer does not report.
    pub fn missing_hardware(&self, config: &Json, inventory: Option<&Inventory>) -> (r: Vec<MissingHardware>)
        ensures
            missing_views(r@) == missing_devices(
                config@,
                inventory_view(inventory),
                hint_view(self.hardware.ptt_port),
                hint_view(self.hardware.ptt_device),
            ),
    {
        let mut missing: Vec<MissingHardware> = Vec::new();
        proof {
            assert(missing_views(missing@) =~= Seq::empty());
        }
        let there = match inventory {
            Some(i) => i,
            None => return missing,
        };
        if there.is_empty() {
            return missing;
        }
        note_sound(config, "input", "audio.input", &there.inputs, &mut missing);
        proof {
            let first = missing_sound(config@, "input"@, "audio.input"@, views(there.inputs@));
            assert(Seq::<Missing>::empty() + first =~= first);
        }
        note_sound(config, "output", "audio.output", &there.outputs, &mut missing);
        let ghost before = missing@;
        proof {
            assert(missing_views(before) + Seq::<Missing>::empty() =~= missing_views(before));
        }
        match keying_device(config) {
            KeyedBy::Port(name) => {
                if !lists_device(&there.serial_ports, &name) {
                    let m = MissingHardware {
                        key: "ptt.port".to_owned(),
                        name,
                        suggestion: find_only(&there.serial_ports, &self.hardware.ptt_port),
                    };
                    missing.push(m);
                    proof {
                        assert(missing_views(missing@) =~= missing_views(before) + seq![m@]);
                    }
                }
            },
            KeyedBy::Device(name) => {
                if !lists_device(&there.gpio_interfaces, &name) {
                    let m = MissingHardware {
                        key: "ptt.device".to_owned(),
                        name,
                        suggestion: find_only(&there.gpio_interfaces, &self.hardware.ptt_device),
                    };
                    missing.push(m);
                    proof {
                        assert(missing_views(missing@) =~= missing_views(before) + seq![m@]);
                    }
                }
            },
            KeyedBy::Nothing => {},
        }
        missing
    }

    /// Apply this profile to a configuration.
    ///
    /// The result keeps `base`'s machine-local and secret settings and takes the profile's for
    /// everything portable; a portable setting the profile does not name gets its default, so a
    /// profile means the same station wherever it is loaded. Nothing is changed in `base`: the
    /// caller commits the result, or not.
    ///
    /// `verdict` is what the configuration makes of the document that
    /// [`Profile::sort_settings`] gives over `base`: what it reads, or why the settings will
    /// not work together. `dials` is the profile's dial list put in order, or why it is none.
    pub fn apply(
        &self,
        base: &Json,
        plain: &Json,
        verdict: Result<Json, String>,
        dials: Result<Vec<Memory>, String>,
        inventory: Option<&Inventory>,
    ) -> (r: Result<Applied, ProfileError>)
        ensures
            applied_view(r) == applied(
                self@,
                base@,
                plain@,
                document_view(verdict),
                dials_view(dials),
                inventory_view(inventory),
            ),
    {
        let config = match verdict {
            Ok(c) => c,
            Err(detail) => return Err(ProfileError::Invalid(detail)),
        };
        let sorted = self.sort_settings(base, plain);
        let changed = changed_keys(base, &sorted.document);
        let mut invalid = sorted.invalid;
        let memories = match &self.memories {
            None => None,
            Some(_) => match dials {
                Ok(list) => Some(list),
                Err(reason) => {
                    let ghost before = invalid@;
                    let refused = Rejected {
                        key: "memories".to_owned(),
                        value: Json::Null,
                        reason: cat("the dial list was left alone: ", &reason),
                    };
                    invalid.push(refused);
                    proof {
                        assert(rejected_views(invalid@) =~= rejected_views(before).push(refused@));
                    }
                    None
                },
            },
        };
        let missing_hardware = self.missing_hardware(&config, inventory);
        Ok(
            Applied {
                config,
                memories,
                changed,
                unknown: sorted.unknown,
                ignored: sorted.ignored,
                invalid,
                missing_hardware,
            },
        )
    }
}

/// Whether no file system takes a character in a name.
pub open spec fn unfit(c: char) -> bool {
    (c as int) < 32 || 127 <= (c as int) <= 159 || c == '/' || c == '\\' || c == ':' || c == '*' || c == '?' || c == '"'
        || c == '<' || c == '>' || c == '|'
}

/// Whether a character is taken off the ends of a file's stem.
pub open spec fn end_mark(c: char) -> bool {
    c == '.' || c == ' ' || c == '-'
}

/// A text with the characters no file system takes replaced.
pub open spec fn cleaned(s: Seq<char>) -> Seq<char> {
    s.map_values(|c: char| if unfit(c) { '-' } else { c })
}

/// The file's stem that a name gets.
pub open spec fn id_of(name: Seq<char>) -> Seq<char> {
    let stem = stripped(cleaned(trimmed(name)), |c: char| end_mark(c));
    if stem.len() == 0 { "profile"@ } else { stem }
}

fn is_unfit(c: char) -> (r: bool)
    ensures
        r == unfit(c),
{
    let n: u32 = c as u32;
    n < 32 || (n >= 127 && n <= 159) || c == '/' || c == '\\' || c == ':' || c == '*' || c == '?' || c == '"' || c == '<'
        || c == '>' || c == '|'
}

fn is_end_mark(c: char) -> (r: bool)
    ensures
        r == end_mark(c),
{
    c == '.' || c == ' ' || c == '-'
}

/// The name a file's stem is, and the file a name gets: the name with the characters no file
/// system takes replaced, so `Home FTDX10` is `Home FTDX10.aetherprofile`.
pub fn id_for(name: &str) -> (r: String)
    ensures
        r@ == id_of(name@),
{
    let chars = chars_of(&trim(name));
    let mut clean: Vec<char> = Vec::new();
    let mut i: usize = 0;
    let ghost whole = trimmed(name@);
    while i < chars.len()
        invariant
            i <= chars.len(),
            chars@ == whole,
            clean@ == cleaned(whole).subrange(0, i as int),
        decreases chars.len() - i,
    {
        let c: char = chars[i];
        clean.push(if is_unfit(c) { '-' } else { c });
        proof {
            assert(cleaned(whole).subrange(0, i + 1) =~= cleaned(whole).subrange(0, i as int).push(cleaned(whole)[i as int]));
        }
        i += 1;
    }
    proof {
        assert(cleaned(whole).subrange(0, i as int) =~= cleaned(whole));
    }
    let ghost test = |c: char| end_mark(c);
    let mut from: usize = 0;
    while from < clean.len() && is_end_mark(clean[from])
        invariant
            from <= clean.len(),
            test == (|c: char| end_mark(c)),
            forall|j: int| 0 <= j < from ==> test(#[trigger] clean@[j]),
        decreases clean.len() - from,
    {
        from += 1;
    }
    proof {
        lemma_leading_is(clean@, test, from as nat);
    }
    let mut to: usize = clean.len();
    while to > from && is_end_mark(clean[to - 1])
        invariant
            from <= to <= clean.len(),
            test == (|c: char| end_mark(c)),
            forall|j: int| to <= j < clean@.len() ==> test(#[trigger] clean@[j]),
        decreases to,
    {
        to -= 1;
    }
    if from >= clean.len() || to <= from {
        proof {
            assert(stripped(clean@, test).len() == 0);
        }
        return "profile".to_owned();
    }
    proof {
        let tail = clean@.subrange(from as int, clean@.len() as int);
        lemma_trailing_is(tail, test, (clean@.len() - to) as nat);
    }
    text_of(&clean, from, to)
}

/// A profile as the list describes it, without its settings.
#[derive(PartialEq, Eq, Debug)]
pub struct Entry {
    /// The file's stem, which is what the methods take.
    pub id: String,
    /// The operator's name for it.
    pub name: String,
    /// When it was first saved.
    pub created: String,
    /// When it was last saved.
    pub modified: String,
    /// Which version wrote it.
    pub aether_version: String,
    /// Where the file is.
    pub path: String,
    /// Why the file could not be read, when it could not: it is listed so the operator can see
    /// it is there, and cannot be loaded.
    pub error: Option<String>,
}

/// What an entry is.
pub struct EntryModel {
    pub id: Seq<char>,
    pub name: Seq<char>,
    pub created: Seq<char>,
    pub modified: Seq<char>,
    pub aether_version: Seq<char>,
    pub path: Seq<char>,
    pub error: Option<Seq<char>>,
}

impl View for Entry {
    type V = EntryModel;

    open spec fn view(&self) -> EntryModel {
        EntryModel {
            id: self.id@,
            name: self.name@,
            created: self.created@,
            modified: self.modified@,
            aether_version: self.aether_version@,
            path: self.path@,
            error: text_view(self.error),
        }
    }
}

/// What a run of entries is.
pub open spec fn entry_views(s: Seq<Entry>) -> Seq<EntryModel> {
    s.map_values(|e: Entry| e@)
}

impl Clone for Entry {
    fn clone(&self) -> (r: Self)
        ensures
            r@ == self@,
    {
        Entry {
            id: self.id.clone(),
            name: self.name.clone(),
            created: self.created.clone(),
            modified: self.modified.clone(),
            aether_version: self.aether_version.clone(),
            path: self.path.clone(),
            error: match &self.error {
                Some(s) => Some(s.clone()),
                None => None,
            },
        }
    }
}

/// A profile with the file's stem for a name when it has none.
pub open spec fn named(p: ProfileModel, id: Seq<char>) -> ProfileModel {
    if p.name.len() == 0 { ProfileModel { name: id, ..p } } else { p }
}

/// How a profile's file is listed.
pub open spec fn listed(id: Seq<char>, path: Seq<char>, read: Result<ProfileModel, Fault>) -> EntryModel {
    match read {
        Ok(profile) => EntryModel {
            id,
            name: named(profile, id).name,
            created: profile.created,
            modified: profile.modified,
            aether_version: profile.aether_version,
            path,
            error: None,
        },
        Err(f) => EntryModel {
            id,
            name: id,
            created: ""@,
            modified: ""@,
            aether_version: ""@,
            path,
            error: Some(fault_text(f)),
        },
    }
}

/// What a profile that may not have been read is.
pub open spec fn profile_view(r: Result<Profile, ProfileError>) -> Result<ProfileModel, Fault> {
    match r {
        Ok(p) => Ok(p@),
        Err(e) => Err(e@),
    }
}

impl Entry {
    /// How a profile's file is listed: what was read of it, or that it could not be.
    pub fn of(id: &str, path: &str, read: &Result<Profile, ProfileError>) -> (r: Self)
        ensures
            r@ == listed(id@, path@, profile_view(*read)),
    {
        match read {
            Ok(profile) => Entry {
                id: id.to_owned(),
                name: if profile.name.as_str().is_empty() { id.to_owned() } else { profile.name.clone() },
                created: profile.created.clone(),
                modified: profile.modified.clone(),
                aether_version: profile.aether_version.clone(),
                path: path.to_owned(),
                error: None,
            },
            Err(e) => Entry {
                id: id.to_owned(),
                name: id.to_owned(),
                created: "".to_owned(),
                modified: "".to_owned(),
                aether_version: "".to_owned(),
                path: path.to_owned(),
                error: Some(e.text()),
            },
        }
    }
}

/// Names in lower case.
pub open spec fn lower_names(s: Seq<EntryModel>) -> Seq<Seq<char>> {
    s.map_values(|e: EntryModel| lowercase(e.name))
}

/// Entries in the order of their names, whatever their case.
pub open spec fn by_name(s: Seq<EntryModel>) -> Seq<EntryModel> {
    order_of(lower_names(s), s.len()).map_values(|i: int| s[i])
}

/// Whether an entry is the one a lower-case name asks for, by its name or its file.
pub open spec fn answers_to(e: EntryModel, wanted: Seq<char>) -> bool {
    lowercase(e.name) == wanted || lowercase(e.id) == wanted
}

/// The first entry a lower-case name asks for, from `from` on.
pub open spec fn first_called(s: Seq<EntryModel>, wanted: Seq<char>, from: nat) -> nat
    decreases s.len() - from,
{
    if from >= s.len() || answers_to(s[from as int], wanted) { from } else { first_called(s, wanted, from + 1) }
}

/// The id of the profile with a name, if one exists: names are compared without regard to
/// case, as a file system would.
pub open spec fn found(s: Seq<EntryModel>, name: Seq<char>) -> Option<Seq<char>> {
    let at = first_called(s, lowercase(trimmed(name)), 0);
    if at < s.len() { Some(s[at as int].id) } else { None }
}

/// The name a profile must have.
pub open spec fn checked_name(name: Seq<char>) -> Result<Seq<char>, Fault> {
    let name = trimmed(name);
    if name.len() == 0 {
        Err(Fault::BadName("a profile needs a name"@))
    } else if name.len() > NAME_CHARS {
        Err(Fault::BadName("a name is at most "@ + digits(NAME_CHARS as nat) + " characters"@))
    } else {
        Ok(name)
    }
}

/// Whether two ids are one file's, whatever the case of their letters.
pub open spec fn same_id(a: Seq<char>, b: Seq<char>) -> bool {
    ascii_lowercase(a) == ascii_lowercase(b)
}

/// What `profiles.json` holds.
#[derive(Debug)]
pub struct State {
    /// The shape of the file.
    pub schema: u32,
    /// The active profile's id.
    pub active: Option<String>,
}

/// The profiles beside a configuration file, and which one is active.
#[derive(Debug)]
pub struct Store {
    dir: Option<String>,
    state_path: Option<String>,
    active: Option<String>,
}

/// What a store is.
pub struct Shelf {
    pub dir: Option<Seq<char>>,
    pub state_path: Option<Seq<char>>,
    pub active: Option<Seq<char>>,
}

impl View for Store {
    type V = Shelf;

    closed spec fn view(&self) -> Shelf {
        Shelf { dir: text_view(self.dir), state_path: text_view(self.state_path), active: text_view(self.active) }
    }
}

/// The entry a profile is written as, where it may be: `replace` names the id it may take the
/// place of.
pub open spec fn written(
    shelf: Shelf,
    profile: ProfileModel,
    replace: Option<Seq<char>>,
    there: Seq<EntryModel>,
    path: Seq<char>,
) -> Result<EntryModel, Fault> {
    match checked_name(profile.name) {
        Err(f) => Err(f),
        Ok(name) => {
            let taken = match found(there, name) {
                Some(existing) => match replace {
                    Some(r) => !same_id(r, existing),
                    None => true,
                },
                None => false,
            };
            if taken {
                Err(Fault::NameTaken(name))
            } else if shelf.dir is None {
                Err(Fault::NoDirectory)
            } else {
                Ok(
                    EntryModel {
                        id: id_of(name),
                        name,
                        created: profile.created,
                        modified: profile.modified,
                        aether_version: profile.aether_version,
                        path,
                        error: None,
                    },
                )
            }
        },
    }
}

/// What an entry that may not have been made is.
pub open spec fn entry_view(r: Result<Entry, ProfileError>) -> Result<EntryModel, Fault> {
    match r {
        Ok(e) => Ok(e@),
        Err(e) => Err(e@),
    }
}

/// How a profile is given a new name.
#[derive(Debug)]
pub struct Renaming {
    /// The profile to write, under its new name.
    pub profile: Profile,
    /// How it is listed then.
    pub entry: Entry,
    /// Whether the old file is to be removed: the name moved it.
    pub moved: bool,
    /// Whether the active mark moves with it.
    pub activate: bool,
}

/// What happens on the first start with profiles.
#[derive(Debug)]
pub enum Adoption {
    /// Nothing: there is no store, or it has been used before.
    Leave,
    /// The store is marked used, with no profile active: both names are taken.
    Mark,
    /// The running configuration is written as a profile and made active.
    Save(Profile),
}

/// What an adoption is.
pub enum Adopting {
    Leave,
    Mark,
    Save(ProfileModel),
}

impl View for Adoption {
    type V = Adopting;

    open spec fn view(&self) -> Adopting {
        match self {
            Adoption::Leave => Adopting::Leave,
            Adoption::Mark => Adopting::Mark,
            Adoption::Save(p) => Adopting::Save(p@),
        }
    }
}

/// The callsign a configuration gives, empty where it gives none.
pub open spec fn callsign_in(config: Tree) -> Seq<char> {
    match text_field(config, "callsign"@) {
        Some(s) => s,
        None => ""@,
    }
}

/// What happens to a store on the first start with profiles: `used` says whether its state file
/// is there, and `there` are the profiles there are.
pub open spec fn adopting(
    shelf: Shelf,
    config: Tree,
    settings_schema: u32,
    version: Seq<char>,
    memories: Seq<(u64, Seq<char>)>,
    inventory: Option<InventoryModel>,
    now: Seq<char>,
    used: bool,
    there: Seq<EntryModel>,
) -> Adopting {
    let name = adopted_name(there, callsign_in(config));
    if shelf.dir is None || used {
        Adopting::Leave
    } else if found(there, name) is Some {
        Adopting::Mark
    } else {
        Adopting::Save(captured(name, config, settings_schema, version, memories, inventory, now))
    }
}

/// The name the running configuration is adopted under: `Default`, or with the callsign beside
/// it where somebody filled the directory by hand before.
pub open spec fn adopted_name(there: Seq<EntryModel>, callsign: Seq<char>) -> Seq<char> {
    if found(there, ADOPTED_NAME@) is Some { ADOPTED_NAME@ + " ("@ + callsign + ")"@ } else { ADOPTED_NAME@ }
}

fn same_ids(a: &str, b: &str) -> (r: bool)
    ensures
        r == same_id(a@, b@),
{
    same(&to_ascii_lower(a), &to_ascii_lower(b))
}

fn same_memories(a: &Vec<Memory>, b: &Vec<Memory>) -> (r: bool)
    ensures
        r == (memory_views(a@) == memory_views(b@)),
{
    let ghost x = memory_views(a@);
    let ghost y = memory_views(b@);
    if a.len() != b.len() {
        proof {
            assert(x.len() != y.len());
        }
        return false;
    }
    let mut i: usize = 0;
    while i < a.len()
        invariant
            i <= a.len(),
            a.len() == b.len(),
            x == memory_views(a@),
            y == memory_views(b@),
            forall|j: int| 0 <= j < i ==> x[j] == y[j],
        decreases a.len() - i,
    {
        if a[i].hz != b[i].hz || !same(&a[i].name, &b[i].name) {
            proof {
                assert(x[i as int] != y[i as int]);
            }
            return false;
        }
        i += 1;
    }
    proof {
        assert(x =~= y);
    }
    true
}

/// Whether a running configuration has moved from its active profile, where there is one: whether
/// loading it again would change anything that a profile carries, or the dials.
pub open spec fn moved(
    active: bool,
    loaded: Result<AppliedModel, Fault>,
    config: Tree,
    dials: Result<Seq<(u64, Seq<char>)>, Seq<char>>,
) -> Option<bool> {
    match loaded {
        Ok(a) => if !active {
            None
        } else {
            Some(
                portable_part(a.config) != portable_part(config) || match dials {
                    Ok(list) => a.memories is Some && a.memories != Some(list),
                    Err(_) => true,
                },
            )
        },
        Err(_) => None,
    }
}

impl Store {
    /// The store beside a configuration file: `places` are its `profiles` directory and its
    /// `profiles.json`, and `state` what the latter holds. With no file there is no store, and
    /// every write says so.
    pub fn open(places: Option<(String, String)>, state: Option<State>) -> (r: Self)
        ensures
            r@ == match places {
                Some((dir, state_path)) => Shelf {
                    dir: Some(dir@),
                    state_path: Some(state_path@),
                    active: match state {
                        Some(s) => if s.schema == 1 { text_view(s.active) } else { None },
                        None => None,
                    },
                },
                None => Shelf { dir: None, state_path: None, active: None },
            },
    {
        match places {
            Some((dir, state_path)) => {
                let active = match state {
                    Some(s) => if s.schema == 1 { s.active } else { None },
                    None => None,
                };
                Store { dir: Some(dir), state_path: Some(state_path), active }
            },
            None => Store { dir: None, state_path: None, active: None },
        }
    }

    /// Where the profiles are.
    pub fn dir(&self) -> (r: Option<&String>)
        ensures
            match r {
                Some(s) => self@.dir == Some(s@),
                None => self@.dir is None,
            },
    {
        match &self.dir {
            Some(s) => Some(s),
            None => None,
        }
    }

    /// Where the store keeps which profile is active.
    pub fn state_path(&self) -> (r: Option<&String>)
        ensures
            match r {
                Some(s) => self@.state_path == Some(s@),
                None => self@.state_path is None,
            },
    {
        match &self.state_path {
            Some(s) => Some(s),
            None => None,
        }
    }

    /// The active profile's id.
    pub fn active(&self) -> (r: Option<&String>)
        ensures
            match r {
                Some(s) => self@.active == Some(s@),
                None => self@.active is None,
            },
    {
        match &self.active {
            Some(s) => Some(s),
            None => None,
        }
    }

    /// Make a profile active: `wrote` is how writing the state file went.
    pub fn set_active(&mut self, id: Option<String>, wrote: Result<(), String>) -> (r: Result<(), ProfileError>)
        ensures
            if old(self)@.state_path is None {
                (r matches Err(e) && e@ == Fault::NoDirectory) && final(self)@ == old(self)@
            } else {
                match wrote {
                    Ok(_) => r is Ok && final(self)@ == (Shelf { active: text_view(id), ..old(self)@ }),
                    Err(why) => (r matches Err(e) && e@ == Fault::Io(why@)) && final(self)@ == old(self)@,
                }
            },
    {
        if self.state_path.is_none() {
            return Err(ProfileError::NoDirectory);
        }
        match wrote {
            Ok(_) => {
                self.active = id;
                Ok(())
            },
            Err(why) => Err(ProfileError::Io(why)),
        }
    }

    /// Where a profile's file is, by id: its directory, and its name in it.
    pub fn path_of(&self, id: &str) -> (r: Option<(String, String)>)
        ensures
            match r {
                Some((dir, file)) => self@.dir == Some(dir@) && file@ == id_of(id@) + "."@ + EXTENSION@,
                None => self@.dir is None,
            },
    {
        match &self.dir {
            Some(dir) => {
                let mut file = cat(&id_for(id), ".");
                file.append(EXTENSION);
                Some((dir.clone(), file))
            },
            None => None,
        }
    }

    /// Every profile, by name: the entries of the directory, in order.
    pub fn list(entries: &Vec<Entry>) -> (r: Vec<Entry>)
        ensures
            entry_views(r@) == by_name(entry_views(entries@)),
    {
        let ghost s = entry_views(entries@);
        let mut keys: Vec<String> = Vec::new();
        let mut i: usize = 0;
        while i < entries.len()
            invariant
                i <= entries.len(),
                s == entry_views(entries@),
                views(keys@) == lower_names(s).subrange(0, i as int),
            decreases entries.len() - i,
        {
            let ghost before = keys@;
            keys.push(to_lower(&entries[i].name));
            proof {
                assert(s[i as int] == entries@[i as int]@);
                assert(views(keys@) =~= views(before).push(lower_names(s)[i as int]));
                assert(lower_names(s).subrange(0, i + 1) =~= lower_names(s).subrange(0, i as int).push(
                    lower_names(s)[i as int],
                ));
            }
            i += 1;
        }
        proof {
            assert(lower_names(s).subrange(0, i as int) =~= lower_names(s));
            assert(views(keys@).len() == keys@.len());
        }
        let places = in_order(&keys);
        let ghost order = order_of(lower_names(s), s.len());
        let ghost pick = |i: int| s[i];
        let mut out: Vec<Entry> = Vec::new();
        i = 0;
        while i < places.len()
            invariant
                i <= places.len(),
                s == entry_views(entries@),
                order == places@.map_values(|i: usize| i as int),
                pick == (|i: int| s[i]),
                forall|j: int| 0 <= j < places@.len() ==> (#[trigger] places@[j]) < entries@.len(),
                entry_views(out@) == order.map_values(pick).subrange(0, i as int),
            decreases places.len() - i,
        {
            let ghost before = out@;
            proof {
                assert(places@[i as int] < entries@.len());
                assert(order[i as int] == places@[i as int] as int);
            }
            let e = entries[places[i]].clone();
            out.push(e);
            proof {
                let m = order.map_values(pick);
                assert(entry_views(out@) =~= entry_views(before).push(e@));
                assert(m.subrange(0, i + 1) =~= m.subrange(0, i as int).push(m[i as int]));
            }
            i += 1;
        }
        proof {
            assert(order.map_values(pick).subrange(0, i as int) =~= order.map_values(pick));
        }
        out
    }

    /// A profile with the file's stem for a name when it has none.
    pub fn parse_named(profile: Profile, id: &str) -> (r: Profile)
        ensures
            r@ == named(profile@, id@),
    {
        let mut p = profile;
        if p.name.as_str().is_empty() {
            p.name = id.to_owned();
        }
        p
    }

    /// The id of the profile with this name, if one exists: names are compared without regard
    /// to case, as a file system would.
    pub fn find(there: &Vec<Entry>, name: &str) -> (r: Option<String>)
        ensures
            text_view(r) == found(entry_views(there@), name@),
    {
        let wanted = to_lower(&trim(name));
        let ghost s = entry_views(there@);
        let mut i: usize = 0;
        while i < there.len()
            invariant
                i <= there.len(),
                s == entry_views(there@),
                wanted@ == lowercase(trimmed(name@)),
                first_called(s, wanted@, 0) == first_called(s, wanted@, i as nat),
            decreases there.len() - i,
        {
            proof {
                assert(s[i as int] == there@[i as int]@);
            }
            if same(&to_lower(&there[i].name), &wanted) || same(&to_lower(&there[i].id), &wanted) {
                return Some(there[i].id.clone());
            }
            i += 1;
        }
        None
    }

    /// The name a profile must have.
    pub fn check_name(name: &str) -> (r: Result<String, ProfileError>)
        ensures
            match r {
                Ok(s) => checked_name(name@) == Ok::<Seq<char>, Fault>(s@),
                Err(e) => checked_name(name@) == Err::<Seq<char>, Fault>(e@),
            },
    {
        let name = trim(name);
        if name.as_str().is_empty() {
            return Err(ProfileError::BadName("a profile needs a name".to_owned()));
        }
        if name.as_str().unicode_len() > NAME_CHARS {
            let mut s = cat("a name is at most ", &whole(NAME_CHARS as u128));
            s.append(" characters");
            return Err(ProfileError::BadName(s));
        }
        Ok(name)
    }

    /// What writing a profile under its name comes to, where `there` are the profiles there
    /// are and `path` where its file goes: the entry, once the file is written.
    pub fn write(&self, profile: &Profile, replace: Option<&String>, there: &Vec<Entry>, path: &str) -> (r: Result<
        Entry,
        ProfileError,
    >)
        ensures
            entry_view(r) == written(
                self@,
                profile@,
                match replace {
                    Some(s) => Some(s@),
                    None => None,
                },
                entry_views(there@),
                path@,
            ),
    {
        let name = match Store::check_name(&profile.name) {
            Ok(name) => name,
            Err(e) => return Err(e),
        };
        match Store::find(there, &name) {
            Some(existing) => {
                let taken: bool = match replace {
                    Some(r) => !same_ids(r, &existing),
                    None => true,
                };
                if taken {
                    return Err(ProfileError::NameTaken(name));
                }
            },
            None => {},
        }
        if self.dir.is_none() {
            return Err(ProfileError::NoDirectory);
        }
        Ok(
            Entry {
                id: id_for(&name),
                name,
                created: profile.created.clone(),
                modified: profile.modified.clone(),
                aether_version: profile.aether_version.clone(),
                path: path.to_owned(),
                error: None,
            },
        )
    }

    /// Whether a profile may be deleted, where `exists` says whether its file is there. The
    /// active one may not: switch first.
    pub fn delete(&self, id: &str, exists: bool) -> (r: Result<(), ProfileError>)
        ensures
            match r {
                Ok(_) => !(self@.active matches Some(a) && same_id(a, id@)) && self@.dir is Some && exists,
                Err(e) => e@ == if self@.active matches Some(a) && same_id(a, id@) {
                    Fault::Invalid("the active profile cannot be deleted: switch to another one first"@)
                } else if self@.dir is None {
                    Fault::NoDirectory
                } else {
                    Fault::NoSuchProfile(id@)
                },
            },
            r is Ok == (!(self@.active matches Some(a) && same_id(a, id@)) && self@.dir is Some && exists),
    {
        match &self.active {
            Some(a) => {
                if same_ids(a, id) {
                    return Err(
                        ProfileError::Invalid(
                            "the active profile cannot be deleted: switch to another one first".to_owned(),
                        ),
                    );
                }
            },
            None => {},
        }
        if self.dir.is_none() {
            return Err(ProfileError::NoDirectory);
        }
        if !exists {
            return Err(ProfileError::NoSuchProfile(id.to_owned()));
        }
        Ok(())
    }

    /// What giving a profile a new name comes to, where `read` is what was read of it, `there`
    /// the profiles there are and `path` where its file goes: the file moves with the name,
    /// and so does the active mark.
    pub fn rename(
        &self,
        id: &String,
        name: &str,
        now: &str,
        read: Result<Profile, ProfileError>,
        there: &Vec<Entry>,
        path: &str,
    ) -> (r: Result<Renaming, ProfileError>)
        ensures
            match read {
                Err(e) => (r matches Err(x) && x@ == e@),
                Ok(p) => match checked_name(name@) {
                    Err(f) => (r matches Err(x) && x@ == f),
                    Ok(wanted) => {
                        let renamed = ProfileModel { name: wanted, modified: now@, ..p@ };
                        match written(self@, renamed, Some(id@), entry_views(there@), path@) {
                            Err(f) => (r matches Err(x) && x@ == f),
                            Ok(entry) => (r matches Ok(x) && x.profile@ == renamed && x.entry@ == entry && x.moved
                                == !same_id(id_of(wanted), id@) && x.activate == (x.moved && (
                            self@.active matches Some(a) && same_id(a, id@)))),
                        }
                    },
                },
            },
    {
        let mut profile = match read {
            Ok(p) => p,
            Err(e) => return Err(e),
        };
        let wanted = match Store::check_name(name) {
            Ok(n) => n,
            Err(e) => return Err(e),
        };
        let new_id = id_for(&wanted);
        profile.name = wanted;
        profile.modified = now.to_owned();
        let entry = match self.write(&profile, Some(id), there, path) {
            Ok(e) => e,
            Err(e) => return Err(e),
        };
        let moved: bool = !same_ids(&new_id, id);
        let mine: bool = match &self.active {
            Some(a) => same_ids(a, id),
            None => false,
        };
        Ok(Renaming { profile, entry, moved, activate: moved && mine })
    }

    /// The first start with profiles: the running configuration becomes *Default*, so the
    /// operator sees their own settings under a name and nothing else changes. Done only when
    /// the store has never been touched; `used` says whether its state file is there.
    pub fn adopt(
        &self,
        config: &Json,
        settings_schema: u32,
        version: &str,
        memories: &Vec<Memory>,
        inventory: Option<&Inventory>,
        now: &str,
        used: bool,
        there: &Vec<Entry>,
    ) -> (r: Adoption)
        ensures
            r@ == adopting(
                self@,
                config@,
                settings_schema,
                version@,
                memory_views(memories@),
                inventory_view(inventory),
                now@,
                used,
                entry_views(there@),
            ),
    {
        if self.dir.is_none() || used {
            return Adoption::Leave;
        }
        let mut name = ADOPTED_NAME.to_owned();
        if Store::find(there, &name).is_some() {
            name = cat(ADOPTED_NAME, " (");
            match text_at(config, "callsign") {
                Some(s) => name.append(s),
                None => name.append(""),
            }
            name.append(")");
        }
        if Store::find(there, &name).is_some() {
            return Adoption::Mark;
        }
        Adoption::Save(Profile::capture(&name, config, settings_schema, version, memories, inventory, now))
    }

    /// Whether the running configuration has moved from what the active profile says: whether
    /// loading the profile again would change anything. `read` is the active profile applied
    /// to the running configuration and `running` the running dials in order. `None` without an
    /// active profile, or when it could not be read or applied.
    pub fn dirty(&self, read: &Result<Applied, ProfileError>, config: &Json, running: &Result<Vec<Memory>, String>) -> (r:
        Option<bool>)
        ensures
            r == moved(self@.active is Some, applied_view(*read), config@, dials_view(*running)),
    {
        if self.active.is_none() {
            return None;
        }
        let applied = match read {
            Ok(a) => a,
            Err(_) => return None,
        };
        if !portable(&applied.config).equal(&portable(config)) {
            return Some(true);
        }
        let running = match running {
            Ok(list) => list,
            Err(_) => return Some(true),
        };
        match &applied.memories {
            Some(list) => Some(!same_memories(list, running)),
            None => Some(false),
        }
    }
}

} // verus!
