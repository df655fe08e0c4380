//! The settings registry: every setting the daemon has, described once.
//!
//! The configuration is a document of tables and values. What it cannot say is what a setting
//! *is*: whether it belongs to the station or to this computer, whether it names a piece of
//! hardware, what values are sensible. That is what this module adds, as a short table of
//! rules keyed by the dotted name the control interface already uses.
//!
//! The registry is derived: [`schema`] walks a fully populated template of the configuration
//! and lists every leaf it finds. A rule is written only for a setting that needs one: a
//! bound, a set of options, a scope other than portable.
//!
//! Bounds are in billionths, as a document's numbers are.
use vstd::prelude::*;

use crate::json::{
    entries_of, field, find_key, lemma_entries, lookup, put, put_entry, put_is_found, tree_of, tree_text, Json,
    Number, Tree,
};
use crate::text::{
    begins, cat, chars_of, decimal_text, has_at, holds_text, join, joined, names, plain_decimal, same, starts_with,
    strip_suffix, text_of, views, without_suffix,
};

verus! {

/// What kind of thing a setting is, which decides whether a profile carries it.
#[derive(Clone, Copy, PartialEq, Eq, Structural, Debug)]
pub enum Scope {
    /// The station's own: what an operator would want on any computer they run it from.
    Portable,
    /// Portable, but the name of a device this computer may not have. A profile carries it
    /// and a load checks it against what the machine reports.
    Hardware,
    /// This installation's wiring (a path, a socket, the bench), and meaningless elsewhere.
    /// Never leaves the running configuration.
    Machine,
    /// A credential. Never written anywhere but the configuration file.
    Secret,
}

impl Scope {
    /// Whether a profile carries a setting of this scope.
    pub open spec fn travels(self) -> bool {
        self == Scope::Portable || self == Scope::Hardware
    }

    /// Whether a profile carries a setting of this scope.
    pub fn is_portable(self) -> (r: bool)
        ensures
            r == self.travels(),
    {
        match self {
            Scope::Portable | Scope::Hardware => true,
            Scope::Machine | Scope::Secret => false,
        }
    }
}

/// What the registry says about one setting beyond what its type says.
#[derive(Clone, Debug)]
pub struct Rule {
    /// The dotted key: `radio.max_key_s`. A key ending in `.*` covers a whole table.
    pub key: &'static str,
    /// Whose the setting is.
    pub scope: Scope,
    /// Whether `null`, unset, is a value it takes.
    pub nullable: bool,
    /// The smallest value allowed, inclusive.
    pub min: Option<i128>,
    /// The largest value allowed, inclusive.
    pub max: Option<i128>,
    /// The only values allowed, as the document renders them (`"rts"`, `"2300"`).
    pub options: Vec<String>,
    /// Why the bound is what it is: the half of an error message an operator can act on.
    pub why: &'static str,
}

/// What a rule is.
pub struct RuleModel {
    pub key: Seq<char>,
    pub scope: Scope,
    pub nullable: bool,
    pub min: Option<i128>,
    pub max: Option<i128>,
    pub options: Seq<Seq<char>>,
    pub why: Seq<char>,
}

impl View for Rule {
    type V = RuleModel;

    open spec fn view(&self) -> RuleModel {
        RuleModel {
            key: self.key@,
            scope: self.scope,
            nullable: self.nullable,
            min: self.min,
            max: self.max,
            options: views(self.options@),
            why: self.why@,
        }
    }
}

/// One, in billionths.
pub const ONE: i128 = 1_000_000_000;

/// The smallest positive value: the bound of a setting that must be above zero.
pub const POSITIVE: i128 = 1;

/// The rule of a setting that has none: portable, not nullable and unbounded, which is the
/// right default for most of what gets added.
pub open spec fn bare(key: Seq<char>) -> RuleModel {
    RuleModel {
        key,
        scope: Scope::Portable,
        nullable: false,
        min: None,
        max: None,
        options: Seq::empty(),
        why: ""@,
    }
}

/// The rules.
pub open spec fn rule_table() -> Seq<RuleModel> {
    seq![
        RuleModel { nullable: true, min: Some(POSITIVE), max: Some((2000 * ONE) as i128), why: "power is watts, above zero"@, ..bare("operator.power_w"@) },
        RuleModel { scope: Scope::Hardware, nullable: true, ..bare("audio.input"@) },
        RuleModel { scope: Scope::Hardware, nullable: true, ..bare("audio.output"@) },
        RuleModel { options: seq!["48000"@], why: "the waveform is built around 48 kHz and nothing resamples"@, ..bare("audio.sample_rate"@) },
        RuleModel { min: Some(POSITIVE), max: Some(ONE), why: "the transmit level is a fraction of full scale"@, ..bare("audio.tx_level"@) },
        RuleModel { options: seq!["none"@, "serial"@, "rigctld"@, "cat"@, "cm108"@], why: "those are the ways this version can key a radio"@, ..bare("ptt.kind"@) },
        RuleModel { scope: Scope::Hardware, ..bare("ptt.port"@) },
        RuleModel { scope: Scope::Hardware, nullable: true, ..bare("ptt.device"@) },
        RuleModel { options: seq!["rts"@, "dtr"@, "both"@], why: "a serial port has those two control lines"@, ..bare("ptt.line"@) },
        RuleModel { options: seq!["yaesu"@, "kenwood"@, "icom"@], why: "those are the command sets this version speaks"@, ..bare("ptt.protocol"@) },
        RuleModel { options: seq!["data"@, "mic"@], why: "it is accepted and ignored, but it has to be one of the two it once meant"@, ..bare("ptt.source"@) },
        RuleModel { min: Some(ONE), why: "a serial rate is a positive number of bits per second"@, ..bare("ptt.baud"@) },
        RuleModel { nullable: true, min: Some(0), max: Some((255 * ONE) as i128), why: "a CI-V address is one byte (0x94 for an IC-7300, 0xA4 for an IC-705)"@, ..bare("ptt.civ_address"@) },
        RuleModel { min: Some(ONE), max: Some((8 * ONE) as i128), why: "the codec has eight pins, and the DRA and URI boards key on 3"@, ..bare("ptt.gpio"@) },
        RuleModel { min: Some(POSITIVE), why: "a watchdog that can never fire is not one"@, ..bare("radio.max_key_s"@) },
        RuleModel { options: seq!["2300"@, "500"@], why: "those are the waveforms this version has"@, ..bare("radio.bandwidth"@) },
        RuleModel { min: Some(0), max: Some((19 * ONE) as i128), why: "the ladder has twenty rungs: the tone floor's six and the fourteen OFDM modes"@, ..bare("radio.max_mode"@) },
        RuleModel { scope: Scope::Machine, ..bare("control.enabled"@) },
        RuleModel { scope: Scope::Machine, ..bare("control.bind"@) },
        RuleModel { scope: Scope::Secret, nullable: true, ..bare("control.token"@) },
        RuleModel { scope: Scope::Machine, nullable: true, ..bare("control.ui_dir"@) },
        RuleModel { options: seq!["text"@, "json"@], why: "the log is written for a terminal or for a log shipper"@, ..bare("log.format"@) },
        RuleModel { scope: Scope::Machine, nullable: true, ..bare("log.file"@) },
        RuleModel { options: seq!["stable"@, "beta"@, "nightly"@], why: "those are the release channels"@, ..bare("update.channel"@) },
        RuleModel { scope: Scope::Machine, nullable: true, ..bare("record.dir"@) },
        RuleModel { scope: Scope::Machine, nullable: true, ..bare("sim.listen"@) },
        RuleModel { scope: Scope::Machine, nullable: true, ..bare("sim.connect"@) },
        RuleModel { scope: Scope::Machine, ..bare("sim.*"@) },
        RuleModel { nullable: true, ..bare("panel.interface"@) },
    ]
}

/// What a run of rules is.
pub open spec fn rule_models(s: Seq<Rule>) -> Seq<RuleModel> {
    s.map_values(|r: Rule| r@)
}

fn rule(key: &'static str) -> (r: Rule)
    ensures
        r@ == bare(key@),
{
    let r = Rule { key, scope: Scope::Portable, nullable: false, min: None, max: None, options: Vec::new(), why: "" };
    proof {
        assert(views(r.options@) =~= Seq::empty());
    }
    r
}

fn scoped(key: &'static str, scope: Scope, nullable: bool) -> (r: Rule)
    ensures
        r@ == (RuleModel { scope, nullable, ..bare(key@) }),
{
    let mut r = rule(key);
    r.scope = scope;
    r.nullable = nullable;
    r
}

fn bounded(key: &'static str, nullable: bool, min: Option<i128>, max: Option<i128>, why: &'static str) -> (r: Rule)
    ensures
        r@ == (RuleModel { nullable, min, max, why: why@, ..bare(key@) }),
{
    let mut r = rule(key);
    r.nullable = nullable;
    r.min = min;
    r.max = max;
    r.why = why;
    r
}

fn chosen(key: &'static str, options: Vec<String>, why: &'static str) -> (r: Rule)
    ensures
        r@ == (RuleModel { options: views(options@), why: why@, ..bare(key@) }),
{
    let mut r = rule(key);
    r.options = options;
    r.why = why;
    r
}

fn words(a: &str, b: &str, c: &str, d: &str, e: &str) -> (r: Vec<String>)
    requires
        b@.len() == 0 ==> c@.len() == 0,
        c@.len() == 0 ==> d@.len() == 0,
        d@.len() == 0 ==> e@.len() == 0,
    ensures
        views(r@) == if b@.len() == 0 {
            seq![a@]
        } else if c@.len() == 0 {
            seq![a@, b@]
        } else if d@.len() == 0 {
            seq![a@, b@, c@]
        } else if e@.len() == 0 {
            seq![a@, b@, c@, d@]
        } else {
            seq![a@, b@, c@, d@, e@]
        },
{
    let mut r: Vec<String> = Vec::new();
    r.push(a.to_owned());
    if !b.is_empty() {
        r.push(b.to_owned());
    }
    if !c.is_empty() {
        r.push(c.to_owned());
    }
    if !d.is_empty() {
        r.push(d.to_owned());
    }
    if !e.is_empty() {
        r.push(e.to_owned());
    }
    proof {
        assert(views(r@) =~= if b@.len() == 0 {
            seq![a@]
        } else if c@.len() == 0 {
            seq![a@, b@]
        } else if d@.len() == 0 {
            seq![a@, b@, c@]
        } else if e@.len() == 0 {
            seq![a@, b@, c@, d@]
        } else {
            seq![a@, b@, c@, d@, e@]
        });
    }
    r
}

/// The rules. Anything not named here is portable, not nullable and unbounded.
pub fn rules() -> (r: Vec<Rule>)
    ensures
        rule_models(r@) == rule_table(),
{
    proof {
        reveal_strlit("");
        reveal_strlit("serial");
        reveal_strlit("rigctld");
        reveal_strlit("cat");
        reveal_strlit("cm108");
        reveal_strlit("dtr");
        reveal_strlit("both");
        reveal_strlit("kenwood");
        reveal_strlit("icom");
        reveal_strlit("mic");
        reveal_strlit("500");
        reveal_strlit("json");
        reveal_strlit("beta");
        reveal_strlit("nightly");
    }
    let mut r: Vec<Rule> = Vec::new();
    // who and where
    r.push(bounded("operator.power_w", true, Some(POSITIVE), Some(2000 * ONE), "power is watts, above zero"));
    // the sound card
    r.push(scoped("audio.input", Scope::Hardware, true));
    r.push(scoped("audio.output", Scope::Hardware, true));
    r.push(chosen("audio.sample_rate", words("48000", "", "", "", ""), "the waveform is built around 48 kHz and nothing resamples"));
    r.push(bounded("audio.tx_level", false, Some(POSITIVE), Some(ONE), "the transmit level is a fraction of full scale"));
    // keying
    r.push(chosen("ptt.kind", words("none", "serial", "rigctld", "cat", "cm108"), "those are the ways this version can key a radio"));
    r.push(scoped("ptt.port", Scope::Hardware, false));
    r.push(scoped("ptt.device", Scope::Hardware, true));
    r.push(chosen("ptt.line", words("rts", "dtr", "both", "", ""), "a serial port has those two control lines"));
    r.push(chosen("ptt.protocol", words("yaesu", "kenwood", "icom", "", ""), "those are the command sets this version speaks"));
    r.push(chosen("ptt.source", words("data", "mic", "", "", ""), "it is accepted and ignored, but it has to be one of the two it once meant"));
    r.push(bounded("ptt.baud", false, Some(ONE), None, "a serial rate is a positive number of bits per second"));
    r.push(bounded("ptt.civ_address", true, Some(0), Some(255 * ONE), "a CI-V address is one byte (0x94 for an IC-7300, 0xA4 for an IC-705)"));
    r.push(bounded("ptt.gpio", false, Some(ONE), Some(8 * ONE), "the codec has eight pins, and the DRA and URI boards key on 3"));
    // the radio
    r.push(bounded("radio.max_key_s", false, Some(POSITIVE), None, "a watchdog that can never fire is not one"));
    r.push(chosen("radio.bandwidth", words("2300", "500", "", "", ""), "those are the waveforms this version has"));
    r.push(bounded("radio.max_mode", false, Some(0), Some(19 * ONE), "the ladder has twenty rungs: the tone floor's six and the fourteen OFDM modes"));
    // this installation
    r.push(scoped("control.enabled", Scope::Machine, false));
    r.push(scoped("control.bind", Scope::Machine, false));
    r.push(scoped("control.token", Scope::Secret, true));
    r.push(scoped("control.ui_dir", Scope::Machine, true));
    r.push(chosen("log.format", words("text", "json", "", "", ""), "the log is written for a terminal or for a log shipper"));
    r.push(scoped("log.file", Scope::Machine, true));
    r.push(chosen("update.channel", words("stable", "beta", "nightly", "", ""), "those are the release channels"));
    r.push(scoped("record.dir", Scope::Machine, true));
    r.push(scoped("sim.listen", Scope::Machine, true));
    r.push(scoped("sim.connect", Scope::Machine, true));
    r.push(scoped("sim.*", Scope::Machine, false));
    // the panel
    r.push(scoped("panel.interface", Scope::Portable, true));
    proof {
        assert(rule_models(r@) =~= rule_table());
    }
    r
}

/// Whether a `table.*` rule key covers a dotted key.
pub open spec fn covered(pattern: Seq<char>, key: Seq<char>) -> bool {
    let stem = without_suffix(pattern, ".*"@);
    has_at(pattern, ".*"@, pattern.len() - ".*"@.len()) && begins(key, stem) && begins(
        key.subrange(stem.len() as int, key.len() as int),
        "."@,
    )
}

/// Whether a `table.*` rule key covers a dotted key.
pub fn covers(pattern: &str, key: &str) -> (r: bool)
    ensures
        r == covered(pattern@, key@),
{
    proof {
        reveal_strlit(".*");
    }
    let chars = chars_of(pattern);
    let stem = strip_suffix(pattern, ".*");
    let n: usize = stem.unicode_len();
    if n == chars.len() {
        return false;
    }
    if !starts_with(key, &stem) {
        return false;
    }
    let whole = chars_of(key);
    let rest = text_of(&whole, n, whole.len());
    starts_with(&rest, ".")
}

/// The first rule, from `from` on, whose key this is.
pub open spec fn first_named(s: Seq<RuleModel>, key: Seq<char>, from: nat) -> nat
    decreases s.len() - from,
{
    if from >= s.len() || s[from as int].key == key { from } else { first_named(s, key, from + 1) }
}

/// The first rule, from `from` on, that covers a key.
pub open spec fn first_covering(s: Seq<RuleModel>, key: Seq<char>, from: nat) -> nat
    decreases s.len() - from,
{
    if from >= s.len() || covered(s[from as int].key, key) { from } else { first_covering(s, key, from + 1) }
}

/// The rule for a key: its own, the rule of the table it is in, or the default.
pub open spec fn rule_of(key: Seq<char>) -> RuleModel {
    let s = rule_table();
    let own = first_named(s, key, 0);
    let table = first_covering(s, key, 0);
    if own < s.len() {
        s[own as int]
    } else if table < s.len() {
        s[table as int]
    } else {
        bare(""@)
    }
}

/// The rule for a key: its own, the rule of the table it is in, or the default.
pub fn rule_for(key: &str) -> (r: Rule)
    ensures
        r@ == rule_of(key@),
{
    let mut all = rules();
    let ghost s = rule_table();
    let mut i: usize = 0;
    while i < all.len() && !same(all[i].key, key)
        invariant
            i <= all.len(),
            rule_models(all@) == s,
            first_named(s, key@, 0) == first_named(s, key@, i as nat),
        decreases all.len() - i,
    {
        proof {
            assert(s[i as int] == all@[i as int]@);
        }
        i += 1;
    }
    proof {
        if i < all@.len() {
            assert(s[i as int] == all@[i as int]@);
        }
    }
    if i < all.len() {
        return all.swap_remove(i);
    }
    i = 0;
    while i < all.len() && !covers(all[i].key, key)
        invariant
            i <= all.len(),
            rule_models(all@) == s,
            first_covering(s, key@, 0) == first_covering(s, key@, i as nat),
        decreases all.len() - i,
    {
        proof {
            assert(s[i as int] == all@[i as int]@);
        }
        i += 1;
    }
    proof {
        if i < all@.len() {
            assert(s[i as int] == all@[i as int]@);
        }
    }
    if i < all.len() {
        return all.swap_remove(i);
    }
    rule("")
}

/// Whether a profile carries this setting.
pub open spec fn carried(key: Seq<char>) -> bool {
    key != "schema_version"@ && rule_of(key).scope.travels()
}

/// Whether a profile carries this setting: every one but the file's own version, this
/// computer's wiring and the secrets.
pub fn is_portable(key: &str) -> (r: bool)
    ensures
        r == carried(key@),
{
    !same(key, "schema_version") && rule_for(key).scope.is_portable()
}

/// A name inside a table: the table's dotted name in front, where it has one.
pub open spec fn dotted(prefix: Seq<char>, key: Seq<char>) -> Seq<char> {
    if prefix.len() == 0 { key } else { prefix + "."@ + key }
}

/// Every leaf of a document, with its dotted name, in the document's order. A table that is
/// empty has none.
pub open spec fn leaves_of(prefix: Seq<char>, t: Tree) -> Seq<(Seq<char>, Tree)>
    decreases t,
{
    match t {
        Tree::Table(entries) => leaves_in(prefix, entries),
        _ => seq![(prefix, t)],
    }
}

/// Every leaf of a run of named values.
pub open spec fn leaves_in(prefix: Seq<char>, entries: Seq<(Seq<char>, Tree)>) -> Seq<(Seq<char>, Tree)>
    decreases entries,
{
    if entries.len() == 0 {
        Seq::empty()
    } else {
        leaves_in(prefix, entries.drop_last()) + leaves_of(dotted(prefix, entries.last().0), entries.last().1)
    }
}

/// What a leaf is.
pub open spec fn leaf_view(l: (String, Json)) -> (Seq<char>, Tree) {
    (l.0@, l.1@)
}

/// What a run of leaves is.
pub open spec fn leaf_views(s: Seq<(String, Json)>) -> Seq<(Seq<char>, Tree)> {
    s.map_values(|l: (String, Json)| leaf_view(l))
}

fn within(prefix: &str, key: &String) -> (r: String)
    ensures
        r@ == dotted(prefix@, key@),
{
    if prefix.is_empty() {
        key.clone()
    } else {
        let mut s = cat(prefix, ".");
        s.append(key);
        s
    }
}

/// Every leaf of a document, as its dotted key and its value, tables recursed into, added
/// behind what is there already.
pub fn leaves(prefix: &str, value: &Json, out: &mut Vec<(String, Json)>)
    ensures
        leaf_views(final(out)@) == leaf_views(old(out)@) + leaves_of(prefix@, value@),
    decreases value,
{
    let ghost start = leaf_views(out@);
    match value {
        Json::Table(entries) => {
            let mut i: usize = 0;
            proof {
                lemma_entries(entries@);
                assert(entries_of(entries@).subrange(0, 0) =~= Seq::empty());
                assert(start =~= start + Seq::<(Seq<char>, Tree)>::empty());
            }
            while i < entries.len()
                invariant
                    i <= entries.len(),
                    *value == Json::Table(*entries),
                    entries_of(entries@).len() == entries@.len(),
                    forall|j: int| 0 <= j < entries@.len() ==> #[trigger] entries_of(entries@)[j] == (entries@[j].0@, tree_of(entries@[j].1)),
                    leaf_views(out@) == start + leaves_in(prefix@, entries_of(entries@).subrange(0, i as int)),
                decreases entries.len() - i,
            {
                proof {
                    assert(decreases_to!(*value => value->Table_0));
                    assert(decreases_to!(*entries => entries@));
                    assert(decreases_to!(entries@ => entries@[i as int]));
                    assert(decreases_to!(entries@[i as int] => entries@[i as int].1));
                    let next = entries_of(entries@).subrange(0, i + 1);
                    assert(next.drop_last() =~= entries_of(entries@).subrange(0, i as int));
                    assert(next.last() == (entries@[i as int].0@, tree_of(entries@[i as int].1)));
                }
                let ghost so_far = leaves_in(prefix@, entries_of(entries@).subrange(0, i as int));
                let name = within(prefix, &entries[i].0);
                leaves(&name, &entries[i].1, out);
                proof {
                    assert(leaf_views(out@) =~= start + (so_far + leaves_of(name@, entries@[i as int].1@)));
                }
                i += 1;
            }
            proof {
                assert(entries_of(entries@).subrange(0, i as int) =~= entries_of(entries@));
            }
        },
        other => {
            let ghost before = out@;
            out.push((prefix.to_owned(), other.clone()));
            proof {
                assert(leaf_views(out@) =~= leaf_views(before).push((prefix@, value@)));
                assert(leaf_views(out@) =~= start + seq![(prefix@, value@)]);
            }
        },
    }
}

/// Whether a run of leaves has a key among its first `n`.
pub open spec fn has_key(s: Seq<(Seq<char>, Tree)>, key: Seq<char>) -> bool {
    exists|i: int| 0 <= i < s.len() && (#[trigger] s[i]).0 == key
}

/// A run of leaves with the first `n` of another behind it, without those whose key is there
/// already.
pub open spec fn joined_leaves(s: Seq<(Seq<char>, Tree)>, more: Seq<(Seq<char>, Tree)>, n: nat) -> Seq<(Seq<char>, Tree)>
    decreases n,
{
    if n == 0 {
        s
    } else {
        let before = joined_leaves(s, more, (n - 1) as nat);
        if has_key(before, more[n - 1].0) { before } else { before.push(more[n - 1]) }
    }
}

fn knows(s: &Vec<(String, Json)>, key: &str) -> (r: bool)
    ensures
        r == has_key(leaf_views(s@), key@),
{
    let mut i: usize = 0;
    while i < s.len()
        invariant
            i <= s.len(),
            forall|j: int| 0 <= j < i ==> (#[trigger] leaf_views(s@)[j]).0 != key@,
        decreases s.len() - i,
    {
        if same(&s[i].0, key) {
            proof {
                assert(leaf_views(s@)[i as int].0 == key@);
            }
            return true;
        }
        i += 1;
    }
    false
}

fn add_missing(out: &mut Vec<(String, Json)>, more: &Vec<(String, Json)>)
    ensures
        leaf_views(final(out)@) == joined_leaves(leaf_views(old(out)@), leaf_views(more@), more@.len()),
{
    let ghost start = leaf_views(out@);
    let mut i: usize = 0;
    while i < more.len()
        invariant
            i <= more.len(),
            leaf_views(out@) == joined_leaves(start, leaf_views(more@), i as nat),
        decreases more.len() - i,
    {
        proof {
            assert(leaf_views(more@)[i as int] == leaf_view(more@[i as int]));
        }
        if !knows(out, &more[i].0) {
            let ghost before = out@;
            out.push((more[i].0.clone(), more[i].1.clone()));
            proof {
                assert(leaf_views(out@) =~= leaf_views(before).push(leaf_view(more@[i as int])));
            }
        }
        i += 1;
    }
}

fn text(s: &str) -> (r: Json)
    ensures
        r@ == Tree::Text(s@),
{
    Json::Text(s.to_owned())
}

fn whole(n: u64) -> (r: Json)
    ensures
        r@ == Tree::Number(Number::Unsigned(n)),
{
    Json::Number(Number::Unsigned(n))
}

fn decimal(nano: i128) -> (r: Json)
    ensures
        r@ == Tree::Number(Number::Real(nano)),
{
    Json::Number(Number::Real(nano))
}

fn leaf(out: &mut Vec<(String, Json)>, key: &str, value: Json)
    ensures
        leaf_views(final(out)@) == leaf_views(old(out)@).push((key@, value@)),
{
    let ghost before = out@;
    out.push((key.to_owned(), value));
    proof {
        assert(leaf_views(out@) =~= leaf_views(before).push((key@, value@)));
    }
}

/// Every leaf of a configuration with every optional field set, so that every leaf has a type.
///
/// The keying section is one of several kinds and a file holds one kind at a time, so the
/// template alone cannot show every keying field.
pub open spec fn template_leaves() -> Seq<(Seq<char>, Tree)> {
    seq![
        ("schema_version"@, Tree::Number(Number::Unsigned(1))),
        ("callsign"@, Tree::Text("N0CALL"@)),
        ("operator.grid"@, Tree::Text("EM73tv"@)),
        ("operator.rig"@, Tree::Text("FTDX10"@)),
        ("operator.power_w"@, Tree::Number(Number::Real(30_000_000_000))),
        ("operator.antenna"@, Tree::Text("EFHW at 10 m"@)),
        ("audio.input"@, Tree::Text("USB Audio CODEC"@)),
        ("audio.output"@, Tree::Text("USB Audio CODEC"@)),
        ("audio.sample_rate"@, Tree::Number(Number::Unsigned(48000))),
        ("audio.tx_level"@, Tree::Number(Number::Real(250_000_000))),
        ("ptt.kind"@, Tree::Text("cat"@)),
        ("ptt.port"@, Tree::Text("COM6"@)),
        ("ptt.protocol"@, Tree::Text("icom"@)),
        ("ptt.baud"@, Tree::Number(Number::Unsigned(19200))),
        ("ptt.civ_address"@, Tree::Number(Number::Unsigned(148))),
        ("ptt.source"@, Tree::Text("data"@)),
        ("radio.max_key_s"@, Tree::Number(Number::Real(30_000_000_000))),
        ("radio.wait_for_clear"@, Tree::Bool(true)),
        ("radio.busy_threshold_db"@, Tree::Number(Number::Real(6_000_000_000))),
        ("radio.bandwidth"@, Tree::Number(Number::Unsigned(2300))),
        ("radio.answer_only"@, Tree::Bool(false)),
        ("radio.max_mode"@, Tree::Number(Number::Unsigned(19))),
        ("radio.compress"@, Tree::Bool(false)),
        ("radio.cw_id"@, Tree::Bool(false)),
        ("radio.cw_id_wpm"@, Tree::Number(Number::Real(20_000_000_000))),
        ("radio.cw_id_interval_s"@, Tree::Number(Number::Real(600_000_000_000))),
        ("control.enabled"@, Tree::Bool(true)),
        ("control.bind"@, Tree::Text("127.0.0.1:8515"@)),
        ("control.token"@, Tree::Text("a long random string"@)),
        ("control.ui_dir"@, Tree::Text("ui"@)),
        ("host.enabled"@, Tree::Bool(false)),
        ("host.bind"@, Tree::Text("127.0.0.1:8300"@)),
        ("host.trace"@, Tree::Bool(false)),
        ("log.format"@, Tree::Text("text"@)),
        ("log.file"@, Tree::Text("aetherd.log"@)),
        ("log.keep"@, Tree::Number(Number::Unsigned(500))),
        ("update.channel"@, Tree::Text("stable"@)),
        ("update.check"@, Tree::Bool(true)),
        ("record.dir"@, Tree::Text("recordings"@)),
        ("record.auto"@, Tree::Bool(false)),
        ("record.notes"@, Tree::Text(""@)),
        ("record.tx_audio"@, Tree::Bool(false)),
        ("sim.listen"@, Tree::Text("127.0.0.1:8600"@)),
        ("sim.connect"@, Tree::Text("127.0.0.1:8601"@)),
        ("sim.snr_db"@, Tree::Number(Number::Real(30_000_000_000))),
        ("panel.interface"@, Tree::Text("manual"@)),
        ("panel.waterfall.auto"@, Tree::Bool(true)),
        ("panel.waterfall.floor_db"@, Tree::Number(Number::Real((-90_000_000_000) as i128))),
        ("panel.waterfall.gain_db"@, Tree::Number(Number::Real(45_000_000_000))),
        ("panel.waterfall.speed"@, Tree::Number(Number::Unsigned(8))),
        ("panel.waterfall.palette"@, Tree::Text("aether"@)),
    ]
}

fn template() -> (r: Vec<(String, Json)>)
    ensures
        leaf_views(r@) == template_leaves(),
{
    let mut r: Vec<(String, Json)> = Vec::new();
    proof {
        assert(leaf_views(r@) =~= Seq::empty());
    }
    leaf(&mut r, "schema_version", whole(1));
    leaf(&mut r, "callsign", text("N0CALL"));
    leaf(&mut r, "operator.grid", text("EM73tv"));
    leaf(&mut r, "operator.rig", text("FTDX10"));
    leaf(&mut r, "operator.power_w", decimal(30_000_000_000));
    leaf(&mut r, "operator.antenna", text("EFHW at 10 m"));
    leaf(&mut r, "audio.input", text("USB Audio CODEC"));
    leaf(&mut r, "audio.output", text("USB Audio CODEC"));
    leaf(&mut r, "audio.sample_rate", whole(48000));
    leaf(&mut r, "audio.tx_level", decimal(250_000_000));
    leaf(&mut r, "ptt.kind", text("cat"));
    leaf(&mut r, "ptt.port", text("COM6"));
    leaf(&mut r, "ptt.protocol", text("icom"));
    leaf(&mut r, "ptt.baud", whole(19200));
    leaf(&mut r, "ptt.civ_address", whole(148));
    leaf(&mut r, "ptt.source", text("data"));
    leaf(&mut r, "radio.max_key_s", decimal(30_000_000_000));
    leaf(&mut r, "radio.wait_for_clear", Json::Bool(true));
    leaf(&mut r, "radio.busy_threshold_db", decimal(6_000_000_000));
    leaf(&mut r, "radio.bandwidth", whole(2300));
    leaf(&mut r, "radio.answer_only", Json::Bool(false));
    leaf(&mut r, "radio.max_mode", whole(19));
    leaf(&mut r, "radio.compress", Json::Bool(false));
    leaf(&mut r, "radio.cw_id", Json::Bool(false));
    leaf(&mut r, "radio.cw_id_wpm", decimal(20_000_000_000));
    leaf(&mut r, "radio.cw_id_interval_s", decimal(600_000_000_000));
    leaf(&mut r, "control.enabled", Json::Bool(true));
    leaf(&mut r, "control.bind", text("127.0.0.1:8515"));
    leaf(&mut r, "control.token", text("a long random string"));
    leaf(&mut r, "control.ui_dir", text("ui"));
    leaf(&mut r, "host.enabled", Json::Bool(false));
    leaf(&mut r, "host.bind", text("127.0.0.1:8300"));
    leaf(&mut r, "host.trace", Json::Bool(false));
    leaf(&mut r, "log.format", text("text"));
    leaf(&mut r, "log.file", text("aetherd.log"));
    leaf(&mut r, "log.keep", whole(500));
    leaf(&mut r, "update.channel", text("stable"));
    leaf(&mut r, "update.check", Json::Bool(true));
    leaf(&mut r, "record.dir", text("recordings"));
    leaf(&mut r, "record.auto", Json::Bool(false));
    leaf(&mut r, "record.notes", text(""));
    leaf(&mut r, "record.tx_audio", Json::Bool(false));
    leaf(&mut r, "sim.listen", text("127.0.0.1:8600"));
    leaf(&mut r, "sim.connect", text("127.0.0.1:8601"));
    leaf(&mut r, "sim.snr_db", decimal(30_000_000_000));
    leaf(&mut r, "panel.interface", text("manual"));
    leaf(&mut r, "panel.waterfall.auto", Json::Bool(true));
    leaf(&mut r, "panel.waterfall.floor_db", decimal(-90_000_000_000));
    leaf(&mut r, "panel.waterfall.gain_db", decimal(45_000_000_000));
    leaf(&mut r, "panel.waterfall.speed", whole(8));
    leaf(&mut r, "panel.waterfall.palette", text("aether"));
    proof {
        assert(leaf_views(r@) =~= template_leaves());
    }
    r
}

/// Every leaf of one keying section of each kind, every field set, for the union of keying
/// fields.
pub open spec fn keying_leaves() -> Seq<(Seq<char>, Tree)> {
    seq![
        ("ptt.kind"@, Tree::Text("none"@)),
        ("ptt.kind"@, Tree::Text("serial"@)),
        ("ptt.port"@, Tree::Text("COM7"@)),
        ("ptt.line"@, Tree::Text("rts"@)),
        ("ptt.kind"@, Tree::Text("rigctld"@)),
        ("ptt.address"@, Tree::Text("127.0.0.1:4532"@)),
        ("ptt.kind"@, Tree::Text("cat"@)),
        ("ptt.port"@, Tree::Text("COM6"@)),
        ("ptt.protocol"@, Tree::Text("icom"@)),
        ("ptt.baud"@, Tree::Number(Number::Unsigned(19200))),
        ("ptt.civ_address"@, Tree::Number(Number::Unsigned(148))),
        ("ptt.source"@, Tree::Text("data"@)),
        ("ptt.kind"@, Tree::Text("cm108"@)),
        ("ptt.device"@, Tree::Text("hid#vid_0d8c&pid_000c"@)),
        ("ptt.gpio"@, Tree::Number(Number::Unsigned(3))),
    ]
}

/// Every leaf of one keying section of each kind, every field set.
pub fn keying_kinds() -> (r: Vec<(String, Json)>)
    ensures
        leaf_views(r@) == keying_leaves(),
{
    let mut r: Vec<(String, Json)> = Vec::new();
    proof {
        assert(leaf_views(r@) =~= Seq::empty());
    }
    leaf(&mut r, "ptt.kind", text("none"));
    leaf(&mut r, "ptt.kind", text("serial"));
    leaf(&mut r, "ptt.port", text("COM7"));
    leaf(&mut r, "ptt.line", text("rts"));
    leaf(&mut r, "ptt.kind", text("rigctld"));
    leaf(&mut r, "ptt.address", text("127.0.0.1:4532"));
    leaf(&mut r, "ptt.kind", text("cat"));
    leaf(&mut r, "ptt.port", text("COM6"));
    leaf(&mut r, "ptt.protocol", text("icom"));
    leaf(&mut r, "ptt.baud", whole(19200));
    leaf(&mut r, "ptt.civ_address", whole(148));
    leaf(&mut r, "ptt.source", text("data"));
    leaf(&mut r, "ptt.kind", text("cm108"));
    leaf(&mut r, "ptt.device", text("hid#vid_0d8c&pid_000c"));
    leaf(&mut r, "ptt.gpio", whole(3));
    proof {
        assert(leaf_views(r@) =~= keying_leaves());
    }
    r
}

/// Leaves with those of one keying section of each kind added after, where they are new.
pub open spec fn with_keying(s: Seq<(Seq<char>, Tree)>) -> Seq<(Seq<char>, Tree)> {
    joined_leaves(s, keying_leaves(), keying_leaves().len())
}

/// The leaves of a document, with those of one keying section of each kind added after.
pub fn with_every_keying_kind(value: &Json) -> (r: Vec<(String, Json)>)
    ensures
        leaf_views(r@) == with_keying(leaves_of(""@, value@)),
{
    let mut out: Vec<(String, Json)> = Vec::new();
    proof {
        assert(leaf_views(out@) =~= Seq::empty());
        assert(Seq::<(Seq<char>, Tree)>::empty() + leaves_of(""@, value@) =~= leaves_of(""@, value@));
    }
    leaves("", value, &mut out);
    add_missing(&mut out, &keying_kinds());
    out
}

/// Every setting there is, with the value the template gives it.
pub open spec fn shape_leaves() -> Seq<(Seq<char>, Tree)> {
    with_keying(template_leaves())
}

/// Every setting there is, with the value the template gives it.
pub fn shapes() -> (r: Vec<(String, Json)>)
    ensures
        leaf_views(r@) == shape_leaves(),
{
    let mut out = template();
    add_missing(&mut out, &keying_kinds());
    out
}

/// Every key the configuration has, dotted, in the file's order with the keying kinds' fields
/// after the template's.
pub fn keys() -> (r: Vec<String>)
    ensures
        views(r@) == shape_leaves().map_values(|l: (Seq<char>, Tree)| l.0),
{
    let all = shapes();
    let ghost first = |l: (Seq<char>, Tree)| l.0;
    let mut out: Vec<String> = Vec::new();
    let mut i: usize = 0;
    proof {
        assert(views(out@) =~= leaf_views(all@).subrange(0, 0).map_values(first));
    }
    while i < all.len()
        invariant
            i <= all.len(),
            first == (|l: (Seq<char>, Tree)| l.0),
            views(out@) == leaf_views(all@).subrange(0, i as int).map_values(first),
        decreases all.len() - i,
    {
        let ghost before = out@;
        out.push(all[i].0.clone());
        proof {
            assert(views(out@) =~= views(before).push(all@[i as int].0@));
            assert(leaf_views(all@).subrange(0, i + 1).map_values(first) =~= leaf_views(all@).subrange(0, i as int).map_values(
                first,
            ).push(all@[i as int].0@));
        }
        i += 1;
    }
    proof {
        assert(leaf_views(all@).subrange(0, i as int) =~= leaf_views(all@));
    }
    out
}

/// The type of a value, by name.
pub open spec fn kind_of(t: Tree) -> Seq<char> {
    match t {
        Tree::Bool(_) => "boolean"@,
        Tree::Number(Number::Real(_)) => "number"@,
        Tree::Number(Number::Fine(_, _, _)) => "number"@,
        Tree::Number(_) => "integer"@,
        Tree::Text(_) => "string"@,
        Tree::Null => "null"@,
        Tree::List(_) => "array"@,
        Tree::Table(_) => "object"@,
    }
}

/// The type of a value, by name.
pub fn type_word(value: &Json) -> (r: &'static str)
    ensures
        r@ == kind_of(value@),
{
    match value {
        Json::Bool(_) => "boolean",
        Json::Number(Number::Real(_)) => "number",
        Json::Number(Number::Fine(_, _, _)) => "number",
        Json::Number(_) => "integer",
        Json::Text(_) => "string",
        Json::Null => "null",
        Json::List(_) => "array",
        Json::Table(_) => "object",
    }
}

/// Whether a value is of the type a setting has.
pub open spec fn of_type(key: Seq<char>, t: Tree, type_: Seq<char>) -> bool {
    match t {
        Tree::Null => rule_of(key).nullable,
        Tree::Bool(_) => type_ == "boolean"@,
        Tree::Text(_) => type_ == "string"@,
        Tree::Number(Number::Real(_)) => type_ == "number"@,
        Tree::Number(Number::Fine(_, _, _)) => type_ == "number"@,
        Tree::Number(_) => type_ == "number"@ || type_ == "integer"@,
        _ => false,
    }
}

/// Whether a value is of the type a setting has: the shape's, with null where the rule allows
/// it and an integer where a number is wanted.
pub fn fits(key: &str, value: &Json, type_: &str) -> (r: bool)
    ensures
        r == of_type(key@, value@, type_@),
{
    match value {
        Json::Null => rule_for(key).nullable,
        Json::Bool(_) => same(type_, "boolean"),
        Json::Text(_) => same(type_, "string"),
        Json::Number(Number::Real(_)) => same(type_, "number"),
        Json::Number(Number::Fine(_, _, _)) => same(type_, "number"),
        Json::Number(_) => same(type_, "number") || same(type_, "integer"),
        _ => false,
    }
}

/// One setting, as the schema describes it.
#[derive(Debug)]
pub struct Setting {
    /// The dotted key.
    pub key: String,
    /// `boolean`, `integer`, `number` or `string`.
    pub type_: &'static str,
    /// Whether unset is a value.
    pub nullable: bool,
    /// What a file that does not name it gets.
    pub default: Json,
    /// Whose it is.
    pub scope: Scope,
    /// Whether a change takes effect without a restart.
    pub live: bool,
    /// The smallest value allowed.
    pub min: Option<i128>,
    /// The largest value allowed.
    pub max: Option<i128>,
    /// The only values allowed.
    pub options: Vec<String>,
    /// Why the bound is what it is.
    pub why: &'static str,
}

/// What a setting is.
pub struct SettingModel {
    pub key: Seq<char>,
    pub type_: Seq<char>,
    pub default: Tree,
    pub live: bool,
    pub rule: RuleModel,
}

impl View for Setting {
    type V = SettingModel;

    open spec fn view(&self) -> SettingModel {
        SettingModel {
            key: self.key@,
            type_: self.type_@,
            default: self.default@,
            live: self.live,
            rule: RuleModel {
                key: rule_of(self.key@).key,
                scope: self.scope,
                nullable: self.nullable,
                min: self.min,
                max: self.max,
                options: views(self.options@),
                why: self.why@,
            },
        }
    }
}

/// How a setting is described: its rule, its type by the template, and its default, where
/// `defaults` are the leaves of the smallest configuration and `live` the keys that change
/// without a restart.
pub open spec fn described(l: (Seq<char>, Tree), defaults: Seq<(Seq<char>, Tree)>, live: Seq<String>) -> SettingModel {
    SettingModel {
        key: l.0,
        type_: kind_of(l.1),
        default: match lookup(defaults, l.0) {
            Some(t) => t,
            None => Tree::Null,
        },
        live: names(live, l.0),
        rule: rule_of(l.0),
    }
}

/// The descriptions of the first `n` settings of the template.
pub open spec fn descriptions(defaults: Seq<(Seq<char>, Tree)>, live: Seq<String>, n: nat) -> Seq<SettingModel>
    decreases n,
{
    if n == 0 {
        Seq::empty()
    } else {
        let before = descriptions(defaults, live, (n - 1) as nat);
        let l = shape_leaves()[n - 1];
        if l.0 == "schema_version"@ { before } else { before.push(described(l, defaults, live)) }
    }
}

/// What a run of settings is.
pub open spec fn setting_views(s: Seq<Setting>) -> Seq<SettingModel> {
    s.map_values(|x: Setting| x@)
}

fn describe_setting(l: &(String, Json), defaults: &Vec<(String, Json)>, live: &Vec<String>) -> (r: Setting)
    ensures
        r@ == described(leaf_view(*l), leaf_views(defaults@), live@),
{
    let rule = rule_for(&l.0);
    proof {
        lemma_entries(defaults@);
        assert(entries_of(defaults@) =~= leaf_views(defaults@));
    }
    let default = match find_key(defaults, &l.0) {
        Some(i) => defaults[i].1.clone(),
        None => Json::Null,
    };
    Setting {
        key: l.0.clone(),
        type_: type_word(&l.1),
        nullable: rule.nullable,
        default,
        scope: rule.scope,
        live: holds_text(live, &l.0),
        min: rule.min,
        max: rule.max,
        options: rule.options,
        why: rule.why,
    }
}

/// The registry: every setting, described. `plain` is the smallest configuration there is, as
/// a document, and `live` names the settings that change without a restart.
pub fn schema(plain: &Json, live: &Vec<String>) -> (r: Vec<Setting>)
    ensures
        setting_views(r@) == descriptions(with_keying(leaves_of(""@, plain@)), live@, shape_leaves().len()),
{
    let defaults = with_every_keying_kind(plain);
    let all = shapes();
    let ghost d = leaf_views(defaults@);
    let mut out: Vec<Setting> = Vec::new();
    let mut i: usize = 0;
    proof {
        assert(setting_views(out@) =~= Seq::empty());
    }
    while i < all.len()
        invariant
            i <= all.len(),
            leaf_views(all@) == shape_leaves(),
            d == leaf_views(defaults@),
            setting_views(out@) == descriptions(d, live@, i as nat),
        decreases all.len() - i,
    {
        proof {
            assert(shape_leaves()[i as int] == leaf_view(all@[i as int]));
        }
        if !same(&all[i].0, "schema_version") {
            let ghost before = out@;
            let setting = describe_setting(&all[i], &defaults, live);
            out.push(setting);
            proof {
                assert(setting_views(out@) =~= setting_views(before).push(setting@));
            }
        }
        i += 1;
    }
    out
}

/// The bound of a rule, in words.
pub open spec fn bound_text(min: Option<i128>, max: Option<i128>) -> Seq<char> {
    match (min, max) {
        (Some(low), Some(high)) => if low == POSITIVE {
            "above 0 and at most "@ + plain_decimal(high as int)
        } else {
            "between "@ + plain_decimal(low as int) + " and "@ + plain_decimal(high as int)
        },
        (Some(low), None) => if low == POSITIVE { "above 0"@ } else { "at least "@ + plain_decimal(low as int) },
        (None, Some(high)) => "at most "@ + plain_decimal(high as int),
        (None, None) => ""@,
    }
}

/// Whether a number is outside a rule's bounds.
pub open spec fn out_of_bounds(rule: RuleModel, n: Number) -> bool {
    (rule.min matches Some(low) && if low == POSITIVE { !n.above(0) } else { n.below(low as int) }) || (
    rule.max matches Some(high) && n.above(high as int))
}

/// How an option list takes a value: a text by what it says, anything else by how a document
/// writes it.
pub open spec fn option_text(t: Tree) -> Seq<char> {
    match t {
        Tree::Text(s) => s,
        _ => tree_text(t),
    }
}

/// How a value fails its rule, in a sentence, or nothing when it does not.
pub open spec fn breach(key: Seq<char>, t: Tree) -> Option<Seq<char>> {
    let rule = rule_of(key);
    if t is Null {
        None
    } else if rule.options.len() > 0 && !rule.options.contains(option_text(t)) {
        Some(key + " must be one of "@ + listed(rule.options) + ", not "@ + tree_text(t) + ": "@ + rule.why)
    } else if t is Number && out_of_bounds(rule, t->Number_0) {
        Some(key + " must be "@ + bound_text(rule.min, rule.max) + ", not "@ + tree_text(t) + ": "@ + rule.why)
    } else {
        None
    }
}

/// Texts in a list.
pub open spec fn listed(s: Seq<Seq<char>>) -> Seq<char>
    decreases s.len(),
{
    if s.len() == 0 {
        Seq::empty()
    } else if s.len() == 1 {
        s[0]
    } else {
        listed(s.drop_last()) + ", "@ + s.last()
    }
}

proof fn lemma_listed(s: Seq<String>)
    ensures
        listed(views(s)) == joined(s, ", "@),
    decreases s.len(),
{
    if s.len() > 1 {
        lemma_listed(s.drop_last());
        assert(views(s).drop_last() =~= views(s.drop_last()));
    }
}

proof fn lemma_names(s: Seq<String>, text: Seq<char>)
    ensures
        names(s, text) == views(s).contains(text),
{
    if names(s, text) {
        let i = choose|i: int| 0 <= i < s.len() && #[trigger] s[i]@ == text;
        assert(views(s)[i] == text);
    }
    if views(s).contains(text) {
        let i = choose|i: int| 0 <= i < views(s).len() && views(s)[i] == text;
        assert(s[i]@ == text);
    }
}

fn bound_words(min: Option<i128>, max: Option<i128>) -> (r: String)
    ensures
        r@ == bound_text(min, max),
{
    match (min, max) {
        (Some(low), Some(high)) => if low == POSITIVE {
            cat("above 0 and at most ", &decimal_text(high))
        } else {
            let mut s = cat("between ", &decimal_text(low));
            s.append(" and ");
            s.append(&decimal_text(high));
            s
        },
        (Some(low), None) => if low == POSITIVE { "above 0".to_owned() } else { cat("at least ", &decimal_text(low)) },
        (None, Some(high)) => cat("at most ", &decimal_text(high)),
        (None, None) => "".to_owned(),
    }
}

/// How a value fails its rule, in a sentence, or nothing when it does not.
///
/// `null` passes: whether the setting takes it is the type's business. A bound is checked on
/// any number; an option list on the value as a document writes it, so `2300` matches
/// `"2300"`.
pub fn violation(key: &str, value: &Json) -> (r: Option<String>)
    ensures
        match r {
            Some(s) => breach(key@, value@) == Some(s@),
            None => breach(key@, value@) is None,
        },
{
    let rule = rule_for(key);
    match value {
        Json::Null => return None,
        _ => {},
    }
    if rule.options.len() > 0 {
        let text = match value {
            Json::Text(s) => s.clone(),
            other => other.write(),
        };
        proof {
            lemma_names(rule.options@, text@);
            lemma_listed(rule.options@);
        }
        if !holds_text(&rule.options, &text) {
            let mut s = cat(key, " must be one of ");
            s.append(&join(&rule.options, ", "));
            s.append(", not ");
            s.append(&value.write());
            s.append(": ");
            s.append(rule.why);
            return Some(s);
        }
    }
    match value {
        Json::Number(n) => {
            let low: bool = match rule.min {
                Some(min) => if min == POSITIVE { !n.is_above(0) } else { n.is_below(min) },
                None => false,
            };
            let high: bool = match rule.max {
                Some(max) => n.is_above(max),
                None => false,
            };
            if low || high {
                let mut s = cat(key, " must be ");
                s.append(&bound_words(rule.min, rule.max));
                s.append(", not ");
                s.append(&value.write());
                s.append(": ");
                s.append(rule.why);
                return Some(s);
            }
            None
        },
        _ => None,
    }
}

/// The first breach among leaves, from `from` on.
pub open spec fn first_breach(s: Seq<(Seq<char>, Tree)>, from: nat) -> Option<Seq<char>>
    decreases s.len() - from,
{
    if from >= s.len() {
        None
    } else {
        match breach(s[from as int].0, s[from as int].1) {
            Some(why) => Some(why),
            None => first_breach(s, from + 1),
        }
    }
}

/// Every leaf of a configuration, held to its rule: the first breach, if there is one.
pub fn check_bounds(document: &Json) -> (r: Result<(), String>)
    ensures
        match r {
            Ok(_) => first_breach(leaves_of(""@, document@), 0) is None,
            Err(why) => first_breach(leaves_of(""@, document@), 0) == Some(why@),
        },
{
    let mut all: Vec<(String, Json)> = Vec::new();
    proof {
        assert(leaf_views(all@) =~= Seq::empty());
        assert(Seq::<(Seq<char>, Tree)>::empty() + leaves_of(""@, document@) =~= leaves_of(""@, document@));
    }
    leaves("", document, &mut all);
    let ghost s = leaf_views(all@);
    let mut i: usize = 0;
    while i < all.len()
        invariant
            i <= all.len(),
            s == leaf_views(all@),
            s == leaves_of(""@, document@),
            first_breach(s, 0) == first_breach(s, i as nat),
        decreases all.len() - i,
    {
        proof {
            assert(s[i as int] == leaf_view(all@[i as int]));
        }
        match violation(&all[i].0, &all[i].1) {
            Some(why) => return Err(why),
            None => {},
        }
        i += 1;
    }
    Ok(())
}

/// The parts of a text between full stops.
pub open spec fn parts(s: Seq<char>) -> Seq<Seq<char>>
    decreases s.len(),
{
    if s.len() == 0 {
        seq![Seq::empty()]
    } else {
        let before = parts(s.drop_last());
        if s.last() == '.' {
            before.push(Seq::empty())
        } else {
            before.update(before.len() - 1, before.last().push(s.last()))
        }
    }
}

proof fn lemma_parts_some(s: Seq<char>)
    ensures
        parts(s).len() >= 1,
    decreases s.len(),
{
    if s.len() > 0 {
        lemma_parts_some(s.drop_last());
    }
}

fn split(key: &str) -> (r: Vec<String>)
    ensures
        views(r@) == parts(key@),
        r@.len() >= 1,
{
    let chars = chars_of(key);
    let mut out: Vec<String> = Vec::new();
    let mut from: usize = 0;
    let mut i: usize = 0;
    proof {
        assert(key@.subrange(0, 0) =~= Seq::empty());
        assert(views(out@).push(chars@.subrange(0, 0)) =~= seq![Seq::empty()]);
    }
    while i < chars.len()
        invariant
            from <= i <= chars.len(),
            chars@ == key@,
            views(out@).push(chars@.subrange(from as int, i as int)) == parts(key@.subrange(0, i as int)),
        decreases chars.len() - i,
    {
        let ghost so_far = parts(key@.subrange(0, i as int));
        proof {
            let next = key@.subrange(0, i + 1);
            assert(next.drop_last() =~= key@.subrange(0, i as int));
            assert(next.last() == chars@[i as int]);
            assert(so_far.last() == chars@.subrange(from as int, i as int));
        }
        if chars[i] == '.' {
            let ghost before = out@;
            out.push(text_of(&chars, from, i));
            from = i + 1;
            proof {
                assert(views(out@) =~= so_far);
                assert(chars@.subrange(from as int, i + 1) =~= Seq::empty());
            }
        } else {
            proof {
                assert(chars@.subrange(from as int, i + 1) =~= chars@.subrange(from as int, i as int).push(chars@[i as int]));
                assert(views(out@).push(chars@.subrange(from as int, i + 1)) =~= so_far.update(
                    so_far.len() - 1,
                    so_far.last().push(chars@[i as int]),
                ));
            }
        }
        i += 1;
    }
    let ghost before = out@;
    out.push(text_of(&chars, from, chars.len()));
    proof {
        assert(key@.subrange(0, i as int) =~= key@);
        assert(views(out@) =~= views(before).push(chars@.subrange(from as int, i as int)));
    }
    out
}

/// The named values of a table; none where there is no table.
pub open spec fn table_entries(t: Tree) -> Seq<(Seq<char>, Tree)> {
    match t {
        Tree::Table(entries) => entries,
        _ => Seq::empty(),
    }
}

/// A document with a value at a path, tables made on the way where there are none.
pub open spec fn put_path(t: Tree, path: Seq<Seq<char>>, value: Tree) -> Tree
    decreases path.len(),
{
    if path.len() == 0 {
        t
    } else {
        let entries = table_entries(t);
        if path.len() == 1 {
            Tree::Table(put(entries, path[0], value))
        } else {
            let inner = match lookup(entries, path[0]) {
                Some(x) => x,
                None => Tree::Table(Seq::empty()),
            };
            Tree::Table(put(entries, path[0], put_path(inner, path.drop_first(), value)))
        }
    }
}

/// The value at a path, where there is one.
pub open spec fn get_path(t: Tree, path: Seq<Seq<char>>) -> Option<Tree>
    decreases path.len(),
{
    if path.len() == 0 {
        Some(t)
    } else {
        match field(t, path[0]) {
            Some(x) => get_path(x, path.drop_first()),
            None => None,
        }
    }
}

/// What is set under a key is what is found under it.
pub proof fn what_is_set_is_found(t: Tree, path: Seq<Seq<char>>, value: Tree)
    requires
        path.len() > 0,
    ensures
        get_path(put_path(t, path, value), path) == Some(value),
    decreases path.len(),
{
    let entries = table_entries(t);
    if path.len() == 1 {
        put_is_found(entries, path[0], value, path[0]);
        assert(get_path(value, path.drop_first()) == Some(value));
    } else {
        let inner = match lookup(entries, path[0]) {
            Some(x) => x,
            None => Tree::Table(Seq::empty()),
        };
        put_is_found(entries, path[0], put_path(inner, path.drop_first(), value), path[0]);
        what_is_set_is_found(inner, path.drop_first(), value);
    }
}

/// Whether what is at a path, if anything is, is a table.
pub open spec fn leads_on(t: Tree, path: Seq<Seq<char>>) -> bool {
    get_path(t, path) matches Some(x) ==> x is Table
}

/// Setting a key changes no other: a path that parts from it is found as it was.
pub proof fn setting_a_key_changes_no_other(t: Tree, path: Seq<Seq<char>>, value: Tree, other: Seq<Seq<char>>, n: int)
    requires
        0 <= n < path.len(),
        n < other.len(),
        path[n] != other[n],
        forall|i: int| 0 <= i < n ==> path[i] == other[i],
        t is Table,
        forall|k: int| 0 < k <= n ==> leads_on(t, #[trigger] other.subrange(0, k)),
    ensures
        get_path(put_path(t, path, value), other) == get_path(t, other),
    decreases n,
{
    let entries = table_entries(t);
    if n == 0 {
        if path.len() == 1 {
            put_is_found(entries, path[0], value, other[0]);
        } else {
            let inner = match lookup(entries, path[0]) {
                Some(x) => x,
                None => Tree::Table(Seq::empty()),
            };
            put_is_found(entries, path[0], put_path(inner, path.drop_first(), value), other[0]);
        }
    } else {
        assert(path[0] == other[0]);
        let found = lookup(entries, path[0]);
        let inner = match found {
            Some(x) => x,
            None => Tree::Table(Seq::empty()),
        };
        put_is_found(entries, path[0], put_path(inner, path.drop_first(), value), path[0]);
        let rest = other.drop_first();
        assert(other.subrange(0, 1).drop_first() =~= Seq::empty());
        assert(get_path(t, other.subrange(0, 1)) == found) by {
            assert(other.subrange(0, 1)[0] == other[0]);
            if found is Some {
                assert(get_path(found->0, other.subrange(0, 1).drop_first()) == found);
            }
        }
        assert(leads_on(t, other.subrange(0, 1)));
        assert(inner is Table);
        assert forall|k: int| 0 < k <= n - 1 implies leads_on(inner, #[trigger] rest.subrange(0, k)) by {
            let whole = other.subrange(0, k + 1);
            assert(whole.drop_first() =~= rest.subrange(0, k));
            assert(whole[0] == other[0]);
            if found is None {
                assert(rest.subrange(0, k).len() > 0);
                assert(lookup(Seq::<(Seq<char>, Tree)>::empty(), rest.subrange(0, k)[0]) is None);
            } else {
                assert(get_path(t, whole) == get_path(inner, rest.subrange(0, k)));
            }
        }
        setting_a_key_changes_no_other(inner, path.drop_first(), value, rest, n - 1);
        if found is None {
            assert(rest.len() > 0);
            assert(lookup(Seq::<(Seq<char>, Tree)>::empty(), rest[0]) is None);
            assert(get_path(inner, rest) is None);
        }
    }
}

fn put_at(document: Json, path: &Vec<String>, from: usize, value: Json) -> (r: Json)
    requires
        from < path.len(),
    ensures
        r@ == put_path(document@, views(path@).subrange(from as int, path@.len() as int), value@),
    decreases path.len() - from,
{
    let ghost whole = views(path@).subrange(from as int, path@.len() as int);
    let ghost before = document@;
    let mut entries: Vec<(String, Json)> = match document {
        Json::Table(entries) => entries,
        _ => Vec::new(),
    };
    let ghost old_entries = entries_of(entries@);
    proof {
        assert(old_entries =~= table_entries(before));
        assert(whole[0] == path@[from as int]@);
    }
    if from + 1 == path.len() {
        put_entry(&mut entries, &path[from], value);
        return Json::Table(entries);
    }
    let inner = match find_key(&entries, &path[from]) {
        Some(i) => entries[i].1.clone(),
        None => Json::Table(Vec::new()),
    };
    proof {
        assert(whole.drop_first() =~= views(path@).subrange(from + 1, path@.len() as int));
        assert(entries_of(Seq::<(String, Json)>::empty()) =~= Seq::empty());
    }
    let made = put_at(inner, path, from + 1, value);
    put_entry(&mut entries, &path[from], made);
    Json::Table(entries)
}

/// Set one dotted key in a document, making the tables on the way.
pub fn set_leaf(document: &mut Json, key: &str, value: Json)
    ensures
        final(document)@ == put_path(old(document)@, parts(key@), value@),
{
    let path = split(key);
    let mut whole = Json::Null;
    std::mem::swap(&mut whole, document);
    let made = put_at(whole, &path, 0, value);
    proof {
        assert(views(path@).subrange(0, path@.len() as int) =~= views(path@));
    }
    *document = made;
}

/// A secret and this computer's own wiring never travel: a profile carries no setting of
/// either scope, nor the file's version.
pub proof fn secrets_and_wiring_never_travel(key: Seq<char>)
    ensures
        carried(key) ==> rule_of(key).scope != Scope::Secret && rule_of(key).scope != Scope::Machine && key
            != "schema_version"@,
{
}

/// A value that keeps its rule is within its bounds and among its options; null always keeps
/// it.
pub proof fn what_passes_is_within_bounds(key: Seq<char>, t: Tree)
    ensures
        breach(key, Tree::Null) is None,
        breach(key, t) is None && t is Number ==> !out_of_bounds(rule_of(key), t->Number_0),
        breach(key, t) is None && !(t is Null) && rule_of(key).options.len() > 0 ==> rule_of(key).options.contains(
            option_text(t),
        ),
{
}

} // verus!
