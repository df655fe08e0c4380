//! What each transmission occupies.
//!
//! The occupancy table is measured: every rung of an air's ladder and both of its control
//! frames, under both readings of 47 CFR §97.3(a)(8). The policy turns these audio edges into
//! RF edges with the dial and the sideband; nothing compares a mode's *name* with a limit.
use vstd::prelude::*;

use crate::json::{entries_of, field, lemma_entries, lemma_trees, tree_of, trees_of, Json, Number, Tree};
use crate::json::read::json_value;
use crate::text::{cat, digits, nearest, parse_unsigned, quote, quoted, same, size, unsigned_in, whole};

verus! {

/// A frequency, or a difference of two, in thousandths of a hertz.
pub type Millihertz = i64;

/// One hertz.
pub const HERTZ: i64 = 1000;

/// A number, or the nearest one a frequency can be.
pub open spec fn clip(x: int) -> int {
    if x < i64::MIN { i64::MIN as int } else if x > i64::MAX { i64::MAX as int } else { x }
}

/// A number, or the nearest one a frequency can be.
pub fn clipped(x: i128) -> (r: i64)
    ensures
        r == clip(x as int),
{
    if x < -9223372036854775808 {
        i64::MIN
    } else if x > 9223372036854775807 {
        i64::MAX
    } else {
        x as i64
    }
}

/// Which reading of §97.3(a)(8) turns a spectrum into a bandwidth.
#[derive(Clone, Copy, PartialEq, Eq, Structural, Debug)]
pub enum Reading {
    /// The band holding all but 1/398 of the power.
    Power,
    /// The band outside which the density stays 26 dB below the mean density within it.
    Spectral,
    /// The wider of the two: the conservative choice where the rule can be read either way.
    Wider,
}

/// The audio a transmission occupies, under both readings: a lower and an upper edge each.
#[derive(Clone, Copy, PartialEq, Eq, Debug)]
pub struct Edges {
    /// All but 1/398 of the power.
    pub power: (Millihertz, Millihertz),
    /// Where the density stays 26 dB below the mean density within.
    pub spectral: (Millihertz, Millihertz),
}

fn lower(a: i64, b: i64) -> (r: i64)
    ensures
        r == least(a as int, b as int),
{
    if a <= b { a } else { b }
}

fn upper(a: i64, b: i64) -> (r: i64)
    ensures
        r == greatest(a as int, b as int),
{
    if a >= b { a } else { b }
}

/// The lesser of two numbers.
pub open spec fn least(a: int, b: int) -> int {
    if a <= b { a } else { b }
}

/// The greater of two numbers.
pub open spec fn greatest(a: int, b: int) -> int {
    if a >= b { a } else { b }
}

impl Edges {
    /// A narrow emission, a keyed or steady tone, `half_width` either side of `centre`, the
    /// same under both readings.
    pub fn tone(centre: Millihertz, half_width: Millihertz) -> (r: Edges)
        ensures
            r.power == r.spectral,
            r.power.0 == clip(centre - half_width),
            r.power.1 == clip(centre + half_width),
    {
        let low: i64 = clipped(centre as i128 - half_width as i128);
        let high: i64 = clipped(centre as i128 + half_width as i128);
        Edges { power: (low, high), spectral: (low, high) }
    }

    /// The same edges moved: offsets from the audio centre made absolute.
    pub fn shifted(self, by: Millihertz) -> (r: Edges)
        ensures
            r == self.moved(by),
    {
        Edges {
            power: (clipped(self.power.0 as i128 + by as i128), clipped(self.power.1 as i128 + by as i128)),
            spectral: (
                clipped(self.spectral.0 as i128 + by as i128),
                clipped(self.spectral.1 as i128 + by as i128),
            ),
        }
    }

    /// The same edges moved.
    pub open spec fn moved(self, by: Millihertz) -> Edges {
        Edges {
            power: (clip(self.power.0 + by) as i64, clip(self.power.1 + by) as i64),
            spectral: (clip(self.spectral.0 + by) as i64, clip(self.spectral.1 + by) as i64),
        }
    }

    /// The edges a reading takes.
    pub open spec fn under(self, reading: Reading) -> (int, int) {
        match reading {
            Reading::Power => (self.power.0 as int, self.power.1 as int),
            Reading::Spectral => (self.spectral.0 as int, self.spectral.1 as int),
            Reading::Wider => (
                least(self.power.0 as int, self.spectral.0 as int),
                greatest(self.power.1 as int, self.spectral.1 as int),
            ),
        }
    }

    /// The edges a reading takes.
    pub fn range(&self, reading: Reading) -> (r: (Millihertz, Millihertz))
        ensures
            (r.0 as int, r.1 as int) == self.under(reading),
    {
        match reading {
            Reading::Power => self.power,
            Reading::Spectral => self.spectral,
            Reading::Wider => (
                lower(self.power.0, self.spectral.0),
                upper(self.power.1, self.spectral.1),
            ),
        }
    }

    /// The smallest edges that hold both: a burst of frames of more than one kind.
    pub open spec fn with(self, other: Edges) -> Edges {
        Edges {
            power: (
                least(self.power.0 as int, other.power.0 as int) as i64,
                greatest(self.power.1 as int, other.power.1 as int) as i64,
            ),
            spectral: (
                least(self.spectral.0 as int, other.spectral.0 as int) as i64,
                greatest(self.spectral.1 as int, other.spectral.1 as int) as i64,
            ),
        }
    }

    /// The smallest edges that hold both.
    pub fn union(self, other: Edges) -> (r: Edges)
        ensures
            r == self.with(other),
    {
        Edges {
            power: (lower(self.power.0, other.power.0), upper(self.power.1, other.power.1)),
            spectral: (
                lower(self.spectral.0, other.spectral.0),
                upper(self.spectral.1, other.spectral.1),
            ),
        }
    }
}

/// A union holds both of its parts under every reading, and nothing smaller does: each of its
/// edges is an edge of one of them.
pub proof fn union_holds_both_and_no_more(a: Edges, b: Edges, reading: Reading)
    ensures
        a.with(b).under(reading).0 <= a.under(reading).0,
        a.with(b).under(reading).0 <= b.under(reading).0,
        a.with(b).under(reading).1 >= a.under(reading).1,
        a.with(b).under(reading).1 >= b.under(reading).1,
        a.with(b).under(reading).0 == a.under(reading).0 || a.with(b).under(reading).0 == b.under(reading).0,
        a.with(b).under(reading).1 == a.under(reading).1 || a.with(b).under(reading).1 == b.under(reading).1,
        a.with(b) == b.with(a),
        a.with(a) == a,
{
}

/// The wider reading is never narrower than either of the others.
pub proof fn wider_reading_holds_the_others(e: Edges)
    ensures
        e.under(Reading::Wider).0 <= e.under(Reading::Power).0,
        e.under(Reading::Wider).0 <= e.under(Reading::Spectral).0,
        e.under(Reading::Wider).1 >= e.under(Reading::Power).1,
        e.under(Reading::Wider).1 >= e.under(Reading::Spectral).1,
{
}

/// Half the width the Morse identifier is allowed either side of its tone.
pub const CW_HALF_WIDTH_HZ: i64 = 100_000;

/// Half the width the tune tone is allowed either side of its frequency.
pub const TONE_HALF_WIDTH_HZ: i64 = 25_000;

/// One rung of an air's ladder.
#[derive(Clone, PartialEq, Debug)]
pub struct RungOccupancy {
    /// The rung's name: a tone kind or an OFDM mode.
    pub name: String,
    /// Whether it is a tone-floor kind.
    pub tone: bool,
    /// What it occupies, absolute audio frequencies.
    pub edges: Edges,
}

/// One air interface's transmissions, as absolute audio frequencies.
#[derive(Clone, PartialEq, Debug)]
pub struct AirOccupancy {
    /// The air's nominal bandwidth, hertz: 2300 or 500.
    pub bandwidth_hz: u64,
    /// The audio frequency the waveform is centred on.
    pub centre: Millihertz,
    /// Every rung of the ladder, in order.
    pub rungs: Vec<RungOccupancy>,
    /// The ordinary family's control frame.
    pub control_ordinary: Edges,
    /// The tone floor's control frame.
    pub control_floor: Edges,
}

/// What a rung is.
pub struct RungModel {
    pub name: Seq<char>,
    pub tone: bool,
    pub edges: Edges,
}

/// What an air is.
pub struct AirModel {
    pub bandwidth_hz: u64,
    pub centre: Millihertz,
    pub rungs: Seq<RungModel>,
    pub control_ordinary: Edges,
    pub control_floor: Edges,
}

/// What a run of rungs is.
pub open spec fn rung_models(s: Seq<RungOccupancy>) -> Seq<RungModel> {
    s.map_values(|r: RungOccupancy| RungModel { name: r.name@, tone: r.tone, edges: r.edges })
}

impl View for AirOccupancy {
    type V = AirModel;

    open spec fn view(&self) -> AirModel {
        AirModel {
            bandwidth_hz: self.bandwidth_hz,
            centre: self.centre,
            rungs: rung_models(self.rungs@),
            control_ordinary: self.control_ordinary,
            control_floor: self.control_floor,
        }
    }
}

impl AirOccupancy {
    /// What a rung's data frames occupy.
    pub fn rung(&self, rung: usize) -> (r: Option<Edges>)
        ensures
            r == if rung < self.rungs@.len() { Some(self.rungs@[rung as int].edges) } else { None },
    {
        if rung < self.rungs.len() { Some(self.rungs[rung].edges) } else { None }
    }

    /// What the control frame of a family occupies.
    pub open spec fn controls(self, floor: bool) -> Edges {
        if floor { self.control_floor } else { self.control_ordinary }
    }

    /// What the control frame of a family occupies.
    pub fn control(&self, floor: bool) -> (r: Edges)
        ensures
            r == self.controls(floor),
    {
        if floor { self.control_floor } else { self.control_ordinary }
    }
}

/// A rung as the table writes it: edges from the audio centre.
pub struct RungEntry {
    /// Its place in the ladder.
    pub rung: u64,
    /// Its name.
    pub name: String,
    /// Its family.
    pub family: String,
    /// Its edges.
    pub edges: Edges,
}

/// An air as the table writes it.
pub struct AirEntry {
    /// Its key: the nominal bandwidth.
    pub name: String,
    /// The audio centre.
    pub centre: Millihertz,
    /// Its rungs.
    pub rungs: Vec<RungEntry>,
    /// The ordinary control frame.
    pub ordinary: Edges,
    /// The tone floor's control frame.
    pub floor: Edges,
}

/// What a rung of the table is.
pub struct RungLine {
    pub rung: u64,
    pub name: Seq<char>,
    pub family: Seq<char>,
    pub edges: Edges,
}

/// What an air of the table is.
pub struct AirLine {
    pub name: Seq<char>,
    pub centre: Millihertz,
    pub rungs: Seq<RungLine>,
    pub ordinary: Edges,
    pub floor: Edges,
}

/// What a run of rungs of the table is.
pub open spec fn rung_lines(s: Seq<RungEntry>) -> Seq<RungLine> {
    s.map_values(|r: RungEntry| RungLine { rung: r.rung, name: r.name@, family: r.family@, edges: r.edges })
}

/// What an air of the table is.
pub open spec fn air_line(a: AirEntry) -> AirLine {
    AirLine {
        name: a.name@,
        centre: a.centre,
        rungs: rung_lines(a.rungs@),
        ordinary: a.ordinary,
        floor: a.floor,
    }
}

/// A number of a document as a frequency given in hertz.
pub open spec fn frequency(n: Number) -> i64 {
    let m = nearest(size(n.nano()), 1_000_000) as int;
    clip(if n.nano() < 0 { -m } else { m }) as i64
}

fn frequency_of(n: Number) -> (r: i64)
    ensures
        r == frequency(n),
{
    let v: i128 = n.billionths();
    if v == i128::MIN {
        return i64::MIN;
    }
    let a: i128 = if v < 0 { -v } else { v };
    let q: i128 = a / 1_000_000;
    let rest: i128 = a % 1_000_000;
    let m: i128 = if 2 * rest < 1_000_000 || (2 * rest == 1_000_000 && q % 2 == 0) { q } else { q + 1 };
    clipped(if v < 0 { -m } else { m })
}

/// A number of a table, by name, as a frequency.
pub open spec fn frequency_field(t: Tree, key: Seq<char>) -> Option<i64> {
    match field(t, key) {
        Some(Tree::Number(n)) => Some(frequency(n)),
        _ => None,
    }
}

fn read_frequency(j: &Json, key: &str) -> (r: Option<i64>)
    ensures
        r == frequency_field(j@, key@),
{
    match j.get(key) {
        Some(Json::Number(n)) => Some(frequency_of(*n)),
        _ => None,
    }
}

/// A text of a table, by name.
pub open spec fn text_field(t: Tree, key: Seq<char>) -> Option<Seq<char>> {
    match field(t, key) {
        Some(Tree::Text(s)) => Some(s),
        _ => None,
    }
}

fn read_text(j: &Json, key: &str) -> (r: Option<String>)
    ensures
        match r {
            Some(s) => text_field(j@, key@) == Some(s@),
            None => text_field(j@, key@) is None,
        },
{
    match j.get(key) {
        Some(Json::Text(s)) => Some(s.clone()),
        _ => None,
    }
}

/// Two numbers of a table, by name, as frequencies.
pub open spec fn pair_field(t: Tree, key: Seq<char>) -> Option<(i64, i64)> {
    match field(t, key) {
        Some(Tree::List(items)) => if items.len() == 2 {
            match (items[0], items[1]) {
                (Tree::Number(a), Tree::Number(b)) => Some((frequency(a), frequency(b))),
                _ => None,
            }
        } else {
            None
        },
        _ => None,
    }
}

fn read_pair(j: &Json, key: &str) -> (r: Option<(i64, i64)>)
    ensures
        r == pair_field(j@, key@),
{
    match j.get(key) {
        Some(Json::List(items)) => {
            proof {
                lemma_trees(items@);
            }
            if items.len() != 2 {
                return None;
            }
            proof {
                assert(trees_of(items@)[0] == tree_of(items@[0]));
                assert(trees_of(items@)[1] == tree_of(items@[1]));
            }
            match (&items[0], &items[1]) {
                (Json::Number(a), Json::Number(b)) => Some((frequency_of(*a), frequency_of(*b))),
                _ => None,
            }
        },
        _ => None,
    }
}

/// The edges a table gives.
pub open spec fn edges_in(t: Tree) -> Option<Edges> {
    match (pair_field(t, "power"@), pair_field(t, "spectral"@)) {
        (Some(power), Some(spectral)) => Some(Edges { power, spectral }),
        _ => None,
    }
}

fn read_edges(j: &Json) -> (r: Option<Edges>)
    ensures
        r == edges_in(j@),
{
    match (read_pair(j, "power"), read_pair(j, "spectral")) {
        (Some(power), Some(spectral)) => Some(Edges { power, spectral }),
        _ => None,
    }
}

/// The rung a table gives.
pub open spec fn rung_in(t: Tree) -> Option<RungLine> {
    match (field(t, "rung"@), text_field(t, "name"@), text_field(t, "family"@), edges_in(t)) {
        (Some(Tree::Number(Number::Unsigned(rung))), Some(name), Some(family), Some(edges)) => Some(
            RungLine { rung, name, family, edges },
        ),
        _ => None,
    }
}

fn read_rung(j: &Json) -> (r: Option<RungEntry>)
    ensures
        match r {
            Some(e) => rung_in(j@) == Some(RungLine { rung: e.rung, name: e.name@, family: e.family@, edges: e.edges }),
            None => rung_in(j@) is None,
        },
{
    let rung: u64 = match j.get("rung") {
        Some(Json::Number(Number::Unsigned(n))) => *n,
        _ => return None,
    };
    match (read_text(j, "name"), read_text(j, "family"), read_edges(j)) {
        (Some(name), Some(family), Some(edges)) => Some(RungEntry { rung, name, family, edges }),
        _ => None,
    }
}

/// The rungs a list gives.
pub open spec fn rungs_in(s: Seq<Tree>) -> Option<Seq<RungLine>>
    decreases s.len(),
{
    if s.len() == 0 {
        Some(Seq::empty())
    } else {
        match (rungs_in(s.drop_last()), rung_in(s.last())) {
            (Some(before), Some(rung)) => Some(before.push(rung)),
            _ => None,
        }
    }
}

/// A list gives no rungs when a part of it gives none.
proof fn lemma_rungs_prefix(s: Seq<Tree>, n: int)
    requires
        0 <= n <= s.len(),
        rungs_in(s.subrange(0, n)) is None,
    ensures
        rungs_in(s) is None,
    decreases s.len(),
{
    if n == s.len() {
        assert(s.subrange(0, n) =~= s);
    } else {
        assert(s.drop_last().subrange(0, n) =~= s.subrange(0, n));
        lemma_rungs_prefix(s.drop_last(), n);
    }
}

fn read_rungs(items: &Vec<Json>) -> (r: Option<Vec<RungEntry>>)
    ensures
        match r {
            Some(v) => rungs_in(trees_of(items@)) == Some(rung_lines(v@)),
            None => rungs_in(trees_of(items@)) is None,
        },
{
    proof {
        lemma_trees(items@);
    }
    let mut out: Vec<RungEntry> = Vec::new();
    let mut i: usize = 0;
    proof {
        assert(rung_lines(out@) =~= Seq::empty());
    }
    while i < items.len()
        invariant
            i <= items.len(),
            trees_of(items@).len() == items@.len(),
            forall|j: int| 0 <= j < items@.len() ==> #[trigger] trees_of(items@)[j] == tree_of(items@[j]),
            rungs_in(trees_of(items@).subrange(0, i as int)) == Some(rung_lines(out@)),
        decreases items.len() - i,
    {
        let ghost all = trees_of(items@);
        proof {
            let next = all.subrange(0, i + 1);
            assert(next.drop_last() =~= all.subrange(0, i as int));
            assert(next.last() == all[i as int]);
        }
        match read_rung(&items[i]) {
            Some(entry) => {
                let ghost before = out@;
                out.push(entry);
                proof {
                    assert(rung_lines(out@) =~= rung_lines(before).push(
                        RungLine { rung: entry.rung, name: entry.name@, family: entry.family@, edges: entry.edges }));
                }
            },
            None => {
                proof {
                    lemma_rungs_prefix(all, i + 1);
                }
                return None;
            },
        }
        i += 1;
    }
    proof {
        assert(trees_of(items@).subrange(0, items@.len() as int) =~= trees_of(items@));
    }
    Some(out)
}

/// The air a named table gives.
pub open spec fn air_in(name: Seq<char>, t: Tree) -> Option<AirLine> {
    match (frequency_field(t, "centre_hz"@), field(t, "rungs"@), field(t, "control"@)) {
        (Some(centre), Some(Tree::List(items)), Some(control)) => match (
            rungs_in(items),
            field(control, "ordinary"@),
            field(control, "floor"@),
        ) {
            (Some(rungs), Some(o), Some(f)) => match (edges_in(o), edges_in(f)) {
                (Some(ordinary), Some(floor)) => Some(AirLine { name, centre, rungs, ordinary, floor }),
                _ => None,
            },
            _ => None,
        },
        _ => None,
    }
}

fn read_air(name: &String, j: &Json) -> (r: Option<AirEntry>)
    ensures
        match r {
            Some(a) => air_in(name@, j@) == Some(air_line(a)),
            None => air_in(name@, j@) is None,
        },
{
    let centre: i64 = match read_frequency(j, "centre_hz") {
        Some(c) => c,
        None => return None,
    };
    let items = match j.get("rungs") {
        Some(Json::List(items)) => items,
        _ => return None,
    };
    let control = match j.get("control") {
        Some(c) => c,
        None => return None,
    };
    let rungs = match read_rungs(items) {
        Some(r) => r,
        None => return None,
    };
    let (o, f) = match (control.get("ordinary"), control.get("floor")) {
        (Some(o), Some(f)) => (o, f),
        _ => return None,
    };
    match (read_edges(o), read_edges(f)) {
        (Some(ordinary), Some(floor)) => Some(AirEntry { name: name.clone(), centre, rungs, ordinary, floor }),
        _ => None,
    }
}

/// The airs named tables give.
pub open spec fn airs_in(s: Seq<(Seq<char>, Tree)>) -> Option<Seq<AirLine>>
    decreases s.len(),
{
    if s.len() == 0 {
        Some(Seq::empty())
    } else {
        match (airs_in(s.drop_last()), air_in(s.last().0, s.last().1)) {
            (Some(before), Some(air)) => Some(before.push(air)),
            _ => None,
        }
    }
}

proof fn lemma_airs_prefix(s: Seq<(Seq<char>, Tree)>, n: int)
    requires
        0 <= n <= s.len(),
        airs_in(s.subrange(0, n)) is None,
    ensures
        airs_in(s) is None,
    decreases s.len(),
{
    if n == s.len() {
        assert(s.subrange(0, n) =~= s);
    } else {
        assert(s.drop_last().subrange(0, n) =~= s.subrange(0, n));
        lemma_airs_prefix(s.drop_last(), n);
    }
}

/// What a run of airs of the table is.
pub open spec fn air_lines(s: Seq<AirEntry>) -> Seq<AirLine> {
    s.map_values(|a: AirEntry| air_line(a))
}

fn read_airs(entries: &Vec<(String, Json)>) -> (r: Option<Vec<AirEntry>>)
    ensures
        match r {
            Some(v) => airs_in(entries_of(entries@)) == Some(air_lines(v@)),
            None => airs_in(entries_of(entries@)) is None,
        },
{
    proof {
        lemma_entries(entries@);
    }
    let mut out: Vec<AirEntry> = Vec::new();
    let mut i: usize = 0;
    proof {
        assert(air_lines(out@) =~= Seq::empty());
    }
    while i < entries.len()
        invariant
            i <= entries.len(),
            entries_of(entries@).len() == entries@.len(),
            forall|j: int| 0 <= j < entries@.len() ==> #[trigger] entries_of(entries@)[j] == (entries@[j].0@, tree_of(entries@[j].1)),
            airs_in(entries_of(entries@).subrange(0, i as int)) == Some(air_lines(out@)),
        decreases entries.len() - i,
    {
        let ghost all = entries_of(entries@);
        proof {
            let next = all.subrange(0, i + 1);
            assert(next.drop_last() =~= all.subrange(0, i as int));
            assert(next.last() == all[i as int]);
        }
        match read_air(&entries[i].0, &entries[i].1) {
            Some(air) => {
                let ghost before = out@;
                out.push(air);
                proof {
                    assert(air_lines(out@) =~= air_lines(before).push(air_line(air)));
                }
            },
            None => {
                proof {
                    lemma_airs_prefix(all, i + 1);
                }
                return None;
            },
        }
        i += 1;
    }
    proof {
        assert(entries_of(entries@).subrange(0, entries@.len() as int) =~= entries_of(entries@));
    }
    Some(out)
}

/// Whether a rung of the table is out of its place, or has its edges the wrong way round.
pub open spec fn bad_rung(r: RungLine, index: int) -> bool {
    r.rung != index || r.edges.power.0 >= r.edges.power.1
}

/// A rung of the table, made absolute.
pub open spec fn placed(r: RungLine, centre: i64) -> RungModel {
    RungModel { name: r.name, tone: r.family == "tone"@, edges: r.edges.moved(centre) }
}

/// The air a line of the table describes, or what is wrong with it.
pub open spec fn air_from(a: AirLine) -> Result<AirModel, Seq<char>> {
    match unsigned_in(a.name) {
        None => Err("occupancy.json names an air "@ + quoted(a.name)),
        Some(width) => if exists|i: int| 0 <= i < a.rungs.len() && bad_rung(#[trigger] a.rungs[i], i) {
            Err(rung_error(first_bad_rung(a.rungs, 0), a.name))
        } else {
            Ok(
                AirModel {
                    bandwidth_hz: width,
                    centre: a.centre,
                    rungs: a.rungs.map_values(|r: RungLine| placed(r, a.centre)),
                    control_ordinary: a.ordinary.moved(a.centre),
                    control_floor: a.floor.moved(a.centre),
                },
            )
        },
    }
}

/// The first rung, from `from` on, that is out of place or the wrong way round.
pub open spec fn first_bad_rung(s: Seq<RungLine>, from: nat) -> nat
    decreases s.len() - from,
{
    if from >= s.len() || bad_rung(s[from as int], from as int) {
        from
    } else {
        first_bad_rung(s, from + 1)
    }
}

/// What is said of a bad rung.
pub open spec fn rung_error(index: nat, name: Seq<char>) -> Seq<char> {
    "occupancy.json: rung "@ + digits(index) + " of the "@ + name + " Hz air"@
}

proof fn lemma_first_bad_rung(s: Seq<RungLine>, from: nat, n: nat)
    requires
        from <= n < s.len(),
        bad_rung(s[n as int], n as int),
        forall|i: int| from <= i < n ==> !bad_rung(#[trigger] s[i], i),
    ensures
        first_bad_rung(s, from) == n,
    decreases n - from,
{
    if from < n {
        lemma_first_bad_rung(s, from + 1, n);
    }
}

fn build_air(a: AirEntry) -> (r: Result<AirOccupancy, String>)
    ensures
        match r {
            Ok(air) => air_from(air_line(a)) == Ok::<AirModel, Seq<char>>(air@),
            Err(e) => air_from(air_line(a)) == Err::<AirModel, Seq<char>>(e@),
        },
{
    let ghost line = air_line(a);
    let width: u64 = match parse_unsigned(&a.name) {
        Some(w) => w,
        None => {
            let q = quote(&a.name);
            return Err(cat("occupancy.json names an air ", &q));
        },
    };
    let mut rungs: Vec<RungOccupancy> = Vec::new();
    let mut i: usize = 0;
    while i < a.rungs.len()
        invariant
            i <= a.rungs.len(),
            line == air_line(a),
            unsigned_in(line.name) == Some(width),
            forall|j: int| 0 <= j < i ==> !bad_rung(#[trigger] line.rungs[j], j),
            rung_models(rungs@) == line.rungs.subrange(0, i as int).map_values(|r: RungLine| placed(r, line.centre)),
        decreases a.rungs.len() - i,
    {
        proof {
            assert(line.rungs[i as int] == RungLine {
                rung: a.rungs@[i as int].rung,
                name: a.rungs@[i as int].name@,
                family: a.rungs@[i as int].family@,
                edges: a.rungs@[i as int].edges,
            });
        }
        if a.rungs[i].rung != i as u64 || a.rungs[i].edges.power.0 >= a.rungs[i].edges.power.1 {
            proof {
                assert(bad_rung(line.rungs[i as int], i as int));
                lemma_first_bad_rung(line.rungs, 0, i as nat);
            }
            let mut e = cat("occupancy.json: rung ", &whole(i as u128));
            e.append(" of the ");
            e.append(&a.name);
            e.append(" Hz air");
            return Err(e);
        }
        let ghost before = rungs@;
        let rung = RungOccupancy {
            name: a.rungs[i].name.clone(),
            tone: same(&a.rungs[i].family, "tone"),
            edges: a.rungs[i].edges.shifted(a.centre),
        };
        rungs.push(rung);
        proof {
            let f = |r: RungLine| placed(r, line.centre);
            assert(line.rungs.subrange(0, i + 1).map_values(f) =~= line.rungs.subrange(0, i as int).map_values(f).push(
                f(line.rungs[i as int])));
            assert(rung_models(rungs@) =~= rung_models(before).push(placed(line.rungs[i as int], line.centre)));
        }
        i += 1;
    }
    proof {
        assert(line.rungs.subrange(0, i as int) =~= line.rungs);
    }
    Ok(
        AirOccupancy {
            bandwidth_hz: width,
            centre: a.centre,
            rungs,
            control_ordinary: a.ordinary.shifted(a.centre),
            control_floor: a.floor.shifted(a.centre),
        },
    )
}

/// The airs the lines of a table describe, or the first thing that is wrong.
pub open spec fn airs_from(s: Seq<AirLine>) -> Result<Seq<AirModel>, Seq<char>>
    decreases s.len(),
{
    if s.len() == 0 {
        Ok(Seq::empty())
    } else {
        match airs_from(s.drop_last()) {
            Err(e) => Err(e),
            Ok(before) => match air_from(s.last()) {
                Err(e) => Err(e),
                Ok(air) => Ok(before.push(air)),
            },
        }
    }
}

proof fn lemma_airs_from_prefix(s: Seq<AirLine>, n: int)
    requires
        0 <= n <= s.len(),
        airs_from(s.subrange(0, n)) is Err,
    ensures
        airs_from(s) == airs_from(s.subrange(0, n)),
    decreases s.len(),
{
    if n == s.len() {
        assert(s.subrange(0, n) =~= s);
    } else {
        assert(s.drop_last().subrange(0, n) =~= s.subrange(0, n));
        lemma_airs_from_prefix(s.drop_last(), n);
    }
}

/// What a run of airs is.
pub open spec fn air_models(s: Seq<AirOccupancy>) -> Seq<AirModel> {
    s.map_values(|a: AirOccupancy| a@)
}

/// The occupancy table a document is, or what is wrong with it. A document of another shape
/// is an error before any of its contents is looked at.
pub open spec fn table_in(t: Tree) -> Result<Seq<AirModel>, Seq<char>> {
    match field(t, "airs"@) {
        Some(Tree::Table(entries)) => match airs_in(entries) {
            Some(lines) => airs_from(lines),
            None => Err("occupancy.json is malformed: an air is not written as one"@),
        },
        _ => Err("occupancy.json is malformed: it has no table of airs"@),
    }
}

/// Read an occupancy table from its text.
///
/// A malformed table is an error, never a guess.
pub fn parse(text: &str) -> (r: Result<Vec<AirOccupancy>, String>)
    ensures
        match json_value(text@) {
            Ok(document) => match r {
                Ok(v) => table_in(document) == Ok::<Seq<AirModel>, Seq<char>>(air_models(v@)),
                Err(e) => table_in(document) == Err::<Seq<AirModel>, Seq<char>>(e@),
            },
            Err(why) => r matches Err(e) && e@ == "occupancy.json is malformed: "@ + why,
        },
{
    match Json::parse(text) {
        Ok(document) => from_document(&document),
        Err(why) => Err(cat("occupancy.json is malformed: ", &why)),
    }
}

/// Read an occupancy table from its document.
pub fn from_document(document: &Json) -> (r: Result<Vec<AirOccupancy>, String>)
    ensures
        match r {
            Ok(v) => table_in(document@) == Ok::<Seq<AirModel>, Seq<char>>(air_models(v@)),
            Err(e) => table_in(document@) == Err::<Seq<AirModel>, Seq<char>>(e@),
        },
{
    let entries = match document.get("airs") {
        Some(Json::Table(entries)) => entries,
        _ => return Err("occupancy.json is malformed: it has no table of airs".to_owned()),
    };
    let mut lines = match read_airs(entries) {
        Some(lines) => lines,
        None => return Err("occupancy.json is malformed: an air is not written as one".to_owned()),
    };
    let ghost all = air_lines(lines@);
    let ghost original = lines@;
    let count: usize = lines.len();
    let mut out: Vec<AirOccupancy> = Vec::new();
    proof {
        assert(air_models(out@) =~= Seq::empty());
    }
    while out.len() < count
        invariant
            out.len() <= count,
            count == all.len(),
            lines@ == original.subrange(out.len() as int, count as int),
            all == air_lines(original),
            table_in(document@) == airs_from(all),
            airs_from(all.subrange(0, out.len() as int)) == Ok::<Seq<AirModel>, Seq<char>>(air_models(out@)),
        decreases count - out.len(),
    {
        let ghost i = out.len() as int;
        let entry = lines.remove(0);
        proof {
            let next = all.subrange(0, i + 1);
            assert(next.drop_last() =~= all.subrange(0, i));
            assert(entry == original[i]);
            assert(next.last() == air_line(entry));
            assert(lines@ =~= original.subrange(i + 1, count as int));
        }
        match build_air(entry) {
            Ok(air) => {
                let ghost before = out@;
                out.push(air);
                proof {
                    assert(air_models(out@) =~= air_models(before).push(air@));
                }
            },
            Err(e) => {
                proof {
                    lemma_airs_from_prefix(all, i + 1);
                }
                return Err(e);
            },
        }
    }
    proof {
        assert(all.subrange(0, count as int) =~= all);
    }
    Ok(out)
}

/// The first air of a nominal bandwidth in a table.
pub open spec fn air_at(s: Seq<AirOccupancy>, bandwidth_hz: u64) -> Option<AirOccupancy>
    decreases s.len(),
{
    if s.len() == 0 {
        None
    } else if s[0].bandwidth_hz == bandwidth_hz {
        Some(s[0])
    } else {
        air_at(s.drop_first(), bandwidth_hz)
    }
}

proof fn lemma_air_at(s: Seq<AirOccupancy>, bandwidth_hz: u64, n: int)
    requires
        0 <= n <= s.len(),
        forall|i: int| 0 <= i < n ==> #[trigger] s[i].bandwidth_hz != bandwidth_hz,
    ensures
        n == s.len() ==> air_at(s, bandwidth_hz) is None,
        n < s.len() && s[n].bandwidth_hz == bandwidth_hz ==> air_at(s, bandwidth_hz) == Some(s[n]),
    decreases n,
{
    if n > 0 {
        let rest = s.drop_first();
        assert(s[0].bandwidth_hz != bandwidth_hz);
        assert forall|i: int| 0 <= i < n - 1 implies #[trigger] rest[i].bandwidth_hz != bandwidth_hz by {
            assert(rest[i] == s[i + 1]);
        }
        lemma_air_at(rest, bandwidth_hz, n - 1);
    }
}

/// The occupancy of the air with this nominal bandwidth, in a table as it was read.
///
/// A table that is malformed or has no such air is an error: a reason not to transmit, never
/// a reason to guess.
pub fn air(table: &Result<Vec<AirOccupancy>, String>, bandwidth_hz: u64) -> (r: Result<&AirOccupancy, String>)
    ensures
        match (table, r) {
            (Ok(airs), Ok(air)) => air_at(airs@, bandwidth_hz) == Some(*air),
            (Ok(airs), Err(e)) => air_at(airs@, bandwidth_hz) is None && e@
                == "no occupancy is measured for the "@ + digits(bandwidth_hz as nat) + " Hz air"@,
            (Err(error), r) => r matches Err(e) && e@ == error@,
        },
{
    match table {
        Ok(airs) => {
            let mut i: usize = 0;
            while i < airs.len()
                invariant
                    i <= airs.len(),
                    *table == Ok::<Vec<AirOccupancy>, String>(*airs),
                    forall|j: int| 0 <= j < i ==> #[trigger] airs@[j].bandwidth_hz != bandwidth_hz,
                decreases airs.len() - i,
            {
                if airs[i].bandwidth_hz == bandwidth_hz {
                    proof {
                        lemma_air_at(airs@, bandwidth_hz, i as int);
                    }
                    return Ok(&airs[i]);
                }
                i += 1;
            }
            proof {
                lemma_air_at(airs@, bandwidth_hz, i as int);
            }
            let mut e = cat("no occupancy is measured for the ", &whole(bandwidth_hz as u128));
            e.append(" Hz air");
            Err(e)
        },
        Err(error) => Err(error.clone()),
    }
}

} // verus!
