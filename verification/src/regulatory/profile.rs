//! A regulatory profile: one administration's rules for the bands the modem uses, as data.
//!
//! Every range carries the rule it comes from. A profile that does not hold together is not
//! used: the policy refuses to transmit and says why.
use vstd::prelude::*;

use crate::regulatory::occupancy::{Millihertz, Reading};
use crate::text::{cat, digits, holds_text, milli_fixed, milli_fixed_text, names, quote, quoted, same, size, whole};

verus! {

/// A frequency range, both ends inclusive.
#[derive(Clone, Copy, PartialEq, Eq, Structural, Debug)]
pub struct Range {
    /// Lower edge.
    pub low: Millihertz,
    /// Upper edge.
    pub high: Millihertz,
}

impl Range {
    /// Whether `low..=high` lies inside.
    pub open spec fn keeps(self, low: int, high: int) -> bool {
        low >= self.low && high <= self.high
    }

    /// Whether `low..=high` lies inside.
    pub fn holds(&self, low: i128, high: i128) -> (r: bool)
        ensures
            r == self.keeps(low as int, high as int),
    {
        low >= self.low as i128 && high <= self.high as i128
    }

    /// Whether `low..=high` touches it at all.
    pub open spec fn touches(self, low: int, high: int) -> bool {
        low <= self.high && high >= self.low
    }

    /// Whether `low..=high` touches it at all.
    pub fn overlaps(&self, low: i128, high: i128) -> (r: bool)
        ensures
            r == self.touches(low as int, high as int),
    {
        low <= self.high as i128 && high >= self.low as i128
    }

    /// The range in kilohertz, for a sentence.
    pub open spec fn in_khz(self) -> Seq<char> {
        khz_text(self.low as int) + "–"@ + khz_text(self.high as int) + " kHz"@
    }

    /// The range in kilohertz, for a sentence.
    pub fn khz(&self) -> (r: String)
        ensures
            r@ == self.in_khz(),
    {
        let mut s = khz(self.low);
        s.append("–");
        s.append(&khz(self.high));
        s.append(" kHz");
        s
    }
}

/// What lies inside a range touches it, and what a part of a range holds the whole holds.
pub proof fn holding_is_touching(r: Range, inner: Range, low: int, high: int)
    requires
        low <= high,
    ensures
        r.keeps(low, high) ==> r.touches(low, high),
        r.keeps(inner.low as int, inner.high as int) && inner.keeps(low, high) ==> r.keeps(low, high),
        r.keeps(inner.low as int, inner.high as int) && inner.touches(low, high) ==> r.touches(low, high),
{
}

/// A frequency in kilohertz with no more decimals than it needs.
pub open spec fn khz_text(f: int) -> Seq<char> {
    let n = size(f);
    let sign = if f < 0 { seq!['-'] } else { Seq::empty() };
    if n % 1_000_000 == 0 {
        sign + digits(n / 1_000_000)
    } else if n % 100_000 == 0 {
        sign + digits(n / 1_000_000) + "."@ + digits((n / 100_000) % 10)
    } else {
        milli_fixed(f)
    }
}

/// A frequency in kilohertz with no more decimals than it needs: 7 125 000 Hz is "7125",
/// 14 099 500 Hz is "14099.5".
pub fn khz(f: Millihertz) -> (r: String)
    ensures
        r@ == khz_text(f as int),
{
    let n: u128 = if f < 0 { (-(f as i128)) as u128 } else { f as u128 };
    if n % 1_000_000 == 0 || n % 100_000 == 0 {
        let mut s = String::new();
        if f < 0 {
            s.append("-");
        }
        proof {
            reveal_strlit("-");
            assert("-"@ =~= seq!['-']);
            assert(s@ =~= if f < 0 { seq!['-'] } else { Seq::empty() });
        }
        s.append(&whole(n / 1_000_000));
        if n % 1_000_000 != 0 {
            s.append(".");
            s.append(&whole((n / 100_000) % 10));
        }
        s
    } else {
        milli_fixed_text(f as i128)
    }
}

/// A band, for naming a frequency.
#[derive(Clone, PartialEq, Debug)]
pub struct Band {
    /// "40 m".
    pub name: String,
    /// Its edges.
    pub range: Range,
}

/// A segment where RTTY and data emissions are authorized (§97.305(c)).
#[derive(Clone, PartialEq, Debug)]
pub struct Segment {
    /// The band it is in.
    pub band: String,
    /// Its edges.
    pub range: Range,
    /// The rule it comes from.
    pub rule: String,
    /// The widest RTTY or data emission allowed here, when it is not the profile's general
    /// limit.
    pub max_bandwidth: Option<Millihertz>,
    /// The rule that limit comes from.
    pub bandwidth_rule: Option<String>,
}

impl Segment {
    /// The widest emission allowed in this segment, and the rule for it.
    pub open spec fn limit(self, general: DataLimit) -> (Millihertz, Seq<char>) {
        match self.max_bandwidth {
            Some(max) => (max, match self.bandwidth_rule {
                Some(rule) => rule@,
                None => general.rule@,
            }),
            None => (general.max_bandwidth, general.rule@),
        }
    }

    /// The widest RTTY or data emission allowed in this segment, and the rule for it: its
    /// own when it has one, the profile's general limit otherwise.
    pub fn data_limit<'a>(&'a self, general: &'a DataLimit) -> (r: (Millihertz, &'a str))
        ensures
            (r.0, r.1@) == self.limit(*general),
    {
        match self.max_bandwidth {
            Some(max) => match &self.bandwidth_rule {
                Some(rule) => (max, rule.as_str()),
                None => (max, general.rule.as_str()),
            },
            None => (general.max_bandwidth, general.rule.as_str()),
        }
    }
}

/// A privilege of a license class (§97.301), with the emissions it allows when they are
/// fewer than the segments' (a Technician's CW-only HF segments, §97.307(f)(9)).
#[derive(Clone, PartialEq, Debug)]
pub struct Privilege {
    /// Its edges.
    pub range: Range,
    /// The emissions allowed, when restricted; every emission the segments allow otherwise.
    pub emissions: Option<Vec<String>>,
    /// The rule that restricts them.
    pub rule: Option<String>,
}

impl Privilege {
    /// Whether this privilege allows an emission of this name.
    pub open spec fn permits(self, emission: Seq<char>) -> bool {
        match self.emissions {
            None => true,
            Some(list) => names(list@, emission),
        }
    }

    /// Whether this privilege allows an emission of this name.
    pub fn allows(&self, emission: &str) -> (r: bool)
        ensures
            r == self.permits(emission@),
    {
        match &self.emissions {
            None => true,
            Some(list) => holds_text(list, emission),
        }
    }
}

/// The privileges, per class.
#[derive(Clone, PartialEq, Debug)]
pub struct Privileges {
    /// Amateur Extra.
    pub extra: Vec<Privilege>,
    /// Advanced.
    pub advanced: Vec<Privilege>,
    /// General.
    pub general: Vec<Privilege>,
    /// Technician.
    pub technician: Vec<Privilege>,
    /// Novice.
    pub novice: Vec<Privilege>,
    /// The rule the table comes from.
    pub rule: String,
}

impl Privileges {
    /// Every class's list with its name, in the order of the names.
    pub fn all(&self) -> (r: Vec<(&'static str, &Vec<Privilege>)>)
        ensures
            r@.len() == 5,
            r@[0].0@ == "advanced"@ && *r@[0].1 == self.advanced,
            r@[1].0@ == "extra"@ && *r@[1].1 == self.extra,
            r@[2].0@ == "general"@ && *r@[2].1 == self.general,
            r@[3].0@ == "novice"@ && *r@[3].1 == self.novice,
            r@[4].0@ == "technician"@ && *r@[4].1 == self.technician,
    {
        let mut out: Vec<(&'static str, &Vec<Privilege>)> = Vec::new();
        out.push(("advanced", &self.advanced));
        out.push(("extra", &self.extra));
        out.push(("general", &self.general));
        out.push(("novice", &self.novice));
        out.push(("technician", &self.technician));
        out
    }
}

/// The 60 m discrete channels (§97.303(h)(3)).
#[derive(Clone, PartialEq, Debug)]
pub struct Channels {
    /// The band they are in.
    pub band: String,
    /// The rule.
    pub rule: String,
    /// A channel's width, centred on its centre frequency.
    pub width: Millihertz,
    /// How far below the centre a data emission's carrier is set.
    pub carrier_offset: Millihertz,
    /// How far from the prescribed carrier a dial may be.
    pub carrier_tolerance: Millihertz,
    /// The sideband a data emission is sent on.
    pub sideband: String,
    /// The channels.
    pub list: Vec<Channel>,
    /// Why they work as they do, for the explanation.
    pub why: String,
}

/// One channel.
#[derive(Clone, Copy, PartialEq, Eq, Structural, Debug)]
pub struct Channel {
    /// Its centre frequency.
    pub center: Millihertz,
}

/// The emissions allowed on 60 m (§97.307(f)(14)(i)).
#[derive(Clone, PartialEq, Debug)]
pub struct SixtyEmissions {
    /// Their names.
    pub allowed: Vec<String>,
    /// The rule.
    pub rule: String,
}

/// A band where automatic control is not allowed at all.
#[derive(Clone, PartialEq, Debug)]
pub struct Excluded {
    /// The band.
    pub band: String,
    /// The rule.
    pub rule: String,
    /// Why, for the explanation.
    pub why: String,
}

/// Automatic control outside the designated segments (§97.221(c)).
#[derive(Clone, PartialEq, Debug)]
pub struct Elsewhere {
    /// The most an automatically controlled station's transmission may occupy there.
    pub max_bandwidth: Millihertz,
    /// Whether it may only respond to interrogation by a station under local or remote
    /// control.
    pub requires_response: bool,
    /// The rule.
    pub rule: String,
}

/// Automatic control (§97.221).
#[derive(Clone, PartialEq, Debug)]
pub struct Automatic {
    /// The segments where it is allowed for RTTY and data (§97.221(b)).
    pub segments: Vec<Range>,
    /// The rule for them.
    pub segments_rule: String,
    /// The conditions elsewhere, when it is allowed elsewhere at all.
    pub elsewhere: Option<Elsewhere>,
    /// Bands where it is not allowed.
    pub excluded_bands: Vec<Excluded>,
}

/// A power limit, for a reminder: the station cannot measure power, and says what applies.
#[derive(Clone, PartialEq, Debug)]
pub struct PowerLimit {
    /// Where it applies.
    pub range: Range,
    /// The limit, thousandths of a watt.
    pub max_mw: i64,
    /// PEP or ERP.
    pub measure: String,
    /// The classes it applies to; every class when absent.
    pub classes: Option<Vec<String>>,
    /// The rule.
    pub rule: String,
}

/// A voluntary band-plan area.
#[derive(Clone, PartialEq, Debug)]
pub struct PlanArea {
    /// Its edges.
    pub range: Range,
    /// What it is.
    pub label: String,
}

/// The voluntary band plan: guidance, never a rule.
#[derive(Clone, PartialEq, Debug)]
pub struct BandPlan {
    /// Whose plan.
    pub authority: String,
    /// Where it is published.
    pub source: String,
    /// When it was read.
    pub as_of: String,
    /// The areas for data.
    pub data: Vec<PlanArea>,
    /// Areas to stay out of.
    pub avoid: Vec<PlanArea>,
}

/// How a profile reads "bandwidth".
#[derive(Clone, PartialEq, Debug)]
pub struct BandwidthRule {
    /// The definition.
    pub rule: String,
    /// Which reading applies.
    pub reading: Reading,
    /// Why, for the explanation.
    pub why: String,
}

/// A limit with its rule.
#[derive(Clone, PartialEq, Debug)]
pub struct DataLimit {
    /// The most a RTTY or data emission may occupy.
    pub max_bandwidth: Millihertz,
    /// The rule.
    pub rule: String,
}

/// The Morse identifier's limit.
#[derive(Clone, PartialEq, Debug)]
pub struct CwIdLimit {
    /// The fastest an automatic identifier may be sent, thousandths of a word per minute.
    pub max_milli_wpm: u64,
    /// The rule.
    pub rule: String,
}

/// One administration's rules.
#[derive(Clone, PartialEq, Debug)]
pub struct Profile {
    /// Its identifier: `us-fcc-part97`.
    pub id: String,
    /// Its name.
    pub name: String,
    /// The country.
    pub country: String,
    /// The authority and the rules.
    pub authority: String,
    /// When the rules were read.
    pub rules_as_of: String,
    /// When they last changed.
    pub last_amended: String,
    /// Where they are published.
    pub source: String,
    /// The ITU region the tables are for.
    pub itu_region: u8,
    /// Notes on the table.
    pub notes: Vec<String>,
    /// How bandwidth is read.
    pub bandwidth: BandwidthRule,
    /// The RTTY and data limit.
    pub data: DataLimit,
    /// The Morse identifier's limit.
    pub cw_id: Option<CwIdLimit>,
    /// The bands.
    pub bands: Vec<Band>,
    /// Where RTTY and data are authorized.
    pub data_segments: Vec<Segment>,
    /// The 60 m channels.
    pub channels: Option<Channels>,
    /// The emissions allowed on 60 m.
    pub sixty_meter_emissions: Option<SixtyEmissions>,
    /// The privileges.
    pub privileges: Privileges,
    /// Automatic control.
    pub automatic: Automatic,
    /// Power limits, for reminders.
    pub power: Vec<PowerLimit>,
    /// The voluntary band plan.
    pub band_plan: Option<BandPlan>,
}

/// The identifier of the one profile this version knows.
pub const US_FCC_PART97: &'static str = "us-fcc-part97";

/// The title of that profile.
pub const US_FCC_PART97_TITLE: &'static str = "United States — FCC Part 97";

/// A range with the kind of thing it is the edges of.
pub struct Named {
    /// What it is.
    pub what: &'static str,
    /// Its edges.
    pub range: Range,
}

/// What a named range is.
pub open spec fn named(what: Seq<char>, range: Range) -> (Seq<char>, Range) {
    (what, range)
}

/// The ranges of a class's privileges.
pub open spec fn privilege_ranges(list: Seq<Privilege>) -> Seq<(Seq<char>, Range)> {
    list.map_values(|p: Privilege| named("privilege"@, p.range))
}

impl Profile {
    /// Every range the profile is made of, with what it is: bands, data segments, automatic
    /// segments, and the privileges by the name of the class.
    pub open spec fn ranges(self) -> Seq<(Seq<char>, Range)> {
        self.bands@.map_values(|b: Band| named("band"@, b.range))
            + self.data_segments@.map_values(|s: Segment| named("data segment"@, s.range))
            + self.automatic.segments@.map_values(|r: Range| named("automatic segment"@, r))
            + privilege_ranges(self.privileges.advanced@)
            + privilege_ranges(self.privileges.extra@)
            + privilege_ranges(self.privileges.general@)
            + privilege_ranges(self.privileges.novice@)
            + privilege_ranges(self.privileges.technician@)
    }

    /// Whether a data segment lies in one of the bands.
    pub open spec fn in_a_band(self, range: Range) -> bool {
        exists|i: int| 0 <= i < self.bands@.len() && (#[trigger] self.bands@[i]).range.keeps(range.low as int, range.high as int)
    }

    /// What is wrong with the profile, looked for in this order: a range that is empty or the
    /// wrong way round, nothing to work with, a data segment in no band, a segment's limit
    /// that allows nothing, a general limit that allows nothing.
    pub open spec fn fault(self) -> Option<Seq<char>> {
        let ranges = self.ranges();
        let the = "the "@ + self.id@;
        if first_bad_range(ranges, 0) < ranges.len() {
            let bad = ranges[first_bad_range(ranges, 0) as int];
            Some(the + " profile has a "@ + bad.0 + " of "@ + bad.1.in_khz())
        } else if self.bands@.len() == 0 || self.data_segments@.len() == 0 {
            Some(the + " profile names no bands or no data segments"@)
        } else if first_stray(self, 0) < self.data_segments@.len() {
            let stray = self.data_segments@[first_stray(self, 0) as int];
            Some(the + " profile's data segment "@ + stray.range.in_khz() + " is in no band"@)
        } else if exists|i: int| 0 <= i < self.data_segments@.len() && limitless(#[trigger] self.data_segments@[i]) {
            Some(the + " profile has a data segment with no bandwidth limit"@)
        } else if self.data.max_bandwidth <= 0 {
            Some(the + " profile has no data bandwidth limit"@)
        } else {
            None
        }
    }
}

/// Whether a segment's own limit allows nothing.
pub open spec fn limitless(s: Segment) -> bool {
    match s.max_bandwidth {
        Some(max) => max <= 0,
        None => false,
    }
}

/// The first range, from `from` on, that is empty or the wrong way round.
pub open spec fn first_bad_range(s: Seq<(Seq<char>, Range)>, from: nat) -> nat
    decreases s.len() - from,
{
    if from >= s.len() || s[from as int].1.low >= s[from as int].1.high {
        from
    } else {
        first_bad_range(s, from + 1)
    }
}

proof fn lemma_first_bad_range(s: Seq<(Seq<char>, Range)>, from: nat, n: nat)
    requires
        from <= n <= s.len(),
        n < s.len() ==> s[n as int].1.low >= s[n as int].1.high,
        forall|i: int| from <= i < n ==> (#[trigger] s[i]).1.low < s[i].1.high,
    ensures
        first_bad_range(s, from) == n,
    decreases n - from,
{
    if from < n {
        assert(s[from as int].1.low < s[from as int].1.high);
        lemma_first_bad_range(s, from + 1, n);
    }
}

/// The first data segment, from `from` on, that lies in no band.
pub open spec fn first_stray(p: Profile, from: nat) -> nat
    decreases p.data_segments@.len() - from,
{
    if from >= p.data_segments@.len() || !p.in_a_band(p.data_segments@[from as int].range) {
        from
    } else {
        first_stray(p, from + 1)
    }
}

proof fn lemma_first_stray(p: Profile, from: nat, n: nat)
    requires
        from <= n <= p.data_segments@.len(),
        n < p.data_segments@.len() ==> !p.in_a_band(p.data_segments@[n as int].range),
        forall|i: int| from <= i < n ==> p.in_a_band((#[trigger] p.data_segments@[i]).range),
    ensures
        first_stray(p, from) == n,
    decreases n - from,
{
    if from < n {
        assert(p.in_a_band(p.data_segments@[from as int].range));
        lemma_first_stray(p, from + 1, n);
    }
}

/// What a run of named ranges is.
pub open spec fn named_views(s: Seq<Named>) -> Seq<(Seq<char>, Range)> {
    s.map_values(|n: Named| named(n.what@, n.range))
}

fn add_privileges(out: &mut Vec<Named>, list: &Vec<Privilege>)
    ensures
        named_views(final(out)@) == named_views(old(out)@) + privilege_ranges(list@),
{
    let ghost start = named_views(out@);
    let mut i: usize = 0;
    proof {
        assert(named_views(out@) =~= start + privilege_ranges(list@.subrange(0, 0)));
    }
    while i < list.len()
        invariant
            i <= list.len(),
            named_views(out@) == start + privilege_ranges(list@.subrange(0, i as int)),
        decreases list.len() - i,
    {
        let ghost before = out@;
        out.push(Named { what: "privilege", range: list[i].range });
        proof {
            assert(privilege_ranges(list@.subrange(0, i + 1)) =~= privilege_ranges(list@.subrange(0, i as int)).push(
                named("privilege"@, list@[i as int].range)));
            assert(named_views(out@) =~= named_views(before).push(named("privilege"@, list@[i as int].range)));
            assert(named_views(out@) =~= start + privilege_ranges(list@.subrange(0, i + 1)));
        }
        i += 1;
    }
    proof {
        assert(list@.subrange(0, list@.len() as int) =~= list@);
    }
}

impl Profile {
    fn named_ranges(&self) -> (r: Vec<Named>)
        ensures
            named_views(r@) == self.ranges(),
    {
        let mut out: Vec<Named> = Vec::new();
        let ghost bands = |b: Band| named("band"@, b.range);
        let ghost segs = |s: Segment| named("data segment"@, s.range);
        let ghost autos = |r: Range| named("automatic segment"@, r);
        let mut i: usize = 0;
        proof {
            assert(named_views(out@) =~= self.bands@.subrange(0, 0).map_values(bands));
        }
        while i < self.bands.len()
            invariant
                i <= self.bands.len(),
                bands == (|b: Band| named("band"@, b.range)),
                named_views(out@) == self.bands@.subrange(0, i as int).map_values(bands),
            decreases self.bands.len() - i,
        {
            let ghost before = out@;
            out.push(Named { what: "band", range: self.bands[i].range });
            proof {
                assert(named_views(out@) =~= named_views(before).push(bands(self.bands@[i as int])));
                assert(self.bands@.subrange(0, i + 1).map_values(bands) =~= self.bands@.subrange(0, i as int).map_values(
                    bands).push(bands(self.bands@[i as int])));
            }
            i += 1;
        }
        proof {
            assert(self.bands@.subrange(0, i as int) =~= self.bands@);
        }
        let ghost first = named_views(out@);
        i = 0;
        proof {
            assert(named_views(out@) =~= first + self.data_segments@.subrange(0, 0).map_values(segs));
        }
        while i < self.data_segments.len()
            invariant
                i <= self.data_segments.len(),
                segs == (|s: Segment| named("data segment"@, s.range)),
                named_views(out@) == first + self.data_segments@.subrange(0, i as int).map_values(segs),
            decreases self.data_segments.len() - i,
        {
            let ghost before = out@;
            out.push(Named { what: "data segment", range: self.data_segments[i].range });
            proof {
                assert(named_views(out@) =~= named_views(before).push(segs(self.data_segments@[i as int])));
                assert(self.data_segments@.subrange(0, i + 1).map_values(segs) =~= self.data_segments@.subrange(
                    0, i as int).map_values(segs).push(segs(self.data_segments@[i as int])));
                assert(named_views(out@) =~= first + self.data_segments@.subrange(0, i + 1).map_values(segs));
            }
            i += 1;
        }
        proof {
            assert(self.data_segments@.subrange(0, i as int) =~= self.data_segments@);
        }
        let ghost second = named_views(out@);
        i = 0;
        proof {
            assert(named_views(out@) =~= second + self.automatic.segments@.subrange(0, 0).map_values(autos));
        }
        while i < self.automatic.segments.len()
            invariant
                i <= self.automatic.segments.len(),
                autos == (|r: Range| named("automatic segment"@, r)),
                named_views(out@) == second + self.automatic.segments@.subrange(0, i as int).map_values(autos),
            decreases self.automatic.segments.len() - i,
        {
            let ghost before = out@;
            out.push(Named { what: "automatic segment", range: self.automatic.segments[i] });
            proof {
                assert(named_views(out@) =~= named_views(before).push(autos(self.automatic.segments@[i as int])));
                assert(self.automatic.segments@.subrange(0, i + 1).map_values(autos)
                    =~= self.automatic.segments@.subrange(0, i as int).map_values(autos).push(
                    autos(self.automatic.segments@[i as int])));
                assert(named_views(out@) =~= second + self.automatic.segments@.subrange(0, i + 1).map_values(autos));
            }
            i += 1;
        }
        proof {
            assert(self.automatic.segments@.subrange(0, i as int) =~= self.automatic.segments@);
        }
        add_privileges(&mut out, &self.privileges.advanced);
        add_privileges(&mut out, &self.privileges.extra);
        add_privileges(&mut out, &self.privileges.general);
        add_privileges(&mut out, &self.privileges.novice);
        add_privileges(&mut out, &self.privileges.technician);
        out
    }

    /// Whether a range lies in one of the bands.
    fn banded(&self, range: Range) -> (r: bool)
        ensures
            r == self.in_a_band(range),
    {
        let mut i: usize = 0;
        while i < self.bands.len()
            invariant
                i <= self.bands.len(),
                forall|j: int| 0 <= j < i ==> !(#[trigger] self.bands@[j]).range.keeps(range.low as int, range.high as int),
            decreases self.bands.len() - i,
        {
            if self.bands[i].range.holds(range.low as i128, range.high as i128) {
                return true;
            }
            i += 1;
        }
        false
    }

    /// A profile that does not hold together is not used: what is wrong with it, when
    /// something is.
    pub fn check(&self) -> (r: Result<(), String>)
        ensures
            match r {
                Ok(_) => self.fault() is None,
                Err(e) => self.fault() == Some(e@),
            },
    {
        let ranges = self.named_ranges();
        let ghost all = self.ranges();
        let mut the = "the ".to_owned();
        the.append(&self.id);
        let mut i: usize = 0;
        while i < ranges.len()
            invariant
                i <= ranges.len(),
                named_views(ranges@) == all,
                all == self.ranges(),
                the@ == "the "@ + self.id@,
                forall|j: int| 0 <= j < i ==> (#[trigger] all[j]).1.low < all[j].1.high,
            decreases ranges.len() - i,
        {
            proof {
                assert(all[i as int] == named(ranges@[i as int].what@, ranges@[i as int].range));
            }
            if ranges[i].range.low >= ranges[i].range.high {
                proof {
                    lemma_first_bad_range(all, 0, i as nat);
                }
                the.append(" profile has a ");
                the.append(ranges[i].what);
                the.append(" of ");
                the.append(&ranges[i].range.khz());
                return Err(the);
            }
            i += 1;
        }
        proof {
            lemma_first_bad_range(all, 0, i as nat);
        }
        if self.bands.len() == 0 || self.data_segments.len() == 0 {
            the.append(" profile names no bands or no data segments");
            return Err(the);
        }
        i = 0;
        while i < self.data_segments.len()
            invariant
                i <= self.data_segments.len(),
                all == self.ranges(),
                first_bad_range(all, 0) == all.len(),
                self.bands@.len() != 0 && self.data_segments@.len() != 0,
                the@ == "the "@ + self.id@,
                forall|j: int| 0 <= j < i ==> self.in_a_band((#[trigger] self.data_segments@[j]).range),
            decreases self.data_segments.len() - i,
        {
            if !self.banded(self.data_segments[i].range) {
                proof {
                    lemma_first_stray(*self, 0, i as nat);
                }
                the.append(" profile's data segment ");
                the.append(&self.data_segments[i].range.khz());
                the.append(" is in no band");
                return Err(the);
            }
            i += 1;
        }
        proof {
            lemma_first_stray(*self, 0, i as nat);
        }
        i = 0;
        while i < self.data_segments.len()
            invariant
                i <= self.data_segments.len(),
                all == self.ranges(),
                first_bad_range(all, 0) == all.len(),
                self.bands@.len() != 0 && self.data_segments@.len() != 0,
                first_stray(*self, 0) == self.data_segments@.len(),
                the@ == "the "@ + self.id@,
                forall|j: int| 0 <= j < i ==> !limitless(#[trigger] self.data_segments@[j]),
            decreases self.data_segments.len() - i,
        {
            let none: bool = match self.data_segments[i].max_bandwidth {
                Some(max) => max <= 0,
                None => false,
            };
            if none {
                proof {
                    assert(limitless(self.data_segments@[i as int]));
                }
                the.append(" profile has a data segment with no bandwidth limit");
                return Err(the);
            }
            i += 1;
        }
        if self.data.max_bandwidth <= 0 {
            the.append(" profile has no data bandwidth limit");
            return Err(the);
        }
        Ok(())
    }

    /// The band holding `low..=high`, if one does: the first.
    pub open spec fn band_of(self, low: int, high: int) -> Option<Band> {
        let n = first_band(self.bands@, 0, low, high, true);
        if n < self.bands@.len() { Some(self.bands@[n as int]) } else { None }
    }

    /// The band holding `low..=high`, if one does.
    pub fn band_holding(&self, low: i128, high: i128) -> (r: Option<&Band>)
        ensures
            match r {
                Some(b) => self.band_of(low as int, high as int) == Some(*b),
                None => self.band_of(low as int, high as int) is None,
            },
    {
        let mut i: usize = 0;
        while i < self.bands.len()
            invariant
                i <= self.bands.len(),
                forall|j: int| 0 <= j < i ==> !meets((#[trigger] self.bands@[j]).range, low as int, high as int, true),
            decreases self.bands.len() - i,
        {
            if self.bands[i].range.holds(low, high) {
                proof {
                    lemma_first_band(self.bands@, 0, low as int, high as int, true, i as nat);
                }
                return Some(&self.bands[i]);
            }
            i += 1;
        }
        proof {
            lemma_first_band(self.bands@, 0, low as int, high as int, true, i as nat);
        }
        None
    }

    /// A band `low..=high` touches, if any: the first.
    pub open spec fn band_near(self, low: int, high: int) -> Option<Band> {
        let n = first_band(self.bands@, 0, low, high, false);
        if n < self.bands@.len() { Some(self.bands@[n as int]) } else { None }
    }

    /// A band `low..=high` touches, if any.
    pub fn band_touching(&self, low: i128, high: i128) -> (r: Option<&Band>)
        ensures
            match r {
                Some(b) => self.band_near(low as int, high as int) == Some(*b),
                None => self.band_near(low as int, high as int) is None,
            },
    {
        let mut i: usize = 0;
        while i < self.bands.len()
            invariant
                i <= self.bands.len(),
                forall|j: int| 0 <= j < i ==> !meets((#[trigger] self.bands@[j]).range, low as int, high as int, false),
            decreases self.bands.len() - i,
        {
            if self.bands[i].range.overlaps(low, high) {
                proof {
                    lemma_first_band(self.bands@, 0, low as int, high as int, false, i as nat);
                }
                return Some(&self.bands[i]);
            }
            i += 1;
        }
        proof {
            lemma_first_band(self.bands@, 0, low as int, high as int, false, i as nat);
        }
        None
    }
}

/// Whether a range holds `low..=high`, or only touches it.
pub open spec fn meets(range: Range, low: int, high: int, inside: bool) -> bool {
    if inside { range.keeps(low, high) } else { range.touches(low, high) }
}

/// The first band, from `from` on, that holds or touches `low..=high`.
pub open spec fn first_band(s: Seq<Band>, from: nat, low: int, high: int, inside: bool) -> nat
    decreases s.len() - from,
{
    if from >= s.len() || meets(s[from as int].range, low, high, inside) {
        from
    } else {
        first_band(s, from + 1, low, high, inside)
    }
}

proof fn lemma_first_band(s: Seq<Band>, from: nat, low: int, high: int, inside: bool, n: nat)
    requires
        from <= n <= s.len(),
        n < s.len() ==> meets(s[n as int].range, low, high, inside),
        forall|i: int| from <= i < n ==> !meets((#[trigger] s[i]).range, low, high, inside),
    ensures
        first_band(s, from, low, high, inside) == n,
    decreases n - from,
{
    if from < n {
        assert(!meets(s[from as int].range, low, high, inside));
        lemma_first_band(s, from + 1, low, high, inside, n);
    }
}

/// A profile that passes its check can be worked with: it has bands and data segments, every
/// data segment lies in a band and is the right way round, and every limit allows something.
pub proof fn a_checked_profile_holds_together(p: Profile)
    requires
        p.fault() is None,
    ensures
        p.bands@.len() > 0,
        p.data_segments@.len() > 0,
        p.data.max_bandwidth > 0,
        forall|i: int| 0 <= i < p.ranges().len() ==> (#[trigger] p.ranges()[i]).1.low < p.ranges()[i].1.high,
        forall|i: int| 0 <= i < p.data_segments@.len() ==> p.in_a_band((#[trigger] p.data_segments@[i]).range),
        forall|i: int| 0 <= i < p.data_segments@.len() ==> (#[trigger] p.data_segments@[i]).limit(p.data).0 > 0,
{
    lemma_all_ranges_good(p.ranges(), 0);
    lemma_none_stray(p, 0);
    assert forall|i: int| 0 <= i < p.data_segments@.len() implies (#[trigger] p.data_segments@[i]).limit(p.data).0 > 0 by {
        assert(!limitless(p.data_segments@[i]));
    }
}

proof fn lemma_all_ranges_good(s: Seq<(Seq<char>, Range)>, from: nat)
    requires
        from <= s.len(),
        first_bad_range(s, from) >= s.len(),
    ensures
        forall|i: int| from <= i < s.len() ==> (#[trigger] s[i]).1.low < s[i].1.high,
    decreases s.len() - from,
{
    if from < s.len() {
        lemma_all_ranges_good(s, from + 1);
    }
}

proof fn lemma_none_stray(p: Profile, from: nat)
    requires
        from <= p.data_segments@.len(),
        first_stray(p, from) >= p.data_segments@.len(),
    ensures
        forall|i: int| from <= i < p.data_segments@.len() ==> p.in_a_band((#[trigger] p.data_segments@[i]).range),
    decreases p.data_segments@.len() - from,
{
    if from < p.data_segments@.len() {
        lemma_none_stray(p, from + 1);
    }
}

/// Load a profile by identifier: `document` is what reading the profile's file gave.
///
/// There is one profile; any other identifier is an error, and so is a file that did not read
/// or a profile that does not hold together.
pub fn load(id: &str, document: Result<Profile, String>) -> (r: Result<Profile, String>)
    ensures
        id@ != US_FCC_PART97@ ==> (r matches Err(e) && e@ == "there is no regulatory profile called "@ + quoted(id@)),
        id@ == US_FCC_PART97@ ==> match document {
            Err(why) => r matches Err(e) && e@ == "the "@ + id@ + " regulatory profile is malformed: "@ + why@,
            Ok(profile) => match profile.fault() {
                None => r == Ok::<Profile, String>(profile),
                Some(fault) => r matches Err(e) && e@ == fault,
            },
        },
{
    if !same(id, US_FCC_PART97) {
        return Err(cat("there is no regulatory profile called ", &quote(id)));
    }
    match document {
        Err(why) => {
            let mut e = cat("the ", id);
            e.append(" regulatory profile is malformed: ");
            e.append(&why);
            Err(e)
        },
        Ok(profile) => match profile.check() {
            Ok(_) => Ok(profile),
            Err(e) => Err(e),
        },
    }
}

} // verus!
