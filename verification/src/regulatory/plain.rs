//! What the rules come to, in the frequencies and the tables of the profile themselves.
use vstd::prelude::*;

use crate::regulatory::judge::{
    advised, automatic_ruling, closest_segment, data_ruling, first_area, first_channel, first_excluded, first_privilege, first_range,
    first_segment, first_segment_of, needs, other_ruling, outside_ruling, over_limit, power_notes, rules_ruling,
    sixty_ruling, sketch, Facts, Sketch,
};
use crate::regulatory::occupancy::{AirOccupancy, Reading};
use crate::regulatory::profile::{first_band, Band, Channels, PowerLimit, Privilege, Profile, Range, Segment};
use crate::regulatory::{first_refused, ladder_edges, rung_emission, ControlMode, Direction, Emission, EmissionKind, LicenseClass, Policy, Ruling, Sideband, Situation, Verdict};

verus! {

/// Whether a range holds every frequency from one to another.
pub open spec fn inside(r: Range, low: int, high: int) -> bool {
    r.low <= low && high <= r.high
}

/// The lowest audio frequency a transmission occupies under a reading.
pub open spec fn audio_low(tx: Emission, reading: Reading) -> int {
    if reading == Reading::Power || (reading == Reading::Wider && tx.audio.power.0 < tx.audio.spectral.0) {
        tx.audio.power.0 as int
    } else {
        tx.audio.spectral.0 as int
    }
}

/// The highest audio frequency a transmission occupies under a reading.
pub open spec fn audio_high(tx: Emission, reading: Reading) -> int {
    if reading == Reading::Power || (reading == Reading::Wider && tx.audio.power.1 > tx.audio.spectral.1) {
        tx.audio.power.1 as int
    } else {
        tx.audio.spectral.1 as int
    }
}

/// The lowest frequency a transmission occupies on the air: the audio above the dial on the upper
/// sideband, and mirrored below it on the lower.
pub open spec fn sky_low(dial: int, sideband: Sideband, tx: Emission, reading: Reading) -> int {
    if sideband == Sideband::Usb { dial + audio_low(tx, reading) } else { dial - audio_high(tx, reading) }
}

/// The highest frequency a transmission occupies on the air.
pub open spec fn sky_high(dial: int, sideband: Sideband, tx: Emission, reading: Reading) -> int {
    if sideband == Sideband::Usb { dial + audio_high(tx, reading) } else { dial - audio_low(tx, reading) }
}

/// Whether one of some privileges holds every frequency from one to another and is not restricted to
/// emissions that leave this one out.
pub open spec fn granted(list: Seq<Privilege>, low: int, high: int, emission: Seq<char>) -> bool {
    exists|i: int|
        0 <= i < list.len() && inside((#[trigger] list[i]).range, low, high) && match list[i].emissions {
            None => true,
            Some(only) => exists|k: int| 0 <= k < only@.len() && (#[trigger] only@[k])@ == emission,
        }
}

/// Whether one of some privileges holds every frequency from one to another.
pub open spec fn reached(list: Seq<Privilege>, low: int, high: int) -> bool {
    exists|i: int| 0 <= i < list.len() && inside((#[trigger] list[i]).range, low, high)
}

/// Whether one of some ranges holds every frequency from one to another.
pub open spec fn inside_one(list: Seq<Range>, low: int, high: int) -> bool {
    exists|i: int| 0 <= i < list.len() && inside(#[trigger] list[i], low, high)
}

/// Whether a data segment holds every frequency from one to another and allows an emission so wide:
/// by its own limit where it has one, by the profile's otherwise.
pub open spec fn segment_takes(g: Segment, profile: Profile, low: int, high: int, width: int) -> bool {
    inside(g.range, low, high) && width <= (if g.max_bandwidth is Some { g.max_bandwidth->0 } else { profile.data.max_bandwidth })
}

proof fn lemma_segment_at(s: Seq<Segment>, low: int, high: int, from: nat)
    ensures
        ({
            let n = first_segment(s, low, high, from);
            &&& n < s.len() ==> inside(s[n as int].range, low, high)
            &&& n >= s.len() ==> forall|i: int| from <= i < s.len() ==> !inside((#[trigger] s[i]).range, low, high)
        }),
    decreases s.len() - from,
{
    if from < s.len() && !s[from as int].range.keeps(low, high) {
        lemma_segment_at(s, low, high, from + 1);
    }
}

proof fn lemma_segment_of_at(s: Seq<Segment>, band: Seq<char>, low: int, high: int, from: nat)
    ensures
        ({
            let n = first_segment_of(s, band, low, high, from);
            &&& n < s.len() ==> inside(s[n as int].range, low, high) && s[n as int].band@ == band
        }),
    decreases s.len() - from,
{
    if from < s.len() && !(s[from as int].band@ == band && s[from as int].range.keeps(low, high)) {
        lemma_segment_of_at(s, band, low, high, from + 1);
    }
}

proof fn lemma_privilege_at(s: Seq<Privilege>, low: int, high: int, from: nat)
    ensures
        ({
            let n = first_privilege(s, low, high, from);
            &&& n < s.len() ==> inside(s[n as int].range, low, high)
            &&& n >= s.len() ==> forall|i: int| from <= i < s.len() ==> !inside((#[trigger] s[i]).range, low, high)
        }),
    decreases s.len() - from,
{
    if from < s.len() && !s[from as int].range.keeps(low, high) {
        lemma_privilege_at(s, low, high, from + 1);
    }
}

proof fn lemma_range_at(s: Seq<Range>, low: int, high: int, from: nat)
    ensures
        ({
            let n = first_range(s, low, high, from);
            &&& n < s.len() ==> inside(s[n as int], low, high)
            &&& n >= s.len() ==> forall|i: int| from <= i < s.len() ==> !inside(#[trigger] s[i], low, high)
        }),
    decreases s.len() - from,
{
    if from < s.len() && !s[from as int].keeps(low, high) {
        lemma_range_at(s, low, high, from + 1);
    }
}

proof fn lemma_band_at(s: Seq<Band>, low: int, high: int, from: nat)
    ensures
        ({
            let n = first_band(s, from, low, high, true);
            &&& n < s.len() ==> inside(s[n as int].range, low, high)
            &&& n >= s.len() ==> forall|i: int| from <= i < s.len() ==> !inside((#[trigger] s[i]).range, low, high)
        }),
    decreases s.len() - from,
{
    if from < s.len() && !s[from as int].range.keeps(low, high) {
        lemma_band_at(s, low, high, from + 1);
    }
}

proof fn lemma_excluded_at(s: Seq<crate::regulatory::profile::Excluded>, band: Seq<char>, from: nat)
    ensures
        ({
            let n = first_excluded(s, band, from);
            &&& n < s.len() ==> s[n as int].band@ == band
            &&& n >= s.len() ==> forall|i: int| from <= i < s.len() ==> (#[trigger] s[i]).band@ != band
        }),
    decreases s.len() - from,
{
    if from < s.len() && s[from as int].band@ != band {
        lemma_excluded_at(s, band, from + 1);
    }
}

/// Nothing is sent that is not known to be lawful: under rules, what goes is in the profile's region
/// from a station whose control, class, sideband and dial are known, and, with its margin, wholly in
/// a band; and from an automatic station, unless it is the operator's own test, in no band where
/// automatic control is excluded.
pub proof fn what_goes_is_known_and_in_a_band(policy: Policy, s: Situation, tx: Emission)
    requires
        policy is Rules,
        policy.ruling(s, tx).verdict != Verdict::Blocked,
    ensures
        ({
            let p = *policy->Rules_0;
            let how = p.bandwidth.reading;
            &&& s.itu_region == p.itu_region
            &&& s.control is Some && s.license is Some && s.sideband is Some && s.dial is Some
            &&& exists|b: int|
                0 <= b < p.bands@.len() && inside(
                    (#[trigger] p.bands@[b]).range,
                    sky_low(s.dial->0 as int, s.sideband->0, tx, how) - s.margin,
                    sky_high(s.dial->0 as int, s.sideband->0, tx, how) + s.margin,
                ) && policy.ruling(s, tx).band == Some(p.bands@[b].name@) && (s.control == Some(ControlMode::Automatic)
                    && tx.direction != Direction::Operator ==> forall|x: int|
                    0 <= x < p.automatic.excluded_bands@.len() ==> (#[trigger] p.automatic.excluded_bands@[x]).band@
                        != p.bands@[b].name@)
        }),
{
    reveal(rules_ruling);
    let p = *policy->Rules_0;
    let how = p.bandwidth.reading;
    let low = sky_low(s.dial->0 as int, s.sideband->0, tx, how) - s.margin;
    let high = sky_high(s.dial->0 as int, s.sideband->0, tx, how) + s.margin;
    let b = first_band(p.bands@, 0, low, high, true);
    lemma_band_at(p.bands@, low, high, 0);
    assert(inside(p.bands@[b as int].range, low, high));
    lemma_excluded_at(p.automatic.excluded_bands@, p.bands@[b as int].name@, 0);
}

/// A licensee keeps to the privileges of the licensee's own class. Data goes only where an entry of
/// that class's own table in the profile holds all of it, with its margin off 60 m, and allows data
/// there; and what radiates as Morse or as a test off 60 m, only where one allows that. Neither a
/// higher class's table nor a lower's comes into it.
pub proof fn a_class_keeps_to_its_own_privileges(policy: Policy, s: Situation, tx: Emission)
    requires
        policy is Rules,
        policy.ruling(s, tx).verdict != Verdict::Blocked,
    ensures
        ({
            let p = *policy->Rules_0;
            let how = p.bandwidth.reading;
            let low = sky_low(s.dial->0 as int, s.sideband->0, tx, how);
            let high = sky_high(s.dial->0 as int, s.sideband->0, tx, how);
            let sixty = p.channels is Some && policy.ruling(s, tx).band == Some(p.channels->0.band@);
            let word = if tx.kind == EmissionKind::Data {
                "data"@
            } else if tx.kind == EmissionKind::Cw {
                "cw"@
            } else {
                "test"@
            };
            let own = |list: Seq<Privilege>|
                if sixty {
                    reached(list, low, high)
                } else if tx.kind == EmissionKind::Nothing {
                    reached(list, s.dial->0 as int, s.dial->0 as int)
                } else {
                    granted(list, low - s.margin, high + s.margin, word)
                };
            &&& s.license == Some(LicenseClass::Extra) ==> own(p.privileges.extra@)
            &&& s.license == Some(LicenseClass::Advanced) ==> own(p.privileges.advanced@)
            &&& s.license == Some(LicenseClass::General) ==> own(p.privileges.general@)
            &&& s.license == Some(LicenseClass::Technician) ==> own(p.privileges.technician@)
            &&& s.license == Some(LicenseClass::Novice) ==> own(p.privileges.novice@)
        }),
{
    reveal(rules_ruling);
    let p = *policy->Rules_0;
    let how = p.bandwidth.reading;
    let low = sky_low(s.dial->0 as int, s.sideband->0, tx, how);
    let high = sky_high(s.dial->0 as int, s.sideband->0, tx, how);
    what_goes_is_known_and_in_a_band(policy, s, tx);
    let list = crate::regulatory::privileges_for(p, s.license->0);
    lemma_privilege_at(list, low, high, 0);
    lemma_privilege_at(list, low - s.margin, high + s.margin, 0);
    lemma_privilege_at(list, s.dial->0 as int, s.dial->0 as int, 0);
    let n = first_privilege(list, low, high, 0);
    let g = first_privilege(list, low - s.margin, high + s.margin, 0);
    let d = first_privilege(list, s.dial->0 as int, s.dial->0 as int, 0);
    if n < list.len() {
        assert(inside(list[n as int].range, low, high));
    }
    if g < list.len() {
        assert(inside(list[g as int].range, low - s.margin, high + s.margin));
    }
    if d < list.len() {
        assert(inside(list[d as int].range, s.dial->0 as int, s.dial->0 as int));
    }
}

/// Data off 60 m goes only inside a data segment: with its margin it lies in one that allows it as
/// wide as it is. An automatic station's, unless it is the operator's own test, goes only inside an
/// automatic segment, or, where the rules have a provision for elsewhere, no wider than that allows
/// and, where an answer is required, only in answer.
pub proof fn data_goes_only_where_it_fits(policy: Policy, s: Situation, tx: Emission)
    requires
        policy is Rules,
        tx.kind == EmissionKind::Data,
        policy.ruling(s, tx).verdict != Verdict::Blocked,
        policy->Rules_0.channels is None || policy.ruling(s, tx).band != Some(policy->Rules_0.channels->0.band@),
    ensures
        ({
            let p = *policy->Rules_0;
            let how = p.bandwidth.reading;
            let low = sky_low(s.dial->0 as int, s.sideband->0, tx, how) - s.margin;
            let high = sky_high(s.dial->0 as int, s.sideband->0, tx, how) + s.margin;
            let wide = audio_high(tx, how) - audio_low(tx, how);
            &&& exists|i: int|
                0 <= i < p.data_segments@.len() && segment_takes(#[trigger] p.data_segments@[i], p, low, high, wide)
            &&& s.control == Some(ControlMode::Automatic) && tx.direction != Direction::Operator ==> inside_one(
                p.automatic.segments@,
                low,
                high,
            ) || (p.automatic.elsewhere is Some && wide <= p.automatic.elsewhere->0.max_bandwidth && (
            p.automatic.elsewhere->0.requires_response ==> tx.direction == Direction::Respond))
        }),
{
    reveal(rules_ruling);
    let p = *policy->Rules_0;
    let how = p.bandwidth.reading;
    let low = sky_low(s.dial->0 as int, s.sideband->0, tx, how) - s.margin;
    let high = sky_high(s.dial->0 as int, s.sideband->0, tx, how) + s.margin;
    let wide = audio_high(tx, how) - audio_low(tx, how);
    lemma_segment_at(p.data_segments@, low, high, 0);
    lemma_range_at(p.automatic.segments@, low, high, 0);
    let n = first_segment(p.data_segments@, low, high, 0);
    assert(segment_takes(p.data_segments@[n as int], p, low, high, wide));
    let a = first_range(p.automatic.segments@, low, high, 0);
    if a < p.automatic.segments@.len() {
        assert(inside(p.automatic.segments@[a as int], low, high));
    }
}

/// Data that keeps every rule goes. Off 60 m: where the station is known and in the region, all of
/// the signal, with its margin, lies in a band, every such band is off 60 m and open to the station's
/// control, every data segment that holds it allows it as wide as it is and one does, every entry of
/// the operator's own class that holds it allows data and one does, and, for an automatic station,
/// an automatic segment holds it or the provision for elsewhere covers it.
pub proof fn data_that_keeps_every_rule_goes(policy: Policy, s: Situation, tx: Emission, list: Seq<Privilege>)
    requires
        policy is Rules,
        tx.kind == EmissionKind::Data,
        s.itu_region == policy->Rules_0.itu_region,
        s.control is Some,
        s.license is Some,
        s.sideband is Some,
        s.dial is Some,
        ({
            let p = *policy->Rules_0;
            &&& s.license == Some(LicenseClass::Extra) ==> list == p.privileges.extra@
            &&& s.license == Some(LicenseClass::Advanced) ==> list == p.privileges.advanced@
            &&& s.license == Some(LicenseClass::General) ==> list == p.privileges.general@
            &&& s.license == Some(LicenseClass::Technician) ==> list == p.privileges.technician@
            &&& s.license == Some(LicenseClass::Novice) ==> list == p.privileges.novice@
        }),
        ({
            let p = *policy->Rules_0;
            let how = p.bandwidth.reading;
            let low = sky_low(s.dial->0 as int, s.sideband->0, tx, how) - s.margin;
            let high = sky_high(s.dial->0 as int, s.sideband->0, tx, how) + s.margin;
            let wide = audio_high(tx, how) - audio_low(tx, how);
            let automatic = s.control == Some(ControlMode::Automatic) && tx.direction != Direction::Operator;
            &&& exists|b: int| 0 <= b < p.bands@.len() && inside((#[trigger] p.bands@[b]).range, low, high)
            &&& forall|b: int|
                0 <= b < p.bands@.len() && inside((#[trigger] p.bands@[b]).range, low, high) ==> (p.channels is Some
                    ==> p.channels->0.band@ != p.bands@[b].name@) && (automatic ==> forall|x: int|
                    0 <= x < p.automatic.excluded_bands@.len() ==> (#[trigger] p.automatic.excluded_bands@[x]).band@
                        != p.bands@[b].name@)
            &&& exists|i: int| 0 <= i < p.data_segments@.len() && inside((#[trigger] p.data_segments@[i]).range, low, high)
            &&& forall|i: int|
                0 <= i < p.data_segments@.len() && inside((#[trigger] p.data_segments@[i]).range, low, high) ==> segment_takes(
                    p.data_segments@[i],
                    p,
                    low,
                    high,
                    wide,
                )
            &&& reached(list, low, high)
            &&& forall|i: int|
                0 <= i < list.len() && inside((#[trigger] list[i]).range, low, high) ==> match list[i].emissions {
                    None => true,
                    Some(only) => exists|k: int| 0 <= k < only@.len() && (#[trigger] only@[k])@ == "data"@,
                }
            &&& automatic ==> inside_one(p.automatic.segments@, low, high) || (p.automatic.elsewhere is Some && wide
                <= p.automatic.elsewhere->0.max_bandwidth && (p.automatic.elsewhere->0.requires_response ==> tx.direction
                == Direction::Respond))
        }),
    ensures
        policy.ruling(s, tx).verdict != Verdict::Blocked,
{
    reveal(rules_ruling);
    let p = *policy->Rules_0;
    let how = p.bandwidth.reading;
    let low = sky_low(s.dial->0 as int, s.sideband->0, tx, how) - s.margin;
    let high = sky_high(s.dial->0 as int, s.sideband->0, tx, how) + s.margin;
    let b = first_band(p.bands@, 0, low, high, true);
    lemma_band_at(p.bands@, low, high, 0);
    assert(b < p.bands@.len());
    assert(inside(p.bands@[b as int].range, low, high));
    lemma_excluded_at(p.automatic.excluded_bands@, p.bands@[b as int].name@, 0);
    let x = first_excluded(p.automatic.excluded_bands@, p.bands@[b as int].name@, 0);
    lemma_segment_at(p.data_segments@, low, high, 0);
    lemma_range_at(p.automatic.segments@, low, high, 0);
    lemma_privilege_at(list, low, high, 0);
    let n = first_segment(p.data_segments@, low, high, 0);
    assert(n < p.data_segments@.len());
    assert(segment_takes(p.data_segments@[n as int], p, low, high, audio_high(tx, how) - audio_low(tx, how)));
    let g = first_privilege(list, low, high, 0);
    assert(g < list.len());
    assert(inside(list[g as int].range, low, high));
    assert(list == crate::regulatory::privileges_for(p, s.license->0));
}

/// What is missing is what is said: the first of a foreign region, unknown control, class, sideband
/// and dial is the word of the refusal; then, a signal in no band.
pub proof fn what_is_missing_is_said(policy: Policy, s: Situation, tx: Emission)
    requires
        policy is Rules,
    ensures
        ({
            let p = *policy->Rules_0;
            let r = policy.ruling(s, tx);
            let how = p.bandwidth.reading;
            if s.itu_region != p.itu_region {
                r.verdict == Verdict::Blocked && r.code == "region"@
            } else if s.control is None {
                r.verdict == Verdict::Blocked && r.code == "no_control"@
            } else if s.license is None {
                r.verdict == Verdict::Blocked && r.code == "no_license"@
            } else if s.sideband is None {
                r.verdict == Verdict::Blocked && r.code == "no_sideband"@
            } else if s.dial is None {
                r.verdict == Verdict::Blocked && r.code == "no_dial"@
            } else {
                (forall|b: int|
                    0 <= b < p.bands@.len() ==> !inside(
                        (#[trigger] p.bands@[b]).range,
                        sky_low(s.dial->0 as int, s.sideband->0, tx, how) - s.margin,
                        sky_high(s.dial->0 as int, s.sideband->0, tx, how) + s.margin,
                    )) ==> r.verdict == Verdict::Blocked && r.code == "out_of_band"@
            }
        }),
{
    reveal(rules_ruling);
    let p = *policy->Rules_0;
    let how = p.bandwidth.reading;
    if s.control is Some && s.license is Some && s.sideband is Some && s.dial is Some {
        lemma_band_at(
            p.bands@,
            sky_low(s.dial->0 as int, s.sideband->0, tx, how) - s.margin,
            sky_high(s.dial->0 as int, s.sideband->0, tx, how) + s.margin,
            0,
        );
    }
}

/// The profile of a policy that has one.
spec fn rules_of(policy: Policy) -> Profile {
    *(policy->Rules_0)
}

/// Whether a decision is about what a sketch is of.
spec fn about(r: Ruling, d: Sketch) -> bool {
    &&& r.what == d.what && r.kind == d.kind && r.direction == d.direction
    &&& r.audio == d.audio && r.bandwidth == d.audio.1 - d.audio.0 && r.rf == d.rf
    &&& r.dial == d.s.dial && r.dial_source == d.s.dial_source && r.sideband == d.s.sideband
    &&& r.control == d.s.control && r.license == d.s.license && r.margin == d.s.margin
}

proof fn lemma_advised_about(profile: Profile, s: Situation, license: LicenseClass, r: Ruling, lo: int, hi: int, d: Sketch)
    requires
        about(r, d),
    ensures
        about(advised(profile, s, license, r, lo, hi), d),
{
}

proof fn lemma_automatic_about(profile: Profile, s: Situation, tx: Emission, d: Sketch, c: Facts, segment: Segment)
    ensures
        about(automatic_ruling(profile, s, tx, d, c, segment), d),
{
}

proof fn lemma_outside_about(profile: Profile, d: Sketch, lo: int, hi: int, m: int, rf_text: Seq<char>)
    ensures
        about(outside_ruling(profile, d, lo, hi, m, rf_text), d),
{
}

proof fn lemma_data_about(profile: Profile, s: Situation, tx: Emission, c: Facts, band: Seq<char>, d: Sketch)
    ensures
        about(data_ruling(profile, s, tx, c, band, d), d),
{
    lemma_outside_about(profile, d, c.lo, c.hi, s.margin as int, c.rf_text);
    let n = first_segment(profile.data_segments@, c.glo, c.ghi, 0);
    if n < profile.data_segments@.len() {
        let segment = profile.data_segments@[n as int];
        lemma_automatic_about(profile, s, tx, d.on_segment(segment.range, segment.rule@), c, segment);
    }
}

proof fn lemma_other_about(profile: Profile, tx: Emission, c: Facts, d: Sketch)
    ensures
        about(other_ruling(profile, tx, c, d), d),
{
}

proof fn lemma_sixty_about(profile: Profile, s: Situation, tx: Emission, c: Facts, channels: Channels, d: Sketch)
    ensures
        about(sixty_ruling(profile, s, tx, c, channels, d), d),
{
}

proof fn lemma_rules_about(profile: Profile, s: Situation, tx: Emission, d: Sketch)
    ensures
        about(rules_ruling(profile, s, tx, d), d),
{
    reveal(rules_ruling);
    match needs(profile, s, tx, d) {
        Err(_) => {},
        Ok(c) => match profile.band_of(c.glo, c.ghi) {
            None => {},
            Some(band) => {
                let e = Sketch { band: Some(band.name@), ..d };
                lemma_data_about(profile, s, tx, c, band.name@, e);
                lemma_other_about(profile, tx, c, e);
                if profile.channels is Some {
                    lemma_sixty_about(profile, s, tx, c, profile.channels->0, e);
                }
            },
        },
    }
}

/// A decision says what was judged: the audio under the profile's reading, where that lands on the
/// air, how wide it is, and the facts of the station as they were given.
pub proof fn a_decision_says_what_was_judged(policy: Policy, s: Situation, tx: Emission)
    ensures
        ({
            let r = policy.ruling(s, tx);
            let how = if policy is Rules { policy->Rules_0.bandwidth.reading } else { Reading::Wider };
            &&& r.what == tx.what && r.kind == tx.kind && r.direction == tx.direction
            &&& r.audio == (audio_low(tx, how), audio_high(tx, how))
            &&& r.bandwidth == audio_high(tx, how) - audio_low(tx, how)
            &&& r.dial == s.dial && r.dial_source == s.dial_source && r.sideband == s.sideband
            &&& r.control == s.control && r.license == s.license && r.margin == s.margin
            &&& s.dial is Some && s.sideband is Some ==> r.rf == Some(
                (sky_low(s.dial->0 as int, s.sideband->0, tx, how), sky_high(s.dial->0 as int, s.sideband->0, tx, how)),
            )
            &&& s.dial is None || s.sideband is None ==> r.rf is None
        }),
{
    if policy is Rules {
        lemma_rules_about(rules_of(policy), s, tx, sketch(s, tx, policy.reads()));
    }
}

/// Whether two runs of frequencies have one in common.
pub open spec fn meet(r: Range, low: int, high: int) -> bool {
    low <= r.high && r.low <= high
}

/// Whether a station's power is over a limit that is set where it transmits, for everybody or for its
/// operator's class.
pub open spec fn overpowered(limit: PowerLimit, s: Situation, class: Seq<char>, low: int, high: int) -> bool {
    &&& s.power_mw is Some && s.power_mw->0 > limit.max_mw
    &&& meet(limit.range, low, high)
    &&& limit.classes is None || exists|k: int| 0 <= k < (limit.classes->0)@.len() && (#[trigger] (limit.classes->0)@[k])@ == class
}

proof fn lemma_power_notes(limits: Seq<PowerLimit>, s: Situation, license: LicenseClass, low: int, high: int, n: nat)
    requires
        n <= limits.len(),
    ensures
        power_notes(limits, s, license, low, high, n).len() > 0 <==> exists|i: int|
            0 <= i < n && overpowered(#[trigger] limits[i], s, license.word(), low, high),
    decreases n,
{
    if n > 0 {
        lemma_power_notes(limits, s, license, low, high, (n - 1) as nat);
        let last = limits[n - 1];
        assert(over_limit(last, s, license, low, high) == overpowered(last, s, license.word(), low, high));
        if overpowered(last, s, license.word(), low, high) {
            assert(overpowered(limits[n - 1], s, license.word(), low, high));
        }
        if exists|i: int| 0 <= i < n && overpowered(#[trigger] limits[i], s, license.word(), low, high) {
            let i = choose|i: int| 0 <= i < n && overpowered(#[trigger] limits[i], s, license.word(), low, high);
            if i < n - 1 {
                assert(overpowered(limits[i], s, license.word(), low, high));
            }
        }
    }
}

proof fn lemma_area_at(s: Seq<crate::regulatory::profile::PlanArea>, low: int, high: int, whole: bool, from: nat)
    ensures
        ({
            let n = first_area(s, low, high, whole, from);
            &&& n < s.len() ==> from <= n && if whole { inside(s[n as int].range, low, high) } else { meet(s[n as int].range, low, high) }
            &&& n >= s.len() ==> forall|i: int|
                from <= i < s.len() ==> if whole {
                    !inside((#[trigger] s[i]).range, low, high)
                } else {
                    !meet(s[i].range, low, high)
                }
        }),
    decreases s.len() - from,
{
    if from < s.len() && !(if whole { s[from as int].range.keeps(low, high) } else { s[from as int].range.touches(low, high) }) {
        lemma_area_at(s, low, high, whole, from + 1);
    }
}

/// Data that goes off 60 m goes with a warning exactly where there is something to warn of: the
/// station's power is over a limit that is set where it transmits, or the band plan is asked and the
/// signal is on an area to stay out of or in none of those for data. What is only advice never
/// refuses.
pub proof fn a_warning_has_a_reason(policy: Policy, s: Situation, tx: Emission, class: Seq<char>)
    requires
        policy is Rules,
        tx.kind == EmissionKind::Data,
        policy.ruling(s, tx).verdict != Verdict::Blocked,
        policy->Rules_0.channels is None || policy.ruling(s, tx).band != Some(policy->Rules_0.channels->0.band@),
        s.license == Some(LicenseClass::Extra) ==> class == "extra"@,
        s.license == Some(LicenseClass::Advanced) ==> class == "advanced"@,
        s.license == Some(LicenseClass::General) ==> class == "general"@,
        s.license == Some(LicenseClass::Technician) ==> class == "technician"@,
        s.license == Some(LicenseClass::Novice) ==> class == "novice"@,
    ensures
        ({
            let p = *policy->Rules_0;
            let how = p.bandwidth.reading;
            let low = sky_low(s.dial->0 as int, s.sideband->0, tx, how);
            let high = sky_high(s.dial->0 as int, s.sideband->0, tx, how);
            let plan = p.band_plan->0;
            policy.ruling(s, tx).verdict == Verdict::Warning <==> {
                ||| exists|i: int| 0 <= i < p.power@.len() && overpowered(#[trigger] p.power@[i], s, class, low, high)
                ||| s.band_plan && p.band_plan is Some && {
                    ||| exists|i: int| 0 <= i < plan.avoid@.len() && meet((#[trigger] plan.avoid@[i]).range, low, high)
                    ||| forall|i: int| 0 <= i < plan.data@.len() ==> !inside((#[trigger] plan.data@[i]).range, low, high)
                }
            }
        }),
{
    reveal(rules_ruling);
    let p = rules_of(policy);
    let how = p.bandwidth.reading;
    let low = sky_low(s.dial->0 as int, s.sideband->0, tx, how);
    let high = sky_high(s.dial->0 as int, s.sideband->0, tx, how);
    what_goes_is_known_and_in_a_band(policy, s, tx);
    assert(s.license->0.word() == class);
    lemma_power_notes(p.power@, s, s.license->0, low, high, p.power@.len());
    if p.band_plan is Some {
        let plan = p.band_plan->0;
        lemma_area_at(plan.avoid@, low, high, false, 0);
        lemma_area_at(plan.data@, low, high, true, 0);
        let a = first_area(plan.avoid@, low, high, false, 0);
        let d = first_area(plan.data@, low, high, true, 0);
        if a < plan.avoid@.len() {
            assert(meet(plan.avoid@[a as int].range, low, high));
        }
        if d < plan.data@.len() {
            assert(inside(plan.data@[d as int].range, low, high));
        }
    }
    let n = first_segment(p.data_segments@, low - s.margin, high + s.margin, 0);
    let d0 = sketch(s, tx, how);
    let c = needs(p, s, tx, d0)->Ok_0;
    assert(c.lo == low && c.hi == high);
}

proof fn lemma_advice_refuses_nothing(profile: Profile, s: Situation, license: LicenseClass, r: Ruling, lo: int, hi: int)
    requires
        r.verdict != Verdict::Blocked,
    ensures
        advised(profile, s, license, r, lo, hi).verdict != Verdict::Blocked,
{
}

proof fn lemma_data_code(profile: Profile, s: Situation, tx: Emission, c: Facts, band: Seq<char>, d: Sketch)
    requires
        !c.automatic,
        data_ruling(profile, s, tx, c, band, d).verdict == Verdict::Blocked,
    ensures
        ({
            let n = first_segment(profile.data_segments@, c.glo, c.ghi, 0);
            let code = data_ruling(profile, s, tx, c, band, d).code;
            let wide = d.audio.1 - d.audio.0;
            if n >= profile.data_segments@.len() {
                if wide > profile.data.max_bandwidth {
                    code == "too_wide"@
                } else if closest_segment(profile.data_segments@, c.lo, c.hi, s.margin as int, profile.data_segments@.len()) is Some {
                    code == "outside_data_segment"@
                } else {
                    code == "no_data_here"@
                }
            } else {
                segment_takes(profile.data_segments@[n as int], profile, c.glo, c.ghi, wide) ==> code == "privilege"@
            }
        }),
{
    let n = first_segment(profile.data_segments@, c.glo, c.ghi, 0);
    if n < profile.data_segments@.len() {
        let segment = profile.data_segments@[n as int];
        let e = d.on_segment(segment.range, segment.rule@);
        let r = e.close(
            Verdict::Legal,
            "permitted"@,
            segment.rule@,
            "FCC: data permitted — "@ + crate::text::rounded(d.width()) + " Hz fits the "@ + band + " data segment"@,
            c.rf_text + ": inside the "@ + band + " data segment "@ + segment.range.in_khz() + " ("@ + segment.rule@
                + "), within "@ + c.license.heading() + " privileges, under "@ + crate::regulatory::judge::control_words(
                c.control,
            ) + "."@,
        );
        lemma_advice_refuses_nothing(profile, s, c.license, r, c.lo, c.hi);
    }
}

/// Why data off 60 m is refused is said by the first rule it breaks. Wider than the segment it lies
/// in allows, or than data may be where it lies in none, it is too wide; in no data segment, it is
/// outside one it touches with its margin, or there is no data here; in none of the operator's own
/// privileges, or only in such as leave data out, it is a matter of privilege.
pub proof fn a_refusal_names_the_rule(policy: Policy, s: Situation, tx: Emission)
    requires
        policy is Rules,
        tx.kind == EmissionKind::Data,
        policy.ruling(s, tx).verdict == Verdict::Blocked,
        policy.ruling(s, tx).band is Some,
        policy->Rules_0.channels is None || policy.ruling(s, tx).band != Some(policy->Rules_0.channels->0.band@),
        s.control != Some(ControlMode::Automatic) || tx.direction == Direction::Operator,
    ensures
        ({
            let p = *policy->Rules_0;
            let how = p.bandwidth.reading;
            let low = sky_low(s.dial->0 as int, s.sideband->0, tx, how) - s.margin;
            let high = sky_high(s.dial->0 as int, s.sideband->0, tx, how) + s.margin;
            let wide = audio_high(tx, how) - audio_low(tx, how);
            let code = policy.ruling(s, tx).code;
            let in_one = exists|i: int| 0 <= i < p.data_segments@.len() && inside((#[trigger] p.data_segments@[i]).range, low, high);
            let near_one = exists|i: int| 0 <= i < p.data_segments@.len() && meet((#[trigger] p.data_segments@[i]).range, low, high);
            &&& !in_one && wide > p.data.max_bandwidth ==> code == "too_wide"@
            &&& !in_one && wide <= p.data.max_bandwidth && near_one ==> code == "outside_data_segment"@
            &&& !in_one && wide <= p.data.max_bandwidth && !near_one ==> code == "no_data_here"@
            &&& in_one && (forall|i: int|
                0 <= i < p.data_segments@.len() && inside((#[trigger] p.data_segments@[i]).range, low, high) ==> segment_takes(
                    p.data_segments@[i],
                    p,
                    low,
                    high,
                    wide,
                )) ==> code == "privilege"@
        }),
{
    let p = rules_of(policy);
    let how = p.bandwidth.reading;
    let low = sky_low(s.dial->0 as int, s.sideband->0, tx, how) - s.margin;
    let high = sky_high(s.dial->0 as int, s.sideband->0, tx, how) + s.margin;
    lemma_segment_at(p.data_segments@, low, high, 0);
    let n = first_segment(p.data_segments@, low, high, 0);
    if n < p.data_segments@.len() {
        assert(inside(p.data_segments@[n as int].range, low, high));
    }
    lemma_closest(p.data_segments@, low + s.margin, high - s.margin, s.margin as int, p.data_segments@.len());
    lemma_code_off_sixty(policy, s, tx);
}

proof fn lemma_code_off_sixty(policy: Policy, s: Situation, tx: Emission)
    requires
        policy is Rules,
        tx.kind == EmissionKind::Data,
        policy.ruling(s, tx).verdict == Verdict::Blocked,
        policy.ruling(s, tx).band is Some,
        policy->Rules_0.channels is None || policy.ruling(s, tx).band != Some(policy->Rules_0.channels->0.band@),
        s.control != Some(ControlMode::Automatic) || tx.direction == Direction::Operator,
    ensures
        ({
            let p = *policy->Rules_0;
            let d = sketch(s, tx, p.bandwidth.reading);
            let c = needs(p, s, tx, d)->Ok_0;
            let n = first_segment(p.data_segments@, c.glo, c.ghi, 0);
            let code = policy.ruling(s, tx).code;
            let wide = d.audio.1 - d.audio.0;
            &&& needs(p, s, tx, d) is Ok
            &&& if n >= p.data_segments@.len() {
                if wide > p.data.max_bandwidth {
                    code == "too_wide"@
                } else if closest_segment(p.data_segments@, c.lo, c.hi, s.margin as int, p.data_segments@.len()) is Some {
                    code == "outside_data_segment"@
                } else {
                    code == "no_data_here"@
                }
            } else {
                segment_takes(p.data_segments@[n as int], p, c.glo, c.ghi, wide) ==> code == "privilege"@
            }
        }),
{
    let p = rules_of(policy);
    let d = sketch(s, tx, p.bandwidth.reading);
    lemma_off_sixty(policy, s, tx);
    let c = needs(p, s, tx, d)->Ok_0;
    let band = p.band_of(c.glo, c.ghi)->0;
    lemma_data_code(p, s, tx, c, band.name@, Sketch { band: Some(band.name@), ..d });
}

/// Off 60 m data is judged as data, where a band holds it and automatic control is no matter.
proof fn lemma_off_sixty(policy: Policy, s: Situation, tx: Emission)
    requires
        policy is Rules,
        tx.kind == EmissionKind::Data,
        policy.ruling(s, tx).band is Some,
        policy->Rules_0.channels is None || policy.ruling(s, tx).band != Some(policy->Rules_0.channels->0.band@),
        s.control != Some(ControlMode::Automatic) || tx.direction == Direction::Operator,
    ensures
        ({
            let p = *policy->Rules_0;
            let d = sketch(s, tx, p.bandwidth.reading);
            &&& needs(p, s, tx, d) is Ok
            &&& p.band_of((needs(p, s, tx, d)->Ok_0).glo, (needs(p, s, tx, d)->Ok_0).ghi) is Some
            &&& policy.ruling(s, tx) == data_ruling(
                p,
                s,
                tx,
                needs(p, s, tx, d)->Ok_0,
                p.band_of((needs(p, s, tx, d)->Ok_0).glo, (needs(p, s, tx, d)->Ok_0).ghi)->0.name@,
                Sketch {
                    band: Some(p.band_of((needs(p, s, tx, d)->Ok_0).glo, (needs(p, s, tx, d)->Ok_0).ghi)->0.name@),
                    ..d
                },
            )
        }),
{
    reveal(rules_ruling);
    let p = rules_of(policy);
    let d = sketch(s, tx, p.bandwidth.reading);
    lemma_band_kept(policy, s, tx);
}

proof fn lemma_band_kept(policy: Policy, s: Situation, tx: Emission)
    requires
        policy is Rules,
        policy.ruling(s, tx).band is Some,
    ensures
        ({
            let p = *policy->Rules_0;
            let d = sketch(s, tx, p.bandwidth.reading);
            &&& needs(p, s, tx, d) is Ok
            &&& p.band_of((needs(p, s, tx, d)->Ok_0).glo, (needs(p, s, tx, d)->Ok_0).ghi) is Some
            &&& policy.ruling(s, tx).band == Some(
                p.band_of((needs(p, s, tx, d)->Ok_0).glo, (needs(p, s, tx, d)->Ok_0).ghi)->0.name@,
            )
        }),
{
    reveal(rules_ruling);
    let p = rules_of(policy);
    let d = sketch(s, tx, p.bandwidth.reading);
    match needs(p, s, tx, d) {
        Err(_) => {},
        Ok(c) => match p.band_of(c.glo, c.ghi) {
            None => {},
            Some(band) => {
                let e = Sketch { band: Some(band.name@), ..d };
                lemma_data_band(p, s, tx, c, band.name@, e);
                lemma_other_band(p, tx, c, e);
                if p.channels is Some {
                    lemma_sixty_band(p, s, tx, c, p.channels->0, e);
                }
            },
        },
    }
}

proof fn lemma_data_band(profile: Profile, s: Situation, tx: Emission, c: Facts, band: Seq<char>, d: Sketch)
    ensures
        data_ruling(profile, s, tx, c, band, d).band == d.band,
{
    lemma_outside_band(profile, d, c.lo, c.hi, s.margin as int, c.rf_text);
    let n = first_segment(profile.data_segments@, c.glo, c.ghi, 0);
    if n < profile.data_segments@.len() {
        let segment = profile.data_segments@[n as int];
        lemma_automatic_band(profile, s, tx, d.on_segment(segment.range, segment.rule@), c, segment);
    }
}

proof fn lemma_outside_band(profile: Profile, d: Sketch, lo: int, hi: int, m: int, rf_text: Seq<char>)
    ensures
        outside_ruling(profile, d, lo, hi, m, rf_text).band == d.band,
{
}

proof fn lemma_automatic_band(profile: Profile, s: Situation, tx: Emission, d: Sketch, c: Facts, segment: Segment)
    ensures
        automatic_ruling(profile, s, tx, d, c, segment).band == d.band,
{
}

proof fn lemma_other_band(profile: Profile, tx: Emission, c: Facts, d: Sketch)
    ensures
        other_ruling(profile, tx, c, d).band == d.band,
{
}

proof fn lemma_sixty_band(profile: Profile, s: Situation, tx: Emission, c: Facts, channels: Channels, d: Sketch)
    ensures
        sixty_ruling(profile, s, tx, c, channels, d).band == d.band,
{
}

proof fn lemma_closest(s: Seq<Segment>, lo: int, hi: int, m: int, n: nat)
    requires
        n <= s.len(),
    ensures
        match closest_segment(s, lo, hi, m, n) {
            Some(k) => k < n && meet(s[k as int].range, lo - m, hi + m),
            None => forall|i: int| 0 <= i < n ==> !meet((#[trigger] s[i]).range, lo - m, hi + m),
        },
    decreases n,
{
    if n > 0 {
        lemma_closest(s, lo, hi, m, (n - 1) as nat);
    }
}

/// Morse and tests off 60 m go wherever the operator's own privileges hold them, with their margin,
/// and leave them in; a keying test, wherever the dial is in one. Bands of data do not come into it.
pub proof fn what_is_no_data_goes_within_the_privileges(policy: Policy, s: Situation, tx: Emission, list: Seq<Privilege>)
    requires
        policy is Rules,
        tx.kind != EmissionKind::Data,
        s.control != Some(ControlMode::Automatic) || tx.direction == Direction::Operator,
        s.license == Some(LicenseClass::Extra) ==> list == policy->Rules_0.privileges.extra@,
        s.license == Some(LicenseClass::Advanced) ==> list == policy->Rules_0.privileges.advanced@,
        s.license == Some(LicenseClass::General) ==> list == policy->Rules_0.privileges.general@,
        s.license == Some(LicenseClass::Technician) ==> list == policy->Rules_0.privileges.technician@,
        s.license == Some(LicenseClass::Novice) ==> list == policy->Rules_0.privileges.novice@,
        policy.ruling(s, tx).band is Some,
        policy->Rules_0.channels is None || policy.ruling(s, tx).band != Some(policy->Rules_0.channels->0.band@),
    ensures
        ({
            let p = *policy->Rules_0;
            let how = p.bandwidth.reading;
            let low = sky_low(s.dial->0 as int, s.sideband->0, tx, how) - s.margin;
            let high = sky_high(s.dial->0 as int, s.sideband->0, tx, how) + s.margin;
            let word = if tx.kind == EmissionKind::Cw { "cw"@ } else { "test"@ };
            let r = policy.ruling(s, tx);
            &&& tx.kind == EmissionKind::Nothing ==> (r.verdict == Verdict::Legal <==> reached(list, s.dial->0 as int, s.dial->0 as int))
            &&& tx.kind != EmissionKind::Nothing && reached(list, low, high) && (forall|i: int|
                0 <= i < list.len() && inside((#[trigger] list[i]).range, low, high) ==> match list[i].emissions {
                    None => true,
                    Some(only) => exists|k: int| 0 <= k < only@.len() && (#[trigger] only@[k])@ == word,
                }) ==> r.verdict == Verdict::Legal
            &&& r.verdict != Verdict::Legal ==> r.verdict == Verdict::Blocked && r.code == "privilege"@
        }),
{
    reveal(rules_ruling);
    let p = rules_of(policy);
    let how = p.bandwidth.reading;
    let low = sky_low(s.dial->0 as int, s.sideband->0, tx, how) - s.margin;
    let high = sky_high(s.dial->0 as int, s.sideband->0, tx, how) + s.margin;
    let dial = s.dial->0 as int;
    lemma_privilege_at(list, low, high, 0);
    lemma_privilege_at(list, dial, dial, 0);
    let g = first_privilege(list, low, high, 0);
    let d = first_privilege(list, dial, dial, 0);
    if g < list.len() {
        assert(inside(list[g as int].range, low, high));
    }
    if d < list.len() {
        assert(inside(list[d as int].range, dial, dial));
    }
}

/// The frequencies a 60 m channel holds: half its width on each side of its centre.
pub open spec fn in_channel(channels: Channels, i: int, low: int, high: int) -> bool {
    2 * (channels.list@[i].center - low) <= channels.width && 2 * (high - channels.list@[i].center) <= channels.width
}

/// Whether the channels are of a size that frequencies can be told apart by.
pub open spec fn of_some_size(channels: Channels) -> bool {
    &&& 0 <= channels.width <= 1_000_000_000_000 && channels.width % 2 == 0
    &&& forall|i: int| 0 <= i < channels.list@.len() ==> 0 <= (#[trigger] channels.list@[i]).center <= 1_000_000_000_000_000
}

proof fn lemma_channel_at(channels: Channels, low: int, high: int, from: nat)
    requires
        of_some_size(channels),
    ensures
        ({
            let n = first_channel(channels, low, high, from);
            &&& n < channels.list@.len() ==> 2 * (low - channels.list@[n as int].center) <= channels.width && 2 * (
            channels.list@[n as int].center - high) <= channels.width
            &&& n >= channels.list@.len() ==> forall|i: int|
                from <= i < channels.list@.len() ==> 2 * (low - (#[trigger] channels.list@[i]).center) > channels.width || 2 * (
                channels.list@[i].center - high) > channels.width
        }),
    decreases channels.list@.len() - from,
{
    if from < channels.list@.len() {
        let c = channels.list@[from as int];
        assert(0 <= c.center <= 1_000_000_000_000_000);
        if !crate::regulatory::channel_span(channels, c).touches(low, high) {
            lemma_channel_at(channels, low, high, from + 1);
        }
    }
}

/// What radiates on 60 m goes only as the rules have it there: it is one of the emissions allowed on
/// the band, and either set up for a channel or wholly in a data segment of the band, data no wider
/// than data may be. Set up for a channel is, for Morse, centred on it within the tolerance; and for
/// anything else on the channels' sideband, the dial within the tolerance of the channel's carrier,
/// and all of the signal, with its margin, inside the channel.
pub proof fn sixty_metres_keeps_to_its_channels(policy: Policy, s: Situation, tx: Emission, word: Seq<char>, side: Seq<char>)
    requires
        policy is Rules,
        policy->Rules_0.channels is Some,
        of_some_size(policy->Rules_0.channels->0),
        tx.kind != EmissionKind::Nothing,
        policy.ruling(s, tx).verdict != Verdict::Blocked,
        policy.ruling(s, tx).band == Some(policy->Rules_0.channels->0.band@),
        tx.kind == EmissionKind::Data ==> word == "data"@,
        tx.kind == EmissionKind::Cw ==> word == "cw"@,
        tx.kind == EmissionKind::Test ==> word == "test"@,
        s.sideband == Some(Sideband::Usb) ==> side == "usb"@,
        s.sideband == Some(Sideband::Lsb) ==> side == "lsb"@,
    ensures
        ({
            let p = *policy->Rules_0;
            let how = p.bandwidth.reading;
            let channels = p.channels->0;
            let dial = s.dial->0 as int;
            let low = sky_low(dial, s.sideband->0, tx, how);
            let high = sky_high(dial, s.sideband->0, tx, how);
            let wide = audio_high(tx, how) - audio_low(tx, how);
            &&& p.sixty_meter_emissions is Some ==> exists|k: int|
                0 <= k < p.sixty_meter_emissions->0.allowed@.len() && (#[trigger] p.sixty_meter_emissions->0.allowed@[k])@ == word
            &&& {
                ||| exists|i: int|
                    0 <= i < channels.list@.len() && if tx.kind == EmissionKind::Cw {
                        -2 * channels.carrier_tolerance <= low + high - 2 * (#[trigger] channels.list@[i]).center <= 2
                            * channels.carrier_tolerance
                    } else {
                        &&& channels.sideband@ == side
                        &&& -channels.carrier_tolerance <= dial - (channels.list@[i].center - channels.carrier_offset)
                            <= channels.carrier_tolerance
                        &&& in_channel(channels, i, low - s.margin, high + s.margin)
                    }
                ||| exists|i: int|
                    0 <= i < p.data_segments@.len() && (#[trigger] p.data_segments@[i]).band@ == channels.band@ && inside(
                        p.data_segments@[i].range,
                        low - s.margin,
                        high + s.margin,
                    ) && (tx.kind == EmissionKind::Data ==> wide <= p.data.max_bandwidth)
            }
        }),
{
    reveal(rules_ruling);
    let p = rules_of(policy);
    let how = p.bandwidth.reading;
    let channels = p.channels->0;
    let dial = s.dial->0 as int;
    what_goes_is_known_and_in_a_band(policy, s, tx);
    let low = sky_low(dial, s.sideband->0, tx, how);
    let high = sky_high(dial, s.sideband->0, tx, how);
    assert(tx.kind.word() == word);
    assert(s.sideband->0.word() == side);
    let ch = first_channel(channels, low - s.margin, high + s.margin, 0);
    let n = first_segment_of(p.data_segments@, channels.band@, low - s.margin, high + s.margin, 0);
    lemma_segment_of_at(p.data_segments@, channels.band@, low - s.margin, high + s.margin, 0);
    let b = p.band_of(low - s.margin, high + s.margin)->0;
    if ch < channels.list@.len() {
        let c = channels.list@[ch as int];
        assert(0 <= c.center <= 1_000_000_000_000_000);
    } else {
        assert(n < p.data_segments@.len());
        assert(p.data_segments@[n as int].band@ == channels.band@);
    }
}

proof fn lemma_ladder_edges(air: AirOccupancy, floors: Seq<bool>, top: nat, j: nat)
    requires
        j <= top < air.rungs@.len(),
    ensures
        ({
            let all = ladder_edges(air, floors, top);
            let own = air.rungs@[j as int].edges;
            let control = if j < floors.len() && floors[j as int] { air.control_floor } else { air.control_ordinary };
            &&& all.power.0 <= own.power.0 && own.power.1 <= all.power.1
            &&& all.spectral.0 <= own.spectral.0 && own.spectral.1 <= all.spectral.1
            &&& all.power.0 <= control.power.0 && control.power.1 <= all.power.1
            &&& all.spectral.0 <= control.spectral.0 && control.spectral.1 <= all.spectral.1
        }),
    decreases top,
{
    if j < top {
        lemma_ladder_edges(air, floors, (top - 1) as nat, j);
    }
}

/// A rung is judged with everything below it: as data of the exchange's direction, over audio that
/// holds what every rung up to it occupies and what their control frames do, the tone floor's for the
/// rungs that are its own.
pub proof fn a_rung_is_judged_with_all_below_it(air: AirOccupancy, floors: Seq<bool>, rung: nat, direction: Direction, j: nat)
    requires
        j <= rung < air.rungs@.len(),
    ensures
        ({
            let e = rung_emission(air, floors, rung, direction);
            let own = air.rungs@[j as int].edges;
            let control = if j < floors.len() && floors[j as int] { air.control_floor } else { air.control_ordinary };
            &&& e.kind == EmissionKind::Data && e.direction == direction
            &&& e.audio.power.0 <= own.power.0 && own.power.1 <= e.audio.power.1
            &&& e.audio.spectral.0 <= own.spectral.0 && own.spectral.1 <= e.audio.spectral.1
            &&& e.audio.power.0 <= control.power.0 && control.power.1 <= e.audio.power.1
            &&& e.audio.spectral.0 <= control.spectral.0 && control.spectral.1 <= e.audio.spectral.1
        }),
{
    lemma_ladder_edges(air, floors, rung, j);
}

proof fn lemma_first_refused_is(policy: Policy, s: Situation, air: AirOccupancy, floors: Seq<bool>, direction: Direction, from: nat)
    requires
        from <= air.rungs@.len(),
    ensures
        ({
            let n = first_refused(policy, s, air, floors, direction, from);
            &&& from <= n <= air.rungs@.len()
            &&& n < air.rungs@.len() ==> policy.ruling(s, rung_emission(air, floors, n, direction)).verdict == Verdict::Blocked
            &&& forall|j: nat|
                from <= j < n ==> policy.ruling(s, #[trigger] rung_emission(air, floors, j, direction)).verdict
                    != Verdict::Blocked
        }),
    decreases air.rungs@.len() - from,
{
    if from < air.rungs@.len() && policy.ruling(s, rung_emission(air, floors, from, direction)).allows() {
        lemma_first_refused_is(policy, s, air, floors, direction, from + 1);
    }
}

/// The ceiling is as high as the rules let it be and no higher: every rung below the first that is
/// refused goes, that one is refused, and there is none where the whole ladder goes.
pub proof fn the_ceiling_is_the_last_that_goes(policy: Policy, s: Situation, air: AirOccupancy, floors: Seq<bool>, direction: Direction)
    ensures
        ({
            let n = first_refused(policy, s, air, floors, direction, 0);
            &&& n <= air.rungs@.len()
            &&& n < air.rungs@.len() ==> policy.ruling(s, rung_emission(air, floors, n, direction)).verdict == Verdict::Blocked
            &&& forall|j: nat|
                j < n ==> policy.ruling(s, #[trigger] rung_emission(air, floors, j, direction)).verdict != Verdict::Blocked
        }),
{
    lemma_first_refused_is(policy, s, air, floors, direction, 0);
}

} // verus!
