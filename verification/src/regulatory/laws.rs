//! What holds of the policy as a whole.
use vstd::prelude::*;

use crate::regulatory::judge::{
    data_ruling, first_channel, first_excluded, first_privilege, first_range, first_segment, first_segment_of,
    needs, on_channel, other_ruling, rules_ruling, sixty_ruling, sketch, Facts, Sketch,
};
use crate::regulatory::occupancy::AirOccupancy;
use crate::regulatory::profile::{first_band, Band, Channels, Privilege, Profile, Range, Segment};
use crate::regulatory::{
    automatic_dials, channel_reached, channel_span, channels_dials, dials_for, excluded_band, first_refused, in_dial_order, is_floor, ladder_edges, on_air,
    overlap, piece_dials, placed_dial, privilege_dials, privileges_dials, privileges_for, rung_emission, seek_for, segment_dials,
    segments_dials, ControlMode, Dial, Direction, Edges, Emission, EmissionKind, LicenseClass, Policy, Seek, Sideband, Situation,
    Verdict,
};
use crate::text::names;

verus! {

/// Every word of the configuration for a control mode is read back as that mode.
pub proof fn control_words_read_back(c: ControlMode)
    ensures
        ControlMode::of_word(c.word()) == Some(c),
{
    reveal_strlit("local");
    reveal_strlit("remote");
    reveal_strlit("automatic");
    assert("local"@.len() == 5);
    assert("remote"@.len() == 6);
    assert("automatic"@.len() == 9);
}

/// Every word of the configuration for a license class is read back as that class.
pub proof fn license_words_read_back(c: LicenseClass)
    ensures
        LicenseClass::of_word(c.word()) == Some(c),
{
    reveal_strlit("novice");
    reveal_strlit("technician");
    reveal_strlit("general");
    reveal_strlit("advanced");
    reveal_strlit("extra");
    assert("novice"@.len() == 6);
    assert("technician"@.len() == 10);
    assert("general"@.len() == 7);
    assert("advanced"@.len() == 8);
    assert("extra"@.len() == 5);
}

/// Every word of the configuration for a sideband is read back as that sideband.
pub proof fn sideband_words_read_back(s: Sideband)
    ensures
        Sideband::of_word(s.word()) == Some(s),
{
    reveal_strlit("usb");
    reveal_strlit("lsb");
    assert("usb"@[0] == 'u');
    assert("lsb"@[0] == 'l');
}

/// The dials that put a signal inside a segment are exactly those of the dial range: a dial
/// is in the range if and only if the signal it gives, with the margin on each side, lies in
/// the segment.
pub proof fn dial_range_is_exact(segment: Range, sideband: Sideband, audio: (int, int), margin: int, dial: int)
    ensures
        ({
            let rf = on_air(dial, sideband, audio);
            segment.keeps(rf.0 - margin, rf.1 + margin) <==> (dials_for(segment, sideband, audio, margin) matches Some(
                d,
            ) && d.0 <= dial <= d.1)
        }),
{
}

/// The sidebands mirror each other: the same audio above and below a dial is as far from it.
pub proof fn sidebands_mirror(dial: int, audio: (int, int))
    ensures
        on_air(dial, Sideband::Usb, audio).0 - dial == dial - on_air(dial, Sideband::Lsb, audio).1,
        on_air(dial, Sideband::Usb, audio).1 - dial == dial - on_air(dial, Sideband::Lsb, audio).0,
        on_air(dial, Sideband::Usb, audio).1 - on_air(dial, Sideband::Usb, audio).0 == audio.1 - audio.0,
        on_air(dial, Sideband::Lsb, audio).1 - on_air(dial, Sideband::Lsb, audio).0 == audio.1 - audio.0,
{
}

/// Without rules that could be read, nothing goes; with the operator's word that none apply,
/// everything does.
pub proof fn without_rules_nothing_is_judged(s: Situation, tx: Emission, error: String)
    ensures
        !Policy::Unset.ruling(s, tx).allows(),
        !Policy::Broken(error).ruling(s, tx).allows(),
        Policy::NoProfile.ruling(s, tx).verdict == Verdict::Legal,
{
}

/// What cannot be known is a refusal: under rules, a station in another region, or whose
/// control, class, sideband or dial is not known, sends nothing.
pub proof fn what_is_not_known_is_refused(profile: Profile, s: Situation, tx: Emission)
    requires
        s.itu_region != profile.itu_region || s.control is None || s.license is None || s.sideband is None || s.dial is None,
    ensures
        !rules_ruling(profile, s, tx, sketch(s, tx, profile.bandwidth.reading)).allows(),
{
    reveal(rules_ruling);
}

/// The facts a lawful transmission rests on.
pub open spec fn known(profile: Profile, s: Situation, tx: Emission) -> Facts {
    needs(profile, s, tx, sketch(s, tx, profile.bandwidth.reading))->Ok_0
}

proof fn lemma_first_segment(s: Seq<Segment>, low: int, high: int, from: nat)
    ensures
        first_segment(s, low, high, from) < s.len() ==> s[first_segment(s, low, high, from) as int].range.keeps(low, high),
    decreases s.len() - from,
{
    if from < s.len() && !s[from as int].range.keeps(low, high) {
        lemma_first_segment(s, low, high, from + 1);
    }
}

proof fn lemma_first_privilege(s: Seq<Privilege>, low: int, high: int, from: nat)
    ensures
        first_privilege(s, low, high, from) < s.len() ==> s[first_privilege(s, low, high, from) as int].range.keeps(low, high),
    decreases s.len() - from,
{
    if from < s.len() && !s[from as int].range.keeps(low, high) {
        lemma_first_privilege(s, low, high, from + 1);
    }
}

/// A transmission of data that is let go off 60 m is lawful: with its margin it lies inside
/// one data segment, no wider than that segment's limit, and inside one of the operator's
/// privileges, which allows data.
pub proof fn data_that_goes_is_inside_a_segment(profile: Profile, s: Situation, tx: Emission)
    requires
        tx.kind == EmissionKind::Data,
        rules_ruling(profile, s, tx, sketch(s, tx, profile.bandwidth.reading)).allows(),
        profile.channels is None || rules_ruling(profile, s, tx, sketch(s, tx, profile.bandwidth.reading)).band != Some(
            profile.channels->0.band@,
        ),
    ensures
        ({
            let c = known(profile, s, tx);
            let audio = tx.audio.under(profile.bandwidth.reading);
            &&& exists|i: int|
                0 <= i < profile.data_segments@.len() && (#[trigger] profile.data_segments@[i]).range.keeps(c.glo, c.ghi)
                    && audio.1 - audio.0 <= profile.data_segments@[i].limit(profile.data).0
            &&& exists|i: int|
                0 <= i < privileges_for(profile, c.license).len() && (#[trigger] privileges_for(profile, c.license)[i]).range.keeps(
                    c.glo,
                    c.ghi,
                ) && privileges_for(profile, c.license)[i].permits("data"@)
        }),
{
    reveal(rules_ruling);
    let c = known(profile, s, tx);
    lemma_first_segment(profile.data_segments@, c.glo, c.ghi, 0);
    lemma_first_privilege(privileges_for(profile, c.license), c.glo, c.ghi, 0);
    let n = first_segment(profile.data_segments@, c.glo, c.ghi, 0);
    let p = first_privilege(privileges_for(profile, c.license), c.glo, c.ghi, 0);
    assert(profile.data_segments@[n as int].range.keeps(c.glo, c.ghi));
    assert(privileges_for(profile, c.license)[p as int].range.keeps(c.glo, c.ghi));
}

/// An automatically controlled station's data goes off 60 m only inside an automatic-control
/// segment, or as §97.221(c) allows: no wider than its limit, and only in answer where an
/// answer is required. Never on a band where automatic control is excluded.
pub proof fn automatic_data_keeps_to_its_segments(profile: Profile, s: Situation, tx: Emission)
    requires
        tx.kind == EmissionKind::Data,
        s.control == Some(ControlMode::Automatic),
        tx.direction != Direction::Operator,
        rules_ruling(profile, s, tx, sketch(s, tx, profile.bandwidth.reading)).allows(),
        profile.channels is None || rules_ruling(profile, s, tx, sketch(s, tx, profile.bandwidth.reading)).band != Some(
            profile.channels->0.band@,
        ),
    ensures
        ({
            let c = known(profile, s, tx);
            let audio = tx.audio.under(profile.bandwidth.reading);
            ||| exists|i: int|
                0 <= i < profile.automatic.segments@.len() && (#[trigger] profile.automatic.segments@[i]).keeps(c.glo, c.ghi)
            ||| profile.automatic.elsewhere is Some && audio.1 - audio.0 <= profile.automatic.elsewhere->0.max_bandwidth && (
            tx.direction == Direction::Respond || !profile.automatic.elsewhere->0.requires_response)
        }),
        ({
            let r = rules_ruling(profile, s, tx, sketch(s, tx, profile.bandwidth.reading));
            forall|i: int|
                0 <= i < profile.automatic.excluded_bands@.len() ==> r.band != Some(
                    (#[trigger] profile.automatic.excluded_bands@[i]).band@,
                )
        }),
{
    reveal(rules_ruling);
    let c = known(profile, s, tx);
    let r = rules_ruling(profile, s, tx, sketch(s, tx, profile.bandwidth.reading));
    lemma_first_range(profile.automatic.segments@, c.glo, c.ghi, 0);
    let band = profile.band_of(c.glo, c.ghi)->0;
    assert(r.band == Some(band.name@));
    lemma_not_excluded(profile, band.name@, 0);
}

proof fn lemma_first_range(s: Seq<Range>, low: int, high: int, from: nat)
    ensures
        first_range(s, low, high, from) < s.len() ==> s[first_range(s, low, high, from) as int].keeps(low, high),
    decreases s.len() - from,
{
    if from < s.len() && !s[from as int].keeps(low, high) {
        lemma_first_range(s, low, high, from + 1);
    }
}

proof fn lemma_not_excluded(profile: Profile, band: Seq<char>, from: nat)
    requires
        first_excluded(profile.automatic.excluded_bands@, band, from) >= profile.automatic.excluded_bands@.len(),
    ensures
        forall|i: int|
            from <= i < profile.automatic.excluded_bands@.len() ==> (#[trigger] profile.automatic.excluded_bands@[i]).band@ != band,
    decreases profile.automatic.excluded_bands@.len() - from,
{
    if from < profile.automatic.excluded_bands@.len() {
        lemma_not_excluded(profile, band, from + 1);
    }
}

/// An automatically controlled station never transmits on a band where automatic control is
/// excluded, whatever the emission: 60 m among them, where the profile says so.
pub proof fn automatic_stations_keep_off_excluded_bands(profile: Profile, s: Situation, tx: Emission, band: int)
    requires
        s.control == Some(ControlMode::Automatic),
        tx.direction != Direction::Operator,
        0 <= band < profile.automatic.excluded_bands@.len(),
        rules_ruling(profile, s, tx, sketch(s, tx, profile.bandwidth.reading)).band == Some(
            profile.automatic.excluded_bands@[band].band@,
        ),
    ensures
        !rules_ruling(profile, s, tx, sketch(s, tx, profile.bandwidth.reading)).allows(),
{
    reveal(rules_ruling);
    let r = rules_ruling(profile, s, tx, sketch(s, tx, profile.bandwidth.reading));
    if r.allows() {
        let c = known(profile, s, tx);
        let b = profile.band_of(c.glo, c.ghi)->0;
        assert(r.band == Some(b.name@));
        lemma_not_excluded(profile, b.name@, 0);
    }
}

/// Whether one of the privileges holds `glo..=ghi`, and the first that does allows an
/// emission of this name.
pub open spec fn privileged(list: Seq<Privilege>, glo: int, ghi: int, emission: Seq<char>) -> bool {
    let n = first_privilege(list, glo, ghi, 0);
    n < list.len() && list[n as int].permits(emission)
}

/// When data may go off 60 m.
pub open spec fn lawful_data(profile: Profile, license: LicenseClass, width: int, glo: int, ghi: int, automatic: bool, direction: Direction) -> bool {
    let n = first_segment(profile.data_segments@, glo, ghi, 0);
    &&& n < profile.data_segments@.len()
    &&& width <= profile.data_segments@[n as int].limit(profile.data).0
    &&& privileged(privileges_for(profile, license), glo, ghi, "data"@)
    &&& automatic ==> (first_range(profile.automatic.segments@, glo, ghi, 0) < profile.automatic.segments@.len() || (
    profile.automatic.elsewhere is Some && width <= profile.automatic.elsewhere->0.max_bandwidth && (direction
        == Direction::Respond || !profile.automatic.elsewhere->0.requires_response)))
}

/// When anything else may go off 60 m.
pub open spec fn lawful_other(profile: Profile, license: LicenseClass, kind: EmissionKind, dial: int, glo: int, ghi: int) -> bool {
    let list = privileges_for(profile, license);
    match kind {
        EmissionKind::Nothing => first_privilege(list, dial, dial, 0) < list.len(),
        EmissionKind::Cw => privileged(list, glo, ghi, "cw"@),
        _ => privileged(list, glo, ghi, "test"@),
    }
}

/// When a transmission may go on 60 m.
pub open spec fn lawful_sixty(profile: Profile, s: Situation, tx: Emission, c: Facts, channels: Channels, width: int) -> bool {
    let list = privileges_for(profile, c.license);
    let ch = first_channel(channels, c.lo - s.margin, c.hi + s.margin, 0);
    let n = first_segment_of(profile.data_segments@, channels.band@, c.glo, c.ghi, 0);
    &&& first_privilege(list, c.lo, c.hi, 0) < list.len()
    &&& tx.kind == EmissionKind::Nothing || {
        &&& profile.sixty_meter_emissions is Some ==> names(profile.sixty_meter_emissions->0.allowed@, tx.kind.word())
        &&& if ch < channels.list@.len() {
            on_channel(tx, c, channels, channels.list@[ch as int])
        } else {
            n < profile.data_segments@.len() && (tx.kind == EmissionKind::Data ==> width <= profile.data.max_bandwidth)
        }
    }
}

/// When a transmission may go: the conditions of the rules, without any of the words.
pub open spec fn lawful(profile: Profile, s: Situation, tx: Emission) -> bool {
    let d = sketch(s, tx, profile.bandwidth.reading);
    match needs(profile, s, tx, d) {
        Err(_) => false,
        Ok(c) => match profile.band_of(c.glo, c.ghi) {
            None => false,
            Some(band) => {
                &&& c.automatic ==> first_excluded(profile.automatic.excluded_bands@, band.name@, 0)
                    >= profile.automatic.excluded_bands@.len()
                &&& if profile.channels is Some && profile.channels->0.band@ == band.name@ {
                    lawful_sixty(profile, s, tx, c, profile.channels->0, d.width())
                } else if tx.kind == EmissionKind::Data {
                    lawful_data(profile, c.license, d.width(), c.glo, c.ghi, c.automatic, tx.direction)
                } else {
                    lawful_other(profile, c.license, tx.kind, c.dial, c.glo, c.ghi)
                }
            },
        },
    }
}


proof fn lemma_data_lawful(profile: Profile, s: Situation, tx: Emission, c: Facts, band: Seq<char>, d: Sketch)
    ensures
        data_ruling(profile, s, tx, c, band, d).allows() == lawful_data(profile, c.license, d.width(), c.glo, c.ghi, c.automatic, tx.direction),
{
}

proof fn lemma_other_lawful(profile: Profile, tx: Emission, c: Facts, d: Sketch)
    requires
        tx.kind != EmissionKind::Data,
    ensures
        other_ruling(profile, tx, c, d).allows() == lawful_other(profile, c.license, tx.kind, c.dial, c.glo, c.ghi),
{
}

proof fn lemma_sixty_lawful(profile: Profile, s: Situation, tx: Emission, c: Facts, channels: Channels, d: Sketch)
    ensures
        sixty_ruling(profile, s, tx, c, channels, d).allows() == lawful_sixty(profile, s, tx, c, channels, d.width()),
{
}

/// The policy lets a transmission go exactly when the conditions of its rules hold.
pub proof fn what_goes_is_what_is_lawful(profile: Profile, s: Situation, tx: Emission)
    ensures
        rules_ruling(profile, s, tx, sketch(s, tx, profile.bandwidth.reading)).allows() == lawful(profile, s, tx),
{
    reveal(rules_ruling);
    let d = sketch(s, tx, profile.bandwidth.reading);
    match needs(profile, s, tx, d) {
        Err(_) => {},
        Ok(c) => match profile.band_of(c.glo, c.ghi) {
            None => {},
            Some(band) => {
                let d = Sketch { band: Some(band.name@), ..d };
                if profile.channels is Some {
                    lemma_sixty_lawful(profile, s, tx, c, profile.channels->0, d);
                }
                lemma_data_lawful(profile, s, tx, c, band.name@, d);
                if tx.kind != EmissionKind::Data {
                    lemma_other_lawful(profile, tx, c, d);
                }
            },
        },
    }
}

/// The profile of a policy that has one.
spec fn rules_of(policy: Policy) -> Profile {
    *(policy->Rules_0)
}

proof fn lemma_policy_lawful(policy: Policy, s: Situation, tx: Emission)
    ensures
        policy.ruling(s, tx).allows() == match policy {
            Policy::Rules(profile) => lawful(*profile, s, tx),
            Policy::NoProfile => true,
            _ => false,
        },
{
    if policy is Rules {
        what_goes_is_what_is_lawful(rules_of(policy), s, tx);
    }
}

/// The band plan advises and never forbids: whether a transmission may go does not depend on
/// whether the band plan was asked.
pub proof fn band_plan_never_forbids(policy: Policy, s: Situation, tx: Emission)
    ensures
        policy.ruling(Situation { band_plan: true, ..s }, tx).allows() == policy.ruling(
            Situation { band_plan: false, ..s },
            tx,
        ).allows(),
{
    lemma_policy_lawful(policy, Situation { band_plan: true, ..s }, tx);
    lemma_policy_lawful(policy, Situation { band_plan: false, ..s }, tx);
}

/// Nor does it depend on the power the operator gave: a power limit is a reminder.
pub proof fn power_never_forbids(policy: Policy, s: Situation, tx: Emission, power: Option<i64>)
    ensures
        policy.ruling(Situation { power_mw: power, ..s }, tx).allows() == policy.ruling(s, tx).allows(),
{
    lemma_policy_lawful(policy, Situation { power_mw: power, ..s }, tx);
    lemma_policy_lawful(policy, s, tx);
}

/// An operator controls the station locally or remotely under the same rules.
pub proof fn local_and_remote_control_are_alike(policy: Policy, s: Situation, tx: Emission)
    ensures
        policy.ruling(Situation { control: Some(ControlMode::Local), ..s }, tx).allows() == policy.ruling(
            Situation { control: Some(ControlMode::Remote), ..s },
            tx,
        ).allows(),
{
    lemma_policy_lawful(policy, Situation { control: Some(ControlMode::Local), ..s }, tx);
    lemma_policy_lawful(policy, Situation { control: Some(ControlMode::Remote), ..s }, tx);
}

/// An operator's own test is judged alike under every control.
pub proof fn operator_tests_are_not_automatic(policy: Policy, s: Situation, tx: Emission)
    requires
        tx.direction == Direction::Operator,
    ensures
        policy.ruling(Situation { control: Some(ControlMode::Automatic), ..s }, tx).allows() == policy.ruling(
            Situation { control: Some(ControlMode::Local), ..s },
            tx,
        ).allows(),
{
    lemma_policy_lawful(policy, Situation { control: Some(ControlMode::Automatic), ..s }, tx);
    lemma_policy_lawful(policy, Situation { control: Some(ControlMode::Local), ..s }, tx);
}

/// A station that an operator controls may send all that it may send under automatic control.
pub proof fn automatic_control_allows_no_more(policy: Policy, s: Situation, tx: Emission)
    ensures
        policy.ruling(Situation { control: Some(ControlMode::Automatic), ..s }, tx).allows() ==> policy.ruling(
            Situation { control: Some(ControlMode::Local), ..s },
            tx,
        ).allows(),
{
    lemma_policy_lawful(policy, Situation { control: Some(ControlMode::Automatic), ..s }, tx);
    lemma_policy_lawful(policy, Situation { control: Some(ControlMode::Local), ..s }, tx);
}

proof fn lemma_first_refused_runs(
    policy: Policy,
    s: Situation,
    air: AirOccupancy,
    floors: Seq<bool>,
    direction: Direction,
    from: nat,
    rung: nat,
)
    requires
        from <= rung < first_refused(policy, s, air, floors, direction, from),
        from <= air.rungs@.len(),
    ensures
        rung < air.rungs@.len(),
        policy.ruling(s, rung_emission(air, floors, rung, direction)).allows(),
    decreases air.rungs@.len() - from,
{
    if from < rung {
        lemma_first_refused_runs(policy, s, air, floors, direction, from + 1, rung);
    }
}

/// The ceiling is a run from the slowest rung: every rung up to it may go, with its control
/// frames and every slower rung's, and what each of them occupies lies within what was judged
/// for the ceiling.
pub proof fn ceiling_is_a_lawful_run(
    policy: Policy,
    s: Situation,
    air: AirOccupancy,
    floors: Seq<bool>,
    direction: Direction,
    top: nat,
    rung: nat,
)
    requires
        rung <= top < first_refused(policy, s, air, floors, direction, 0),
    ensures
        policy.ruling(s, rung_emission(air, floors, rung, direction)).allows(),
        ladder_edges(air, floors, top).with(air.rungs@[rung as int].edges) == ladder_edges(air, floors, top),
        ladder_edges(air, floors, top).with(air.controls(is_floor(floors, rung))) == ladder_edges(air, floors, top),
{
    lemma_first_refused_runs(policy, s, air, floors, direction, 0, rung);
    lemma_ladder_holds(air, floors, top, rung);
}

proof fn lemma_ladder_holds(air: AirOccupancy, floors: Seq<bool>, top: nat, rung: nat)
    requires
        rung <= top,
    ensures
        ladder_edges(air, floors, top).with(air.rungs@[rung as int].edges) == ladder_edges(air, floors, top),
        ladder_edges(air, floors, top).with(air.controls(is_floor(floors, rung))) == ladder_edges(air, floors, top),
    decreases top,
{
    if rung < top {
        lemma_ladder_holds(air, floors, (top - 1) as nat, rung);
    }
}

/// What a safe dial range promises: a dial in it, with a signal of these edges, puts the
/// signal and its margin inside the range the dial range names.
pub open spec fn safe(d: Dial, seek: Seek) -> bool {
    forall|dial: int|
        d.low <= dial <= d.high ==> {
            let rf = #[trigger] on_air(dial, seek.sideband, (seek.a_lo as int, seek.a_hi as int));
            d.segment.keeps(rf.0 - seek.margin, rf.1 + seek.margin)
        }
}

/// Whether a range lies in a data segment of a band, wide enough for the signal, and in a
/// privilege that allows data; and on no band where automatic control is excluded, where it
/// applies.
pub open spec fn lawful_range(profile: Profile, privileges: Seq<Privilege>, seek: Seek, band: Seq<char>, range: Range) -> bool {
    &&& exists|i: int|
        0 <= i < profile.data_segments@.len() && (#[trigger] profile.data_segments@[i]).range.keeps(
            range.low as int,
            range.high as int,
        ) && profile.data_segments@[i].band@ == band && seek.a_hi - seek.a_lo <= profile.data_segments@[i].limit(
            profile.data,
        ).0
    &&& exists|i: int|
        0 <= i < privileges.len() && (#[trigger] privileges[i]).range.keeps(range.low as int, range.high as int)
            && privileges[i].permits("data"@)
    &&& seek.automatic ==> !excluded_band(profile, band)
}

/// Whether automatic control may be used in a range, where it applies: the range lies in an
/// automatic-control segment, or §97.221(c) allows the transmission anywhere.
pub open spec fn automatic_range(profile: Profile, seek: Seek, range: Range) -> bool {
    seek.automatic && !seek.elsewhere_ok ==> exists|i: int|
        0 <= i < profile.automatic.segments@.len() && (#[trigger] profile.automatic.segments@[i]).keeps(
            range.low as int,
            range.high as int,
        )
}

/// Whether a dial range keeps its promise, in a range where the signal is lawful.
pub open spec fn safe_and_lawful(d: Dial, profile: Profile, privileges: Seq<Privilege>, seek: Seek) -> bool {
    &&& safe(d, seek)
    &&& lawful_range(profile, privileges, seek, d.band, d.segment)
    &&& automatic_range(profile, seek, d.segment)
}

proof fn lemma_piece(profile: Profile, privileges: Seq<Privilege>, seek: Seek, band: Seq<char>, range: Range, rule: Seq<char>)
    requires
        lawful_range(profile, privileges, seek, band, range),
        automatic_range(profile, seek, range),
    ensures
        all_safe(piece_dials(band, range, rule, seek), profile, privileges, seek),
{
    let pieces = piece_dials(band, range, rule, seek);
    assert forall|k: int| 0 <= k < pieces.len() implies safe_and_lawful(#[trigger] pieces[k], profile, privileges, seek) by {
        let d = pieces[k];
        assert forall|dial: int| d.low <= dial <= d.high implies ({
            let rf = #[trigger] on_air(dial, seek.sideband, (seek.a_lo as int, seek.a_hi as int));
            d.segment.keeps(rf.0 - seek.margin, rf.1 + seek.margin)
        }) by {
            dial_range_is_exact(range, seek.sideband, (seek.a_lo as int, seek.a_hi as int), seek.margin as int, dial);
        }
    }
}

/// Every one of a run of dial ranges keeps its promise.
pub open spec fn all_safe(s: Seq<Dial>, profile: Profile, privileges: Seq<Privilege>, seek: Seek) -> bool {
    forall|k: int| 0 <= k < s.len() ==> safe_and_lawful(#[trigger] s[k], profile, privileges, seek)
}

proof fn lemma_narrower(
    profile: Profile,
    privileges: Seq<Privilege>,
    seek: Seek,
    band: Seq<char>,
    outer: Range,
    inner: Range,
)
    requires
        lawful_range(profile, privileges, seek, band, outer),
        outer.keeps(inner.low as int, inner.high as int),
    ensures
        lawful_range(profile, privileges, seek, band, inner),
{
    let i = choose|i: int|
        0 <= i < profile.data_segments@.len() && (#[trigger] profile.data_segments@[i]).range.keeps(
            outer.low as int,
            outer.high as int,
        ) && profile.data_segments@[i].band@ == band && seek.a_hi - seek.a_lo <= profile.data_segments@[i].limit(
            profile.data,
        ).0;
    let j = choose|j: int|
        0 <= j < privileges.len() && (#[trigger] privileges[j]).range.keeps(outer.low as int, outer.high as int)
            && privileges[j].permits("data"@);
    assert(profile.data_segments@[i].range.keeps(inner.low as int, inner.high as int));
    assert(privileges[j].range.keeps(inner.low as int, inner.high as int));
}

proof fn lemma_automatic(profile: Profile, privileges: Seq<Privilege>, seek: Seek, band: Seq<char>, inter: Range, n: nat)
    requires
        n <= profile.automatic.segments@.len(),
        lawful_range(profile, privileges, seek, band, inter),
    ensures
        all_safe(automatic_dials(profile, band, inter, seek, n), profile, privileges, seek),
    decreases n,
{
    if n > 0 {
        lemma_automatic(profile, privileges, seek, band, inter, (n - 1) as nat);
        match overlap(inter, profile.automatic.segments@[n - 1]) {
            Some(range) => {
                lemma_narrower(profile, privileges, seek, band, inter, range);
                assert(profile.automatic.segments@[n - 1].keeps(range.low as int, range.high as int));
                lemma_piece(profile, privileges, seek, band, range, profile.automatic.segments_rule@);
            },
            None => {},
        }
    }
}

proof fn lemma_privileges(profile: Profile, privileges: Seq<Privilege>, seek: Seek, segment: int, n: nat)
    requires
        n <= privileges.len(),
        0 <= segment < profile.data_segments@.len(),
        seek.a_hi - seek.a_lo <= profile.data_segments@[segment].limit(profile.data).0,
        seek.automatic ==> !excluded_band(profile, profile.data_segments@[segment].band@),
    ensures
        all_safe(
            privileges_dials(profile, profile.data_segments@[segment], privileges, seek, n),
            profile,
            privileges,
            seek,
        ),
    decreases n,
{
    if n > 0 {
        lemma_privileges(profile, privileges, seek, segment, (n - 1) as nat);
        let seg = profile.data_segments@[segment];
        let p = privileges[n - 1];
        if p.permits("data"@) {
            match overlap(seg.range, p.range) {
                Some(inter) => {
                    assert(profile.data_segments@[segment].range.keeps(inter.low as int, inter.high as int));
                    assert(privileges[n - 1].range.keeps(inter.low as int, inter.high as int));
                    assert(lawful_range(profile, privileges, seek, seg.band@, inter));
                    if seek.automatic && !seek.elsewhere_ok {
                        lemma_automatic(
                            profile,
                            privileges,
                            seek,
                            seg.band@,
                            inter,
                            profile.automatic.segments@.len(),
                        );
                    } else {
                        lemma_piece(profile, privileges, seek, seg.band@, inter, seg.rule@);
                    }
                },
                None => {},
            }
        }
    }
}

/// The safe dials a data segment gives are safe: each dial puts the signal and its margin
/// inside a range that lies in a data segment no narrower than the signal, in a privilege
/// that allows data, and, under automatic control, where automatic control may be used.
pub proof fn safe_dials_are_safe(profile: Profile, privileges: Seq<Privilege>, seek: Seek, n: nat)
    requires
        n <= profile.data_segments@.len(),
    ensures
        all_safe(segments_dials(profile, privileges, seek, n), profile, privileges, seek),
    decreases n,
{
    if n > 0 {
        safe_dials_are_safe(profile, privileges, seek, (n - 1) as nat);
        let seg = profile.data_segments@[n - 1];
        if !(seek.a_hi - seek.a_lo > seg.limit(profile.data).0 || (seek.automatic && excluded_band(profile, seg.band@))) {
            lemma_privileges(profile, privileges, seek, n - 1, privileges.len());
        }
    }
}

/// The safe dials of the channels are safe: each puts the signal and its margin inside its
/// channel.
pub proof fn channel_dials_are_safe(channels: Channels, seek: Seek, n: nat)
    requires
        n <= channels.list@.len(),
    ensures
        forall|k: int| 0 <= k < channels_dials(channels, seek, n).len() ==> safe(#[trigger] channels_dials(channels, seek, n)[k], seek),
    decreases n,
{
    if n > 0 {
        channel_dials_are_safe(channels, seek, (n - 1) as nat);
        let all = channels_dials(channels, seek, n);
        let before = channels_dials(channels, seek, (n - 1) as nat);
        assert forall|k: int| 0 <= k < all.len() implies safe(#[trigger] all[k], seek) by {
            if k < before.len() {
                assert(all[k] == before[k]);
            }
        }
    }
}

/// Putting dial ranges in order loses none and adds none, and leaves them by their lowest
/// dial.
pub proof fn dial_order_keeps_the_dials(s: Seq<Dial>)
    ensures
        in_dial_order(s).to_multiset() =~= s.to_multiset(),
        forall|i: int, j: int| 0 <= i <= j < in_dial_order(s).len() ==> (#[trigger] in_dial_order(s)[i]).low <= (
        #[trigger] in_dial_order(s)[j]).low,
    decreases s.len(),
{
    broadcast use vstd::seq_lib::group_to_multiset_ensures;

    if s.len() > 0 {
        dial_order_keeps_the_dials(s.drop_last());
        lemma_placed_keeps(in_dial_order(s.drop_last()), s.last());
        assert(s =~= s.drop_last().push(s.last()));
    }
}

proof fn lemma_placed_keeps(s: Seq<Dial>, d: Dial)
    requires
        forall|i: int, j: int| 0 <= i <= j < s.len() ==> (#[trigger] s[i]).low <= (#[trigger] s[j]).low,
    ensures
        placed_dial(s, d).to_multiset() =~= s.push(d).to_multiset(),
        placed_dial(s, d).len() == s.len() + 1,
        forall|i: int| 0 <= i < placed_dial(s, d).len() ==> (#[trigger] placed_dial(s, d)[i]).low <= if s.len() > 0
            && s.last().low > d.low { s.last().low } else { d.low },
        forall|i: int, j: int| 0 <= i <= j < placed_dial(s, d).len() ==> (#[trigger] placed_dial(s, d)[i]).low <= (
        #[trigger] placed_dial(s, d)[j]).low,
    decreases s.len(),
{
    broadcast use vstd::seq_lib::group_to_multiset_ensures;

    if s.len() == 0 {
        assert(s.push(d) =~= seq![d]);
    } else if s.last().low <= d.low {
    } else {
        lemma_placed_keeps(s.drop_last(), d);
        let rest = placed_dial(s.drop_last(), d);
        assert(s =~= s.drop_last().push(s.last()));
        assert(placed_dial(s, d) == rest.push(s.last()));
    }
}

proof fn lemma_segment_is_found(s: Seq<Segment>, low: int, high: int, i: int, from: nat)
    requires
        from <= i < s.len(),
        s[i].range.keeps(low, high),
    ensures
        first_segment(s, low, high, from) < s.len(),
    decreases s.len() - from,
{
    if !s[from as int].range.keeps(low, high) {
        lemma_segment_is_found(s, low, high, i, from + 1);
    }
}

proof fn lemma_segment_of_is_found(s: Seq<Segment>, band: Seq<char>, low: int, high: int, i: int, from: nat)
    requires
        from <= i < s.len(),
        s[i].band@ == band,
        s[i].range.keeps(low, high),
    ensures
        first_segment_of(s, band, low, high, from) < s.len(),
    decreases s.len() - from,
{
    if !(s[from as int].band@ == band && s[from as int].range.keeps(low, high)) {
        lemma_segment_of_is_found(s, band, low, high, i, from + 1);
    }
}

proof fn lemma_privilege_is_found(s: Seq<Privilege>, low: int, high: int, i: int, from: nat)
    requires
        from <= i < s.len(),
        s[i].range.keeps(low, high),
    ensures
        first_privilege(s, low, high, from) < s.len(),
    decreases s.len() - from,
{
    if !s[from as int].range.keeps(low, high) {
        lemma_privilege_is_found(s, low, high, i, from + 1);
    }
}

proof fn lemma_range_is_found(s: Seq<Range>, low: int, high: int, i: int, from: nat)
    requires
        from <= i < s.len(),
        s[i].keeps(low, high),
    ensures
        first_range(s, low, high, from) < s.len(),
    decreases s.len() - from,
{
    if !s[from as int].keeps(low, high) {
        lemma_range_is_found(s, low, high, i, from + 1);
    }
}

proof fn lemma_channel_is_found(channels: Channels, low: int, high: int, i: int, from: nat)
    requires
        from <= i < channels.list@.len(),
        channel_span(channels, channels.list@[i]).touches(low, high),
    ensures
        first_channel(channels, low, high, from) < channels.list@.len(),
    decreases channels.list@.len() - from,
{
    if !channel_span(channels, channels.list@[from as int]).touches(low, high) {
        lemma_channel_is_found(channels, low, high, i, from + 1);
    }
}

proof fn lemma_none_excluded(profile: Profile, band: Seq<char>, from: nat)
    requires
        !excluded_band(profile, band),
    ensures
        first_excluded(profile.automatic.excluded_bands@, band, from) >= profile.automatic.excluded_bands@.len(),
    decreases profile.automatic.excluded_bands@.len() - from,
{
    if from < profile.automatic.excluded_bands@.len() {
        assert(profile.automatic.excluded_bands@[from as int].band@ != band);
        lemma_none_excluded(profile, band, from + 1);
    }
}

proof fn lemma_channel_dials(channels: Channels, seek: Seek, n: nat)
    requires
        n <= channels.list@.len(),
    ensures
        forall|k: int|
            0 <= k < channels_dials(channels, seek, n).len() ==> is_on_channel(
                channels,
                #[trigger] channels_dials(channels, seek, n)[k],
            ),
    decreases n,
{
    if n > 0 {
        lemma_channel_dials(channels, seek, (n - 1) as nat);
        let all = channels_dials(channels, seek, n);
        let before = channels_dials(channels, seek, (n - 1) as nat);
        assert forall|k: int| 0 <= k < all.len() implies is_on_channel(channels, #[trigger] all[k]) by {
            if k < before.len() {
                assert(all[k] == before[k]);
            } else {
                assert(all[k].segment == channel_span(channels, channels.list@[n - 1]));
            }
        }
    }
}

/// Whether a dial range is one of the channels': the channel, with the carrier in its place.
pub open spec fn is_on_channel(channels: Channels, d: Dial) -> bool {
    d.band == channels.band@ && exists|i: int|
        0 <= i < channels.list@.len() && d.segment == channel_span(channels, #[trigger] channels.list@[i]) && d.low
            == d.high == channels.list@[i].center - channels.carrier_offset
}

/// Whether a profile's tables speak with one voice about a signal on a band. The band that holds
/// the signal is that band. Off 60 m, the first data segment that holds the signal, and the first
/// privilege that does, are the ones the rules go by: where there is one, it is wide enough, and
/// allows data. On 60 m, a privilege holds the signal, data is among the band's emissions, and
/// the signal is set up for the first channel it touches, or, where it touches none, is within
/// the limit for data.
pub open spec fn tables_agree(profile: Profile, s: Situation, tx: Emission, band: Seq<char>) -> bool {
    let c = known(profile, s, tx);
    let audio = tx.audio.under(profile.bandwidth.reading);
    let list = privileges_for(profile, c.license);
    &&& profile.band_of(c.glo, c.ghi) matches Some(b) && b.name@ == band
    &&& if profile.channels is Some && profile.channels->0.band@ == band {
        let channels = profile.channels->0;
        let ch = first_channel(channels, c.lo - s.margin, c.hi + s.margin, 0);
        &&& first_privilege(list, c.lo, c.hi, 0) < list.len()
        &&& profile.sixty_meter_emissions is Some ==> names(profile.sixty_meter_emissions->0.allowed@, tx.kind.word())
        &&& if ch < channels.list@.len() {
            on_channel(tx, c, channels, channels.list@[ch as int])
        } else {
            audio.1 - audio.0 <= profile.data.max_bandwidth
        }
    } else {
        let n = first_segment(profile.data_segments@, c.glo, c.ghi, 0);
        let p = first_privilege(list, c.glo, c.ghi, 0);
        &&& n < profile.data_segments@.len() ==> audio.1 - audio.0 <= profile.data_segments@[n as int].limit(profile.data).0
        &&& p < list.len() ==> list[p as int].permits("data"@)
    }
}

/// Whether the data segments are in order: each lies in a band, a band that overlaps it is the one
/// it names, and two that overlap have the same limit.
pub open spec fn segments_in_order(profile: Profile) -> bool {
    let segments = profile.data_segments@;
    &&& forall|i: int| 0 <= i < segments.len() ==> profile.in_a_band((#[trigger] segments[i]).range)
    &&& forall|i: int, j: int|
        0 <= i < segments.len() && 0 <= j < profile.bands@.len() && overlap(
            (#[trigger] segments[i]).range,
            (#[trigger] profile.bands@[j]).range,
        ) is Some ==> profile.bands@[j].name@ == segments[i].band@
    &&& forall|i: int, j: int|
        0 <= i < segments.len() && 0 <= j < segments.len() && overlap(
            (#[trigger] segments[i]).range,
            (#[trigger] segments[j]).range,
        ) is Some ==> segments[i].limit(profile.data).0 == segments[j].limit(profile.data).0
}

/// Whether the privileges of every class are in order: two that overlap agree about data.
pub open spec fn privileges_in_order(profile: Profile) -> bool {
    forall|license: LicenseClass, i: int, j: int|
        0 <= i < privileges_for(profile, license).len() && 0 <= j < privileges_for(profile, license).len() && overlap(
            (#[trigger] privileges_for(profile, license)[i]).range,
            (#[trigger] privileges_for(profile, license)[j]).range,
        ) is Some ==> privileges_for(profile, license)[i].permits("data"@) == privileges_for(profile, license)[j].permits(
            "data"@,
        )
}

/// Whether the 60 m channels are in order: no two touch, each lies in a band, every band that
/// overlaps one is theirs, no data segment of theirs touches one or is wider than data may be,
/// a class that reaches one of them holds them all, data is among the band's emissions, and a
/// data emission is set up for one on the upper sideband with its carrier in its place.
pub open spec fn channels_in_order(profile: Profile, channels: Channels) -> bool {
    let list = channels.list@;
    &&& forall|i: int, j: int|
        0 <= i < list.len() && 0 <= j < list.len() && i != j ==> !channel_span(channels, #[trigger] list[i]).touches(
            channel_span(channels, #[trigger] list[j]).low as int,
            channel_span(channels, list[j]).high as int,
        )
    &&& forall|i: int| 0 <= i < list.len() ==> profile.in_a_band(channel_span(channels, #[trigger] list[i]))
    &&& forall|i: int, j: int|
        0 <= i < list.len() && 0 <= j < profile.bands@.len() && overlap(
            channel_span(channels, #[trigger] list[i]),
            (#[trigger] profile.bands@[j]).range,
        ) is Some ==> profile.bands@[j].name@ == channels.band@
    &&& forall|i: int, j: int|
        0 <= i < list.len() && 0 <= j < profile.data_segments@.len() && (#[trigger] profile.data_segments@[j]).band@
            == channels.band@ ==> !channel_span(channels, #[trigger] list[i]).touches(
            profile.data_segments@[j].range.low as int,
            profile.data_segments@[j].range.high as int,
        )
    &&& forall|j: int|
        0 <= j < profile.data_segments@.len() && (#[trigger] profile.data_segments@[j]).band@ == channels.band@
            ==> profile.data_segments@[j].limit(profile.data).0 <= profile.data.max_bandwidth
    &&& forall|license: LicenseClass, i: int|
        0 <= i < list.len() && channel_reached(#[trigger] privileges_for(profile, license), channels) ==> held_by(
            privileges_for(profile, license),
            channel_span(channels, #[trigger] list[i]),
        )
    &&& profile.sixty_meter_emissions is Some ==> names(
        profile.sixty_meter_emissions->0.allowed@,
        EmissionKind::Data.word(),
    )
    &&& channels.sideband@ == Sideband::Usb.word()
    &&& channels.carrier_tolerance >= 0
}

/// Whether one of the privileges holds a range.
pub open spec fn held_by(list: Seq<Privilege>, range: Range) -> bool {
    exists|i: int| 0 <= i < list.len() && (#[trigger] list[i]).range.keeps(range.low as int, range.high as int)
}

/// Whether a profile's tables are in order: wherever two of their entries speak of the same
/// frequencies, they say the same.
pub open spec fn orderly(profile: Profile) -> bool {
    &&& segments_in_order(profile)
    &&& privileges_in_order(profile)
    &&& profile.channels is Some ==> channels_in_order(profile, profile.channels->0)
}

proof fn lemma_first_band_holds(s: Seq<Band>, low: int, high: int, from: nat)
    ensures
        first_band(s, from, low, high, true) < s.len() ==> s[first_band(s, from, low, high, true) as int].range.keeps(
            low,
            high,
        ),
    decreases s.len() - from,
{
    if from < s.len() && !s[from as int].range.keeps(low, high) {
        lemma_first_band_holds(s, low, high, from + 1);
    }
}

proof fn lemma_band_is_found(s: Seq<Band>, low: int, high: int, i: int, from: nat)
    requires
        from <= i < s.len(),
        s[i].range.keeps(low, high),
    ensures
        first_band(s, from, low, high, true) < s.len(),
    decreases s.len() - from,
{
    if !s[from as int].range.keeps(low, high) {
        lemma_band_is_found(s, low, high, i, from + 1);
    }
}

proof fn lemma_first_channel(channels: Channels, low: int, high: int, from: nat)
    ensures
        ({
            let n = first_channel(channels, low, high, from);
            n < channels.list@.len() ==> channel_span(channels, channels.list@[n as int]).touches(low, high)
        }),
    decreases channels.list@.len() - from,
{
    if from < channels.list@.len() && !channel_span(channels, channels.list@[from as int]).touches(low, high) {
        lemma_first_channel(channels, low, high, from + 1);
    }
}

/// The band that holds a signal inside a range of an orderly table is the one the table names.
proof fn lemma_band_of(profile: Profile, range: Range, glo: int, ghi: int)
    requires
        profile.in_a_band(range),
        range.keeps(glo, ghi),
        glo < ghi,
    ensures
        profile.band_of(glo, ghi) matches Some(b) && exists|j: int|
            0 <= j < profile.bands@.len() && b == #[trigger] profile.bands@[j] && overlap(range, profile.bands@[j].range) is Some,
{
    let i = choose|i: int|
        0 <= i < profile.bands@.len() && (#[trigger] profile.bands@[i]).range.keeps(range.low as int, range.high as int);
    lemma_band_is_found(profile.bands@, glo, ghi, i, 0);
    lemma_first_band_holds(profile.bands@, glo, ghi, 0);
    let n = first_band(profile.bands@, 0, glo, ghi, true);
    assert(profile.bands@[n as int].range.keeps(glo, ghi));
}

proof fn lemma_orderly_segment(profile: Profile, s: Situation, tx: Emission, seek: Seek, d: Dial)
    requires
        orderly(profile),
        tx.kind == EmissionKind::Data,
        s.itu_region == profile.itu_region,
        s.sideband is Some,
        s.license is Some,
        s.control is Some,
        s.dial is Some,
        s.margin >= 0,
        seek == seek_for(profile, s, tx.audio, tx.direction, s.sideband->0, s.control->0),
        seek.a_lo - seek.margin < seek.a_hi + seek.margin,
        safe_and_lawful(d, profile, privileges_for(profile, s.license->0), seek),
        d.low <= s.dial->0 <= d.high,
    ensures
        tables_agree(profile, s, tx, d.band),
{
    let list = privileges_for(profile, s.license->0);
    let c = known(profile, s, tx);
    let audio = tx.audio.under(profile.bandwidth.reading);
    assert(seek.a_lo == audio.0 && seek.a_hi == audio.1);
    assert(c.lo == on_air(s.dial->0 as int, seek.sideband, (seek.a_lo as int, seek.a_hi as int)).0);
    assert(d.segment.keeps(c.glo, c.ghi));
    let segments = profile.data_segments@;
    let i = choose|i: int|
        0 <= i < segments.len() && (#[trigger] segments[i]).range.keeps(d.segment.low as int, d.segment.high as int)
            && segments[i].band@ == d.band && seek.a_hi - seek.a_lo <= segments[i].limit(profile.data).0;
    let j = choose|j: int|
        0 <= j < list.len() && (#[trigger] list[j]).range.keeps(d.segment.low as int, d.segment.high as int)
            && list[j].permits("data"@);
    assert(segments[i].range.keeps(c.glo, c.ghi));
    assert(list[j].range.keeps(c.glo, c.ghi));
    lemma_band_of(profile, segments[i].range, c.glo, c.ghi);
    let b = choose|b: int|
        0 <= b < profile.bands@.len() && profile.band_of(c.glo, c.ghi)->0 == #[trigger] profile.bands@[b] && overlap(
            segments[i].range,
            profile.bands@[b].range,
        ) is Some;
    assert(profile.bands@[b].name@ == segments[i].band@);
    if profile.channels is Some && profile.channels->0.band@ == d.band {
        let channels = profile.channels->0;
        lemma_privilege_is_found(list, c.lo, c.hi, j, 0);
        lemma_first_channel(channels, c.glo, c.ghi, 0);
        let ch = first_channel(channels, c.glo, c.ghi, 0);
        if ch < channels.list@.len() {
            assert(segments[i].band@ == channels.band@);
            assert(!channel_span(channels, channels.list@[ch as int]).touches(
                segments[i].range.low as int,
                segments[i].range.high as int,
            ));
            assert(false);
        }
    } else {
        lemma_first_segment(segments, c.glo, c.ghi, 0);
        lemma_first_privilege(list, c.glo, c.ghi, 0);
        let n = first_segment(segments, c.glo, c.ghi, 0);
        let p = first_privilege(list, c.glo, c.ghi, 0);
        if n < segments.len() {
            assert(overlap(segments[i].range, segments[n as int].range) is Some);
        }
        if p < list.len() {
            assert(overlap(list[j].range, list[p as int].range) is Some);
        }
    }
}

proof fn lemma_orderly_channel(profile: Profile, s: Situation, tx: Emission, channels: Channels, d: Dial)
    requires
        orderly(profile),
        tx.kind == EmissionKind::Data,
        s.itu_region == profile.itu_region,
        s.sideband == Some(Sideband::Usb),
        s.license is Some,
        s.control is Some,
        s.dial is Some,
        s.margin >= 0,
        profile.channels == Some(channels),
        channel_reached(privileges_for(profile, s.license->0), channels),
        is_on_channel(channels, d),
        d.low <= s.dial->0 <= d.high,
        ({
            let c = known(profile, s, tx);
            d.segment.keeps(c.glo, c.ghi) && c.glo < c.ghi
        }),
    ensures
        tables_agree(profile, s, tx, d.band),
{
    let list = privileges_for(profile, s.license->0);
    let c = known(profile, s, tx);
    let i = choose|i: int|
        0 <= i < channels.list@.len() && d.segment == channel_span(channels, #[trigger] channels.list@[i]) && d.low
            == d.high == channels.list@[i].center - channels.carrier_offset;
    let span = channel_span(channels, channels.list@[i]);
    lemma_band_of(profile, span, c.glo, c.ghi);
    let b = choose|b: int|
        0 <= b < profile.bands@.len() && profile.band_of(c.glo, c.ghi)->0 == #[trigger] profile.bands@[b] && overlap(
            span,
            profile.bands@[b].range,
        ) is Some;
    assert(profile.bands@[b].name@ == channels.band@);
    assert(held_by(list, span));
    let j = choose|j: int| 0 <= j < list.len() && (#[trigger] list[j]).range.keeps(span.low as int, span.high as int);
    lemma_privilege_is_found(list, c.lo, c.hi, j, 0);
    lemma_channel_is_found(channels, c.glo, c.ghi, i, 0);
    lemma_first_channel(channels, c.glo, c.ghi, 0);
    let ch = first_channel(channels, c.glo, c.ghi, 0);
    if ch != i {
        assert(!channel_span(channels, channels.list@[ch as int]).touches(span.low as int, span.high as int));
    }
}

/// The safe dials come in the order of their lowest dial; and there are none for a station whose
/// sideband, class or control is not known, nor under any policy but that of an administration's
/// rules.
pub proof fn safe_dials_come_in_order(policy: Policy, s: Situation, audio: Edges, direction: Direction)
    ensures
        ({
            let dials = policy.lawful_dials(s, audio, direction);
            forall|i: int, j: int| 0 <= i <= j < dials.len() ==> (#[trigger] dials[i]).low <= (#[trigger] dials[j]).low
        }),
        policy !is Rules || s.sideband is None || s.license is None || s.control is None ==> policy.lawful_dials(
            s,
            audio,
            direction,
        ).len() == 0,
{
    assert forall|d: Seq<Dial>, i: int, j: int| 0 <= i <= j < in_dial_order(d).len() implies (#[trigger] in_dial_order(d)[i]).low
        <= (#[trigger] in_dial_order(d)[j]).low by {
        dial_order_keeps_the_dials(d);
    }
}

/// A safe dial is lawful: under tables that are in order, on every dial of every range listed
/// for a signal, data that occupies it may go. The signal has some width.
pub proof fn a_safe_dial_is_lawful(policy: Policy, s: Situation, tx: Emission, k: int, dial: i64)
    requires
        policy is Rules,
        orderly(*policy->Rules_0),
        tx.kind == EmissionKind::Data,
        s.margin >= 0,
        ({
            let audio = tx.audio.under(policy->Rules_0.bandwidth.reading);
            audio.0 - s.margin < audio.1 + s.margin
        }),
        ({
            let dials = policy.lawful_dials(s, tx.audio, tx.direction);
            &&& 0 <= k < dials.len()
            &&& dials[k].low <= dial <= dials[k].high
        }),
    ensures
        policy.ruling(Situation { dial: Some(dial), ..s }, tx).allows(),
{
    broadcast use vstd::seq_lib::group_to_multiset_ensures;

    let profile = *policy->Rules_0;
    let here = Situation { dial: Some(dial), ..s };
    let d = policy.lawful_dials(s, tx.audio, tx.direction)[k];
    let seek = seek_for(profile, s, tx.audio, tx.direction, s.sideband->0, s.control->0);
    let list = privileges_for(profile, s.license->0);
    let on_segments = segments_dials(profile, list, seek, profile.data_segments@.len());
    let c = known(profile, here, tx);
    let audio = tx.audio.under(profile.bandwidth.reading);
    assert(seek.a_lo == audio.0 && seek.a_hi == audio.1);
    let on_channels = match profile.channels {
        Some(channels) => if !seek.automatic && seek.a_hi - seek.a_lo <= profile.data.max_bandwidth && s.sideband->0
            == Sideband::Usb && channel_reached(list, channels) {
            channels_dials(channels, seek, channels.list@.len())
        } else {
            Seq::empty()
        },
        None => Seq::empty(),
    };
    dial_order_keeps_the_dials(on_segments + on_channels);
    assert(in_dial_order(on_segments + on_channels).to_multiset().count(d) > 0);
    assert((on_segments + on_channels).contains(d));
    let at = choose|i: int| 0 <= i < (on_segments + on_channels).len() && (on_segments + on_channels)[i] == d;
    assert(c.lo == on_air(dial as int, seek.sideband, (seek.a_lo as int, seek.a_hi as int)).0);
    if at < on_segments.len() {
        safe_dials_are_safe(profile, list, seek, profile.data_segments@.len());
        assert(on_segments[at] == d);
        lemma_orderly_segment(profile, here, tx, seek, d);
        lemma_on_a_segment(profile, here, tx, seek, d);
    } else {
        let channels = profile.channels->0;
        assert(on_channels[at - on_segments.len()] == d);
        channel_dials_are_safe(channels, seek, channels.list@.len());
        lemma_channel_dials(channels, seek, channels.list@.len());
        assert(d.segment.keeps(c.glo, c.ghi));
        lemma_orderly_channel(profile, here, tx, channels, d);
        let i = choose|i: int|
            0 <= i < channels.list@.len() && d.segment == channel_span(channels, #[trigger] channels.list@[i]) && d.low
                == d.high == channels.list@[i].center - channels.carrier_offset;
        lemma_channel_is_found(channels, c.lo - s.margin, c.hi + s.margin, i, 0);
    }
    lemma_policy_lawful(policy, here, tx);
}

proof fn lemma_on_a_segment(profile: Profile, s: Situation, tx: Emission, seek: Seek, d: Dial)
    requires
        tx.kind == EmissionKind::Data,
        s.itu_region == profile.itu_region,
        s.sideband is Some,
        s.license is Some,
        s.control is Some,
        s.dial is Some,
        seek == seek_for(profile, s, tx.audio, tx.direction, s.sideband->0, s.control->0),
        safe_and_lawful(d, profile, privileges_for(profile, s.license->0), seek),
        d.low <= s.dial->0 <= d.high,
        tables_agree(profile, s, tx, d.band),
    ensures
        lawful(profile, s, tx),
{
    let list = privileges_for(profile, s.license->0);
    let c = known(profile, s, tx);
    let audio = tx.audio.under(profile.bandwidth.reading);
    assert(seek.a_lo == audio.0 && seek.a_hi == audio.1);
    assert(c.lo == on_air(s.dial->0 as int, seek.sideband, (seek.a_lo as int, seek.a_hi as int)).0);
    assert(d.segment.keeps(c.glo, c.ghi));
    let i = choose|i: int|
        0 <= i < profile.data_segments@.len() && (#[trigger] profile.data_segments@[i]).range.keeps(
            d.segment.low as int,
            d.segment.high as int,
        ) && profile.data_segments@[i].band@ == d.band && seek.a_hi - seek.a_lo <= profile.data_segments@[i].limit(
            profile.data,
        ).0;
    let j = choose|j: int|
        0 <= j < list.len() && (#[trigger] list[j]).range.keeps(d.segment.low as int, d.segment.high as int)
            && list[j].permits("data"@);
    lemma_segment_is_found(profile.data_segments@, c.glo, c.ghi, i, 0);
    lemma_segment_of_is_found(profile.data_segments@, d.band, c.glo, c.ghi, i, 0);
    lemma_privilege_is_found(list, c.glo, c.ghi, j, 0);
    if seek.automatic {
        lemma_none_excluded(profile, d.band, 0);
        if !seek.elsewhere_ok {
            let a = choose|a: int|
                0 <= a < profile.automatic.segments@.len() && (#[trigger] profile.automatic.segments@[a]).keeps(
                    d.segment.low as int,
                    d.segment.high as int,
                );
            lemma_range_is_found(profile.automatic.segments@, c.glo, c.ghi, a, 0);
        }
    }
}

proof fn lemma_joined<A>(a: Seq<A>, b: Seq<A>, x: A)
    requires
        a.contains(x) || b.contains(x),
    ensures
        (a + b).contains(x),
{
    if a.contains(x) {
        let i = choose|i: int| 0 <= i < a.len() && a[i] == x;
        assert((a + b)[i] == x);
    } else {
        let i = choose|i: int| 0 <= i < b.len() && b[i] == x;
        assert((a + b)[a.len() + i] == x);
    }
}

proof fn lemma_among_automatic(profile: Profile, band: Seq<char>, inter: Range, seek: Seek, n: nat, i: int, d: Dial)
    requires
        0 <= i < n <= profile.automatic.segments@.len(),
        overlap(inter, profile.automatic.segments@[i]) matches Some(range) && piece_dials(
            band,
            range,
            profile.automatic.segments_rule@,
            seek,
        ).contains(d),
    ensures
        automatic_dials(profile, band, inter, seek, n).contains(d),
    decreases n,
{
    let before = automatic_dials(profile, band, inter, seek, (n - 1) as nat);
    let last = match overlap(inter, profile.automatic.segments@[n - 1]) {
        Some(range) => piece_dials(band, range, profile.automatic.segments_rule@, seek),
        None => Seq::empty(),
    };
    if i < n - 1 {
        lemma_among_automatic(profile, band, inter, seek, (n - 1) as nat, i, d);
    }
    lemma_joined(before, last, d);
}

proof fn lemma_among_privileges(profile: Profile, segment: Segment, list: Seq<Privilege>, seek: Seek, n: nat, i: int, d: Dial)
    requires
        0 <= i < n <= list.len(),
        privilege_dials(profile, segment, list[i], seek).contains(d),
    ensures
        privileges_dials(profile, segment, list, seek, n).contains(d),
    decreases n,
{
    if i < n - 1 {
        lemma_among_privileges(profile, segment, list, seek, (n - 1) as nat, i, d);
    }
    lemma_joined(
        privileges_dials(profile, segment, list, seek, (n - 1) as nat),
        privilege_dials(profile, segment, list[n - 1], seek),
        d,
    );
}

proof fn lemma_among_segments(profile: Profile, list: Seq<Privilege>, seek: Seek, n: nat, i: int, d: Dial)
    requires
        0 <= i < n <= profile.data_segments@.len(),
        segment_dials(profile, profile.data_segments@[i], list, seek).contains(d),
    ensures
        segments_dials(profile, list, seek, n).contains(d),
    decreases n,
{
    if i < n - 1 {
        lemma_among_segments(profile, list, seek, (n - 1) as nat, i, d);
    }
    lemma_joined(
        segments_dials(profile, list, seek, (n - 1) as nat),
        segment_dials(profile, profile.data_segments@[n - 1], list, seek),
        d,
    );
}

/// The dial range of a piece of a segment that holds the signal holds the dial.
proof fn lemma_piece_holds(band: Seq<char>, range: Range, rule: Seq<char>, seek: Seek, dial: int) -> (d: Dial)
    requires
        ({
            let rf = on_air(dial, seek.sideband, (seek.a_lo as int, seek.a_hi as int));
            range.keeps(rf.0 - seek.margin, rf.1 + seek.margin)
        }),
    ensures
        piece_dials(band, range, rule, seek).contains(d),
        d.low <= dial <= d.high,
{
    dial_range_is_exact(range, seek.sideband, (seek.a_lo as int, seek.a_hi as int), seek.margin as int, dial);
    let d = piece_dials(band, range, rule, seek)[0];
    d
}

proof fn lemma_listed(profile: Profile, s: Situation, tx: Emission, seek: Seek) -> (d: Dial)
    requires
        tx.kind == EmissionKind::Data,
        lawful(profile, s, tx),
        seek == seek_for(profile, s, tx.audio, tx.direction, s.sideband->0, s.control->0),
        ({
            let c = known(profile, s, tx);
            let n = first_segment(profile.data_segments@, c.glo, c.ghi, 0);
            let band = profile.band_of(c.glo, c.ghi)->0.name@;
            &&& c.glo < c.ghi
            &&& profile.channels is None || profile.channels->0.band@ != band
            &&& profile.data_segments@[n as int].band@ == band
        }),
    ensures
        segments_dials(profile, privileges_for(profile, s.license->0), seek, profile.data_segments@.len()).contains(d),
        d.low <= s.dial->0 <= d.high,
{
    let c = known(profile, s, tx);
    let list = privileges_for(profile, c.license);
    let audio = tx.audio.under(profile.bandwidth.reading);
    let dial = s.dial->0 as int;
    assert(seek.a_lo == audio.0 && seek.a_hi == audio.1);
    assert(c.lo == on_air(dial, seek.sideband, (seek.a_lo as int, seek.a_hi as int)).0);
    let n = first_segment(profile.data_segments@, c.glo, c.ghi, 0);
    let p = first_privilege(list, c.glo, c.ghi, 0);
    lemma_first_segment(profile.data_segments@, c.glo, c.ghi, 0);
    lemma_first_privilege(list, c.glo, c.ghi, 0);
    let segment = profile.data_segments@[n as int];
    if seek.automatic {
        lemma_not_excluded(profile, segment.band@, 0);
        assert(!excluded_band(profile, segment.band@));
    }
    let inter = overlap(segment.range, list[p as int].range)->0;
    assert(inter.keeps(c.glo, c.ghi));
    let d = if seek.automatic && !seek.elsewhere_ok {
        let a = first_range(profile.automatic.segments@, c.glo, c.ghi, 0);
        lemma_first_range(profile.automatic.segments@, c.glo, c.ghi, 0);
        let range = overlap(inter, profile.automatic.segments@[a as int])->0;
        assert(range.keeps(c.glo, c.ghi));
        let d = lemma_piece_holds(segment.band@, range, profile.automatic.segments_rule@, seek, dial);
        lemma_among_automatic(profile, segment.band@, inter, seek, profile.automatic.segments@.len(), a as int, d);
        d
    } else {
        lemma_piece_holds(segment.band@, inter, segment.rule@, seek, dial)
    };
    lemma_among_privileges(profile, segment, list, seek, list.len(), p as int, d);
    lemma_among_segments(profile, list, seek, profile.data_segments@.len(), n as int, d);
    d
}

proof fn lemma_segment_names_its_band(profile: Profile, s: Situation, tx: Emission)
    requires
        orderly(profile),
        tx.kind == EmissionKind::Data,
        lawful(profile, s, tx),
        ({
            let c = known(profile, s, tx);
            &&& c.glo < c.ghi
            &&& profile.channels is None || profile.channels->0.band@ != profile.band_of(c.glo, c.ghi)->0.name@
        }),
    ensures
        ({
            let c = known(profile, s, tx);
            let n = first_segment(profile.data_segments@, c.glo, c.ghi, 0);
            profile.data_segments@[n as int].band@ == profile.band_of(c.glo, c.ghi)->0.name@
        }),
{
    let c = known(profile, s, tx);
    let n = first_segment(profile.data_segments@, c.glo, c.ghi, 0);
    lemma_first_segment(profile.data_segments@, c.glo, c.ghi, 0);
    let b = first_band(profile.bands@, 0, c.glo, c.ghi, true);
    lemma_first_band_holds(profile.bands@, c.glo, c.ghi, 0);
    assert(overlap(profile.data_segments@[n as int].range, profile.bands@[b as int].range) is Some);
}

/// No lawful dial off 60 m is missed: under tables that are in order, where data may go, one of the
/// ranges listed for what it occupies holds the dial. The signal has some width.
pub proof fn a_lawful_dial_is_listed(policy: Policy, s: Situation, tx: Emission)
    requires
        policy is Rules,
        orderly(*policy->Rules_0),
        tx.kind == EmissionKind::Data,
        policy.ruling(s, tx).allows(),
        ({
            let profile = *policy->Rules_0;
            let c = known(profile, s, tx);
            let band = profile.band_of(c.glo, c.ghi)->0.name@;
            &&& c.glo < c.ghi
            &&& profile.channels is None || profile.channels->0.band@ != band
        }),
    ensures
        exists|k: int|
            0 <= k < policy.lawful_dials(s, tx.audio, tx.direction).len() && (#[trigger] policy.lawful_dials(
                s,
                tx.audio,
                tx.direction,
            )[k]).low <= s.dial->0 <= policy.lawful_dials(s, tx.audio, tx.direction)[k].high,
{
    broadcast use vstd::seq_lib::group_to_multiset_ensures;

    let profile = *policy->Rules_0;
    lemma_policy_lawful(policy, s, tx);
    let seek = seek_for(profile, s, tx.audio, tx.direction, s.sideband->0, s.control->0);
    let list = privileges_for(profile, s.license->0);
    lemma_segment_names_its_band(profile, s, tx);
    let d = lemma_listed(profile, s, tx, seek);
    let on_segments = segments_dials(profile, list, seek, profile.data_segments@.len());
    let on_channels = match profile.channels {
        Some(channels) => if !seek.automatic && seek.a_hi - seek.a_lo <= profile.data.max_bandwidth && s.sideband->0
            == Sideband::Usb && channel_reached(list, channels) {
            channels_dials(channels, seek, channels.list@.len())
        } else {
            Seq::empty()
        },
        None => Seq::empty(),
    };
    lemma_joined(on_segments, on_channels, d);
    dial_order_keeps_the_dials(on_segments + on_channels);
    let all = in_dial_order(on_segments + on_channels);
    assert(all == policy.lawful_dials(s, tx.audio, tx.direction));
    assert((on_segments + on_channels).to_multiset().count(d) > 0);
    assert(all.contains(d));
    let k = choose|k: int| 0 <= k < all.len() && all[k] == d;
    assert(policy.lawful_dials(s, tx.audio, tx.direction)[k].low <= s.dial->0);
}

} // verus!
