//! What a transmission is judged by: the dial the radio is on now, and everything that would go
//! out.
use vstd::prelude::*;

use crate::ptt::Ptt;
use crate::regulatory::occupancy::{AirOccupancy, Edges};
use crate::regulatory::{ControlMode, DialSource, Direction, EmissionKind, Policy};
use crate::station::frames::Container;
use crate::station::gate::{
    asked_audio, burst_edges, emission_of, engine_ceiling, first_unmeasured, frame_edges, logged_with,
    standing_direction, Bearings, FrequencyCache, Logged,
};
use crate::station::queue::{DataKind, Outgoing, TxFrame};
use crate::station::transmit::{asked_to, can_answer, situation_in};
use crate::station::Modem;

verus! {

/// The dial is fresh when a transmission is judged. A radio that reports its dial is asked again
/// where its last reading is more than two seconds old, or there is none, unless the station is
/// transmitting: where it then gives a frequency, that is the dial, in thousandths of a hertz,
/// whatever it gave before.
pub proof fn an_old_reading_is_asked_again<P: Ptt>(m: Modem, radio: P, f: FrequencyCache, hz: u64)
    requires
        !m.transmitting,
        match m.frequency.read_at_us {
            Some(t) => m.now() > t + 2_000_000,
            None => true,
        },
        asked_to(m, radio, true, true, f),
        forall|answer: Option<u64>| can_answer(radio, answer) ==> answer == Some(hz),
        hz <= 9_000_000_000_000_000,
    ensures
        situation_in(m, true, f).dial == Some((hz * 1000) as i64),
        situation_in(m, true, f).dial_source == Some(DialSource::Radio),
        f.value == Some(hz),
        f.read_at_us == Some(m.now()),
{
}

/// A reading no more than two seconds old is not asked for again: the dial is what it said.
pub proof fn a_fresh_reading_stands<P: Ptt>(m: Modem, radio: P, f: FrequencyCache, hz: u64, t: u64)
    requires
        m.frequency.value == Some(hz),
        m.frequency.read_at_us == Some(t),
        t <= m.now() <= t + 2_000_000,
        asked_to(m, radio, true, true, f),
        hz <= 9_000_000_000_000_000,
    ensures
        f == m.frequency,
        situation_in(m, true, f).dial == Some((hz * 1000) as i64),
        situation_in(m, true, f).dial_source == Some(DialSource::Radio),
{
}

/// A radio that does not answer is taken at its last word for fifteen seconds, and no longer: after
/// that its dial is not known.
pub proof fn a_silent_radio_is_soon_not_known<P: Ptt>(m: Modem, radio: P, fresh: bool, f: FrequencyCache, hz: u64, t: u64)
    requires
        m.frequency.value == Some(hz),
        m.frequency.read_at_us == Some(t),
        t <= m.now(),
        asked_to(m, radio, fresh, true, f),
        forall|answer: Option<u64>| can_answer(radio, answer) ==> answer is None,
        hz <= 9_000_000_000_000_000,
    ensures
        m.now() <= t + 15_000_000 ==> situation_in(m, true, f).dial == Some((hz * 1000) as i64),
        m.now() > t + 15_000_000 ==> situation_in(m, true, f).dial is None && situation_in(m, true, f).dial_source is None,
        f.value == Some(hz),
        f.read_at_us == Some(t),
{
}

/// The radio is never asked for its dial while the station is transmitting.
pub proof fn a_keyed_radio_is_not_asked<P: Ptt>(m: Modem, radio: P, fresh: bool, can_tune: bool, f: FrequencyCache)
    requires
        m.transmitting,
        asked_to(m, radio, fresh, can_tune, f),
    ensures
        f == m.frequency,
{
}

/// A radio that cannot report its dial is where the operator says it is; where the operator says
/// nothing, its dial is not known. What it last read does not come into it.
pub proof fn a_declared_dial_is_the_operators<P: Ptt>(m: Modem, radio: P, fresh: bool, f: FrequencyCache)
    requires
        asked_to(m, radio, fresh, false, f),
    ensures
        match m.config.regulatory.dial_hz {
            Some(hz) => hz <= 9_000_000_000_000_000 ==> situation_in(m, false, f).dial == Some((hz * 1000) as i64)
                && situation_in(m, false, f).dial_source == Some(DialSource::Declared),
            None => situation_in(m, false, f).dial is None && situation_in(m, false, f).dial_source is None,
        },
        f == m.frequency,
{
}

/// A situation is the station's own in everything else: what the operator set, and the power the
/// operator gave.
pub proof fn a_situation_is_the_stations_own(m: Modem, can_tune: bool, f: FrequencyCache)
    ensures
        ({
            let s = situation_in(m, can_tune, f);
            let set = m.config.regulatory;
            &&& s.sideband == set.sideband
            &&& s.control == set.control
            &&& s.license == set.license
            &&& s.itu_region == set.itu_region
            &&& s.margin == set.margin
            &&& s.band_plan == set.band_plan
            &&& s.power_mw == m.config.operator.power_mw
        }),
{
}

/// For a display the radio is asked again ten seconds after it answered and a minute after it did
/// not, and a moment after it was tuned; what it last said stays until it says something else.
pub proof fn a_display_leaves_the_radio_alone(c: FrequencyCache, now: u64, later: u64, answer: Option<u64>, hz: u64)
    requires
        now <= later <= 1_000_000_000_000_000_000,
    ensures
        ({
            let p = c.polled(now, answer);
            let wait = if answer is Some { 10_000_000int } else { 60_000_000int };
            &&& p.may_poll(later, false) == (later >= now + wait)
            &&& !p.may_poll(later, true)
            &&& answer is Some ==> p.value == answer && p.read_at_us == Some(now)
            &&& answer is None ==> p.value == c.value && p.read_at_us == c.read_at_us
        }),
        ({
            let p = c.tuned(now, hz);
            &&& p.value == Some(hz)
            &&& p.read_at_us == Some(now)
            &&& p.may_poll(later, false) == (later >= now + 2_000_000)
        }),
        ({
            let p = c.refreshed(now, answer);
            &&& answer is Some ==> p.value == answer && p.read_at_us == Some(now)
            &&& answer is None ==> p == c
        }),
{
}

/// The frames of a queued burst, where it is one.
pub open spec fn frames_in(o: Outgoing) -> Option<Seq<TxFrame>> {
    match o {
        Outgoing::Frames(f) => Some(f@),
        Outgoing::Drive(f) => Some(f@),
        Outgoing::Datagram(f, _, _) => Some(f@),
        _ => None,
    }
}

/// What the air's table says a frame occupies: a data frame by its own rung's measurement, a
/// control frame by that of its own family.
pub open spec fn measured(air: AirOccupancy, f: TxFrame) -> Edges {
    if f.container == Container::Data {
        air.rungs@[f.mode as int].edges
    } else if f.floor {
        air.control_floor
    } else {
        air.control_ordinary
    }
}

proof fn lemma_all_measured(air: AirOccupancy, frames: Seq<TxFrame>, from: nat, i: int)
    requires
        from <= i < frames.len(),
        first_unmeasured(air, frames, from) >= frames.len(),
    ensures
        frame_edges(air, frames[i]) is Some,
    decreases frames.len() - from,
{
    if from < i {
        lemma_all_measured(air, frames, from + 1, i);
    }
}

proof fn lemma_burst_holds(air: AirOccupancy, frames: Seq<TxFrame>, n: nat, i: int)
    requires
        0 <= i < n <= frames.len(),
        forall|k: int| 0 <= k < frames.len() ==> frame_edges(air, #[trigger] frames[k]) is Some,
    ensures
        ({
            let all = burst_edges(air, frames, n);
            let own = frame_edges(air, frames[i])->0;
            all.power.0 <= own.power.0 && all.power.1 >= own.power.1 && all.spectral.0 <= own.spectral.0
                && all.spectral.1 >= own.spectral.1
        }),
    decreases n,
{
    if i < n - 1 {
        lemma_burst_holds(air, frames, (n - 1) as nat, i);
    }
}

proof fn lemma_burst_is_tight(air: AirOccupancy, frames: Seq<TxFrame>, n: nat) -> (r: (int, int, int, int))
    requires
        0 < n <= frames.len(),
        forall|k: int| 0 <= k < frames.len() ==> frame_edges(air, #[trigger] frames[k]) is Some,
    ensures
        0 <= r.0 < n && burst_edges(air, frames, n).power.0 == (frame_edges(air, frames[r.0])->0).power.0,
        0 <= r.1 < n && burst_edges(air, frames, n).power.1 == (frame_edges(air, frames[r.1])->0).power.1,
        0 <= r.2 < n && burst_edges(air, frames, n).spectral.0 == (frame_edges(air, frames[r.2])->0).spectral.0,
        0 <= r.3 < n && burst_edges(air, frames, n).spectral.1 == (frame_edges(air, frames[r.3])->0).spectral.1,
    decreases n,
{
    let own = frame_edges(air, frames[n - 1])->0;
    if n == 1 {
        (0, 0, 0, 0)
    } else {
        let before = burst_edges(air, frames, (n - 1) as nat);
        let r = lemma_burst_is_tight(air, frames, (n - 1) as nat);
        (
            if before.power.0 <= own.power.0 { r.0 } else { n - 1 },
            if before.power.1 >= own.power.1 { r.1 } else { n - 1 },
            if before.spectral.0 <= own.spectral.0 { r.2 } else { n - 1 },
            if before.spectral.1 >= own.spectral.1 { r.3 } else { n - 1 },
        )
    }
}

/// A burst is judged over everything in it: under both readings, the audio it is classed by holds
/// what the air's own table says of every frame in it, a data frame's by its rung and a control
/// frame's by its family, and each of its edges is one of theirs. It is classed as data.
pub proof fn a_burst_is_judged_over_every_frame(air: AirOccupancy, o: Outgoing, b: Bearings, i: int)
    requires
        frames_in(o) is Some,
        0 <= i < frames_in(o)->0.len(),
        emission_of(Some(air), o, b) is Ok,
    ensures
        ({
            let f = frames_in(o)->0[i];
            let e = emission_of(Some(air), o, b)->Ok_0;
            &&& e.kind == EmissionKind::Data
            &&& f.container == Container::Data ==> f.mode < air.rungs@.len() && {
                let own = air.rungs@[f.mode as int].edges;
                e.audio.power.0 <= own.power.0 && own.power.1 <= e.audio.power.1 && e.audio.spectral.0 <= own.spectral.0
                    && own.spectral.1 <= e.audio.spectral.1
            }
            &&& f.container == Container::Control ==> {
                let own = if f.floor { air.control_floor } else { air.control_ordinary };
                e.audio.power.0 <= own.power.0 && own.power.1 <= e.audio.power.1 && e.audio.spectral.0 <= own.spectral.0
                    && own.spectral.1 <= e.audio.spectral.1
            }
        }),
        ({
            let frames = frames_in(o)->0;
            let e = emission_of(Some(air), o, b)->Ok_0;
            &&& exists|k: int| 0 <= k < frames.len() && e.audio.power.0 == (#[trigger] measured(air, frames[k])).power.0
            &&& exists|k: int| 0 <= k < frames.len() && e.audio.power.1 == (#[trigger] measured(air, frames[k])).power.1
            &&& exists|k: int| 0 <= k < frames.len() && e.audio.spectral.0 == (#[trigger] measured(air, frames[k])).spectral.0
            &&& exists|k: int| 0 <= k < frames.len() && e.audio.spectral.1 == (#[trigger] measured(air, frames[k])).spectral.1
        }),
{
    let frames = frames_in(o)->0;
    assert forall|k: int| 0 <= k < frames.len() implies frame_edges(air, #[trigger] frames[k]) is Some by {
        lemma_all_measured(air, frames, 0, k);
    }
    lemma_burst_holds(air, frames, frames.len(), i);
    let r = lemma_burst_is_tight(air, frames, frames.len());
    assert(measured(air, frames[r.0]) == frame_edges(air, frames[r.0])->0);
    assert(measured(air, frames[r.1]) == frame_edges(air, frames[r.1])->0);
    assert(measured(air, frames[r.2]) == frame_edges(air, frames[r.2])->0);
    assert(measured(air, frames[r.3]) == frame_edges(air, frames[r.3])->0);
}

/// What is not in the air's table is not classed: a burst with a data frame at a rung that was
/// never measured, an empty burst, and anything at all where no air was measured. Every other
/// burst is.
pub proof fn what_was_never_measured_is_not_classed(air: Option<AirOccupancy>, o: Outgoing, b: Bearings)
    ensures
        air is None ==> emission_of(air, o, b) is Err,
        air is Some && frames_in(o) is Some ==> ({
            let frames = frames_in(o)->0;
            emission_of(air, o, b) is Ok <==> frames.len() > 0 && forall|k: int|
                0 <= k < frames.len() && (#[trigger] frames[k]).container == Container::Data ==> frames[k].mode
                    < air->0.rungs@.len()
        }),
{
    if air is Some && frames_in(o) is Some {
        let a = air->0;
        let frames = frames_in(o)->0;
        let all = forall|k: int|
            0 <= k < frames.len() && (#[trigger] frames[k]).container == Container::Data ==> frames[k].mode < a.rungs@.len();
        let bad = first_unmeasured(a, frames, 0);
        lemma_unmeasured(a, frames, 0);
        if bad >= frames.len() {
            assert forall|k: int| 0 <= k < frames.len() && (#[trigger] frames[k]).container == Container::Data implies frames[k].mode
                < a.rungs@.len() by {
                lemma_all_measured(a, frames, 0, k);
            }
        }
    }
}

proof fn lemma_unmeasured(air: AirOccupancy, frames: Seq<TxFrame>, from: nat)
    ensures
        ({
            let n = first_unmeasured(air, frames, from);
            n < frames.len() ==> frames[n as int].container == Container::Data && frames[n as int].mode >= air.rungs@.len()
        }),
    decreases frames.len() - from,
{
    if from < frames.len() && frame_edges(air, frames[from as int]) is Some {
        lemma_unmeasured(air, frames, from + 1);
    }
}

/// Who began an exchange: an operator's drive burst is the operator's; of any other burst the first
/// frame says. A call, a beacon, a probe and a client's datagram begin one, the answers to a call
/// and to a probe answer one, and everything else is of the session's direction, a call's where
/// there was none.
pub proof fn the_first_frame_says_who_began(air: AirOccupancy, o: Outgoing, b: Bearings)
    requires
        frames_in(o) is Some,
        emission_of(Some(air), o, b) is Ok,
    ensures
        ({
            let first = frames_in(o)->0[0];
            let d = (emission_of(Some(air), o, b)->Ok_0).direction;
            let of_session = if b.session_direction is Some { b.session_direction->0 } else { Direction::Originate };
            if o is Drive {
                d == Direction::Operator
            } else if first.container == Container::Control {
                d == of_session
            } else if first.data == Some(DataKind::ConnectReq) || first.data == Some(DataKind::Beacon) || first.data
                == Some(DataKind::Probe) || first.data == Some(DataKind::Datagram) {
                d == Direction::Originate
            } else if first.data == Some(DataKind::ConnectAck) || first.data == Some(DataKind::ProbeAck) {
                d == Direction::Respond
            } else {
                d == of_session
            }
        }),
{
}

/// What is no burst: the identifier is Morse, a hundred hertz either side of its tone, of the
/// session's direction; a keying test radiates nothing; the tune tone is a test emission,
/// twenty-five hertz either side of 1500 Hz; and both of those are the operator's. A pause is no
/// transmission.
pub proof fn what_is_no_burst_is_classed_for_what_it_is(air: AirOccupancy, o: Outgoing, b: Bearings)
    requires
        frames_in(o) is None,
        match b.cw_tone {
            Some(t) => 0 <= t <= 1_000_000_000,
            None => true,
        },
    ensures
        o is Pause ==> emission_of(Some(air), o, b) is Err,
        o is Identifier ==> (emission_of(Some(air), o, b) matches Ok(e) && {
            let tone = if b.cw_tone is Some { b.cw_tone->0 as int } else { 1_500_000 };
            &&& e.kind == EmissionKind::Cw
            &&& e.audio.power == ((tone - 100_000) as i64, (tone + 100_000) as i64)
            &&& e.audio.spectral == e.audio.power
            &&& e.direction == if b.session_direction is Some { b.session_direction->0 } else { Direction::Originate }
        }),
        o matches Outgoing::Audio(_, silent, _) ==> (emission_of(Some(air), o, b) matches Ok(e) && {
            &&& e.direction == Direction::Operator
            &&& e.audio.spectral == e.audio.power
            &&& silent ==> e.kind == EmissionKind::Nothing && e.audio.power == (1_500_000i64, 1_500_000i64)
            &&& !silent ==> e.kind == EmissionKind::Test && e.audio.power == (1_475_000i64, 1_525_000i64)
        }),
{
}

/// The exchange a station's next transmission belongs to: while a link is not idle, the one that
/// runs; otherwise an automatic station answers and any other calls.
pub proof fn a_station_with_no_session_calls_or_answers(session: Option<Direction>, control: Option<ControlMode>)
    ensures
        session is Some ==> standing_direction(false, session, control) == session->0,
        standing_direction(true, session, control) == standing_direction(false, None, control),
        standing_direction(true, session, Some(ControlMode::Automatic)) == Direction::Respond,
        control != Some(ControlMode::Automatic) ==> standing_direction(true, session, control) == Direction::Originate,
{
}

/// What the engine is told of a ceiling never exceeds it: where rules apply it is given a limit, the
/// ceiling's rung or the slowest where none is allowed; without rules it is given none.
pub proof fn the_engine_is_held_to_the_ceiling(policy: Policy, rung: Option<usize>)
    ensures
        policy is NoProfile <==> engine_ceiling(policy, rung) is None,
        policy !is NoProfile && rung is Some ==> engine_ceiling(policy, rung) == rung,
        policy !is NoProfile && rung is None ==> engine_ceiling(policy, rung) == Some(0usize),
{
}

/// What is asked about is judged over what would be sent: data at a rung over that rung, no faster
/// than the ladder goes, a keying test over nothing, and any other over the tune tone.
pub proof fn what_is_asked_about_is_what_would_be_sent(air: AirOccupancy, kind: EmissionKind, rung: usize)
    ensures
        rung < air.rungs@.len() ==> asked_audio(air, EmissionKind::Data, Some(rung)) == air.rungs@[rung as int].edges,
        rung >= air.rungs@.len() > 0 ==> asked_audio(air, EmissionKind::Data, Some(rung))
            == air.rungs@.last().edges,
        asked_audio(air, EmissionKind::Nothing, Some(rung)).power == (1_500_000i64, 1_500_000i64),
        kind == EmissionKind::Cw || kind == EmissionKind::Test ==> asked_audio(air, kind, None).power == (
            1_475_000i64,
            1_525_000i64,
        ),
{
}

/// A decision is reported once and then not again while it only repeats: the same word about the
/// same thing within ten seconds is left out, and anything else goes in behind what is there, of
/// which the newest sixty-four are held.
pub proof fn a_decision_is_reported_once(l: Logged, d: crate::regulatory::Ruling, now: u64)
    ensures
        ({
            let after = logged_with(l, d, now);
            let again = l.last is Some && (l.last->0).0 == d.code && (l.last->0).1 == d.what && now < (l.last->0).2 + 10_000_000;
            &&& again ==> after == l
            &&& !again ==> after.last == Some((d.code, d.what, now)) && after.reports.len() > 0 && after.reports.last() == d
            &&& !again && l.reports.len() < 64 ==> after.reports.drop_last() =~= l.reports
            &&& !again && l.reports.len() >= 64 ==> after.reports.drop_last() =~= l.reports.drop_first()
        }),
{
}

} // verus!
