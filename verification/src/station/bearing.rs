//! What a station answers when it is asked about itself, and how it begins and ends what it
//! keeps.
use vstd::prelude::*;

use crate::json::{Number, Tree};
use crate::ptt::Ptt;
use crate::record::{FrameRecord, Tape};
use crate::regulatory::occupancy::AirOccupancy;
use crate::regulatory::profile::Profile;
use crate::regulatory::{
    dial_views, first_refused, is_policy_named, ladder_edges, rung_emission, Direction, EmissionKind, Policy, Ruling,
    Situation, Verdict,
};
use crate::sessions::{bounded, Session};
use crate::station::commands::{drive_index, DriveRung};
use crate::station::config::{StationConfig, ID_LOOKAHEAD_US};
use crate::station::frames::Heard;
use crate::station::gate::{
    asked_audio, asked_ruling, emission_of, indicated, later, operator_test, policy_word, standing_direction, top_of,
    widest_emission, Answer, Bearings, RegulatoryQuery, Standing,
};
use crate::station::queue::Outgoing;
use crate::station::receive::{busy_line, busy_why, is_record_of, BusyReading};
use crate::station::rules::{
    answers, asks_for_identifier, is_ceiling, is_in_force, shows_ceiling, shows_last, stands_so, status_error,
    CeilingStatus, InForce, LastDecision,
};
use crate::station::session::{
    ending_of, event_taken, is_begun, meta_tree, notes_taken, session_down, tape_name, Ends, Engine, Followed,
};
use crate::station::transmit::{held_back, id_due, is_gated, Gated};
use crate::station::{is_fresh, Link, Modem, Order, Phase};
use crate::text::trimmed;

verus! {

/// A transmission the rules refuse is dropped and nothing follows it, unless it is a session's
/// own burst: then the session is over. A client's datagram is answered with the rules' reason.
pub proof fn what_the_rules_refuse_has_its_consequence(m: Modem, s: Situation, phase: Phase, g: Gated)
    requires
        m.pending.len() > 0,
        m.occupancy is Some,
        is_gated(m, s, phase, g),
    ensures
        ({
            let b = Bearings {
                bandwidth_hz: m.config.bandwidth_hz,
                session_direction: m.session_direction,
                cw_tone: if m.config.cw_id is Some { Some(m.config.cw_id->0.tone) } else { None },
            };
            emission_of(m.occupancy, m.pending[0], b) matches Ok(tx) ==> {
                let word = m.policy.ruling(s, tx);
                &&& g is Leave <==> word.verdict != Verdict::Blocked
                &&& word.verdict == Verdict::Blocked ==> match m.pending[0] {
                    Outgoing::Frames(_) => (g is Halted <==> phase != Phase::Idle) && (g is Refused <==> phase == Phase::Idle),
                    Outgoing::Datagram(_, reference, last) => (g matches Gated::Datagram(r, l, why) && r == reference && l
                        == last && why@ == word.summary),
                    _ => g is Refused,
                }
            }
        }),
{
}

/// A transmission held back for a busy channel is counted once, and since when is known; nothing
/// else of the station changes.
pub proof fn being_held_back_is_counted(m: Modem, now: u64)
    requires
        m.stats.deferred_for_busy < usize::MAX,
    ensures
        held_back(m, now).stats.deferred_for_busy == m.stats.deferred_for_busy + 1,
        held_back(m, now).held_since == Some(now),
        held_back(m, now).pending == m.pending,
        held_back(m, now).stats.transmissions == m.stats.transmissions,
        held_back(m, now).leave == m.leave,
{
}

/// A test is asked about as what it is: a drive burst at the fastest rung there is to send, a
/// keying test or a tone with no rung at all.
pub proof fn a_test_is_asked_about_as_what_it_is(kind: EmissionKind, top: usize)
    ensures
        kind == EmissionKind::Data ==> operator_test(kind, top).0 == Some(top) && operator_test(kind, top).1
            == "drive bursts"@,
        kind == EmissionKind::Nothing ==> operator_test(kind, top).0 is None && operator_test(kind, top).1
            == "a keying test"@,
        kind != EmissionKind::Data && kind != EmissionKind::Nothing ==> operator_test(kind, top).0 is None && operator_test(
            kind,
            top,
        ).1 == "the tune tone"@,
{
}

/// The top of a ladder is the rung it may go to, or its last where that is beyond it.
pub proof fn the_top_is_on_the_ladder(air: AirOccupancy, max_mode: usize)
    requires
        air.rungs@.len() > 0,
    ensures
        top_of(air, max_mode) < air.rungs@.len(),
        top_of(air, max_mode) <= max_mode,
        top_of(air, max_mode) == max_mode || top_of(air, max_mode) == air.rungs@.len() - 1,
{
}

/// What is asked about is judged as it would go out, in the situation given; with nothing
/// measured it is refused whatever the rules are.
pub proof fn a_question_is_judged_as_it_would_go(
    policy: Policy,
    air: AirOccupancy,
    s: Situation,
    direction: Direction,
    kind: EmissionKind,
    rung: Option<usize>,
    what: Seq<char>,
)
    ensures
        ({
            let r = asked_ruling(policy, Some(air), s, direction, kind, rung, what);
            r == policy.ruling(
                s,
                crate::regulatory::Emission { what, kind, audio: asked_audio(air, kind, rung), direction },
            )
        }),
        asked_ruling(policy, None, s, direction, kind, rung, what).verdict == Verdict::Blocked,
{
}

/// What is said to be in force is the rules' own: their name, whose they are and how they
/// measure a width. Without rules nothing is.
pub proof fn what_is_in_force_is_the_rules_own(policy: Policy, x: Option<InForce>)
    requires
        is_in_force(policy, x),
    ensures
        x is Some <==> policy is Rules,
        policy matches Policy::Rules(p) ==> x->0.id@ == p.id@ && x->0.name@ == p.name@ && x->0.authority@ == p.authority@
            && x->0.rules_as_of@ == p.rules_as_of@ && x->0.source@ == p.source@ && x->0.reading == p.bandwidth.reading,
        policy_word(policy) == "rules"@ <== policy is Rules,
        policy_word(policy) == "unset"@ <== policy is Unset,
        policy_word(policy) == "none"@ <== policy is NoProfile,
        policy_word(policy) == "broken"@ <== policy is Broken,
{
}

/// What is wrong with a station's rules is that nothing is measured for it, or that they could
/// not be read.
pub proof fn what_is_wrong_with_the_rules_is_said(m: Modem)
    ensures
        m.occupancy is None ==> status_error(m) is Some,
        m.occupancy matches Some(air) ==> air.rungs@.len() == 0 ==> status_error(m) is Some,
        m.occupancy matches Some(air) ==> air.rungs@.len() > 0 ==> match m.policy {
            Policy::Broken(e) => status_error(m) == Some(e@),
            _ => status_error(m) is None,
        },
{
}

/// The ceiling shown is the one the station keeps: its rung by its own name, of how many there
/// are, and what stands above it.
pub proof fn the_ceiling_shown_is_the_one_kept(m: Modem, air: AirOccupancy, x: Option<CeilingStatus>, rung: usize)
    requires
        m.occupancy == Some(air),
        shows_ceiling(m, air, x),
    ensures
        x is Some <==> m.ceiling is Some,
        m.ceiling matches Some(c) ==> c.0 == Some(rung) ==> {
            &&& x->0.rung == Some(rung)
            &&& x->0.of == air.rungs@.len()
            &&& rung < air.rungs@.len() ==> (x->0.name matches Some(n) && n@ == air.rungs@[rung as int].name@)
        },
        m.ceiling matches Some(c) ==> (c.1 is Some <==> x->0.limit is Some) && (c.1 matches Some(d) ==> x->0.limit->0@ == d),
{
}

/// The last decision shown is the last there was, with how long ago it was made.
pub proof fn the_last_decision_is_shown_with_its_age(m: Modem, x: Option<LastDecision>, t: u64, d: Ruling)
    requires
        shows_last(m, x),
        m.last_gate == Some((t, d)),
        t <= m.now(),
    ensures
        x matches Some(s) && s.t_us == t && s.age_us == m.now() - t && s.decision@ == d,
{
}

/// Where a station stands is told for what it would send: at the rung it may go to and at the
/// slowest, with the dials that are lawful for each.
pub proof fn a_station_stands_where_it_would_send(m: Modem, air: AirOccupancy, floors: Seq<bool>, phase: Phase, x: Standing)
    requires
        air.rungs@.len() > 0,
        stands_so(m, air, floors, phase, x),
    ensures
        m.config.max_mode < air.rungs@.len() ==> x.top == m.config.max_mode && x.widest == ladder_edges(
            air,
            floors,
            m.config.max_mode as nat,
        ),
        m.config.max_mode >= air.rungs@.len() ==> x.top == air.rungs@.len() - 1 && x.widest == ladder_edges(
            air,
            floors,
            (air.rungs@.len() - 1) as nat,
        ),
        x.floor == ladder_edges(air, floors, 0),
        dial_views(x.safe_widest@) == m.policy.lawful_dials(x.situation, x.widest, x.direction),
        dial_views(x.safe_floor@) == m.policy.lawful_dials(x.situation, x.floor, x.direction),
        phase != Phase::Idle && m.session_direction is Some ==> x.direction == m.session_direction->0,
{
}

/// A question is answered for what it names: its own direction and rung, or the station's where
/// it names none; and the ceiling under it is the last rung before the first that is refused.
pub proof fn a_question_is_answered_for_what_it_names(
    m: Modem,
    air: AirOccupancy,
    floors: Seq<bool>,
    phase: Phase,
    q: RegulatoryQuery,
    x: Answer,
    who: Direction,
    rung: usize,
)
    requires
        answers(m, air, floors, phase, q, x),
        q.direction == Some(who),
        q.rung == Some(rung),
        rung < air.rungs@.len(),
    ensures
        dial_views(x.safe_dials@) == m.policy.lawful_dials(x.situation, ladder_edges(air, floors, rung as nat), who),
        ({
            let n = first_refused(m.policy, x.situation, air, floors, who, 0);
            &&& n == 0 ==> x.ceiling.rung is None
            &&& n > 0 ==> (x.ceiling.rung matches Some(k) && k + 1 == n as usize)
            &&& x.ceiling.limit is None ==> n == air.rungs@.len()
            &&& x.ceiling.limit matches Some(d) ==> d@ == m.policy.ruling(x.situation, rung_emission(air, floors, n, who))
        }),
        x.decision@ == m.policy.ruling(
            x.situation,
            widest_emission(air, floors, rung as nat, who),
        ),
{
    let n = first_refused(m.policy, x.situation, air, floors, who, 0);
    lemma_refused_on_the_ladder(m.policy, x.situation, air, floors, who, 0);
    assert(air.rungs.len() == air.rungs@.len());
}

proof fn lemma_refused_on_the_ladder(
    policy: Policy,
    s: Situation,
    air: AirOccupancy,
    floors: Seq<bool>,
    who: Direction,
    from: nat,
)
    requires
        from <= air.rungs@.len(),
    ensures
        from <= first_refused(policy, s, air, floors, who, from) <= air.rungs@.len(),
    decreases air.rungs@.len() - from,
{
    if from < air.rungs@.len() {
        lemma_refused_on_the_ladder(policy, s, air, floors, who, from + 1);
    }
}

/// A station's ceiling is the last rung before the first that the rules refuse, and none where
/// they refuse the slowest.
pub proof fn the_ceiling_is_below_the_first_refused(
    m: Modem,
    air: AirOccupancy,
    s: Situation,
    phase: Phase,
    floors: Seq<bool>,
    c: (Option<usize>, Option<Ruling>),
)
    requires
        m.occupancy == Some(air),
        is_ceiling(m, s, phase, floors, c),
    ensures
        ({
            let who = standing_direction(phase == Phase::Idle, m.session_direction, m.config.regulatory.control);
            let n = first_refused(m.policy, s, air, floors, who, 0);
            &&& c.0 is None <==> n == 0
            &&& c.0 matches Some(k) ==> k + 1 == n
            &&& c.1 is None ==> n == air.rungs@.len()
            &&& c.1 matches Some(d) ==> d == m.policy.ruling(s, rung_emission(air, floors, n, who))
        }),
{
    let who = standing_direction(phase == Phase::Idle, m.session_direction, m.config.regulatory.control);
    lemma_refused_on_the_ladder(m.policy, s, air, floors, who, 0);
    assert(air.rungs.len() == air.rungs@.len());
}

/// A session's end is told with the station's own figures: the time, the width, the dial last
/// read and what the engine says arrived.
pub proof fn an_end_is_told_with_the_stations_own_figures(m: Modem, e: Engine)
    requires
        m.config.bandwidth_hz <= u32::MAX,
    ensures
        ending_of(m, e).now_us == m.now(),
        ending_of(m, e).bandwidth_hz == m.config.bandwidth_hz,
        ending_of(m, e).frequency_hz == m.frequency.value,
        ending_of(m, e).bytes_acked == e.acked,
        ending_of(m, e).test == e.test,
{
}

/// A recording is known by its name without the ending.
pub proof fn a_recording_is_known_by_its_name(m: Modem, tape: Tape, name: Seq<char>)
    requires
        m.tape == Some(tape),
        tape.wav == name + ".wav"@,
    ensures
        tape_name(m) == Some(name),
{
    crate::figures::what_is_put_on_is_taken_off(name, ".wav"@);
}

/// A session that ends leaves the station without a link or a count of its traffic, and with an
/// identifier due where it identifies itself and has sent anything since the last.
pub proof fn a_session_that_ends_leaves_an_identifier_due(m: Modem, detail: Seq<char>, finished: Seq<Session>)
    ensures
        ({
            let n = session_down(m, detail, finished);
            &&& n.link is None && n.session_notes is None && n.pending_callsigns is None
            &&& n.traffic.moved.len() == 0 && n.traffic.crossed == m.traffic.crossed
            &&& n.finished == finished
            &&& m.config.cw_id is Some && m.identifier.transmitted_since ==> n.identifier.final_due
            &&& (m.config.cw_id is None || !m.identifier.transmitted_since) ==> n.identifier.final_due
                == m.identifier.final_due
            &&& n.identifier.last == m.identifier.last && n.identifier.transmitted_since == m.identifier.transmitted_since
            &&& n.pending == m.pending && n.transmitting == m.transmitting && n.policy == m.policy
        }),
{
}

/// The note for a recording is used up by the session that it is made for: one that begins
/// where sessions are recorded and is no test.
pub proof fn a_note_is_used_up_by_its_session(m: Modem, name: Seq<char>, test: bool)
    ensures
        m.config.record_auto && !test && name == "connected"@ ==> notes_taken(m, name, test).record_notes is None,
        !m.config.record_auto || test || name != "connected"@ ==> notes_taken(m, name, test) == m,
{
}

/// A recording says who made it and how: each under its own name, the power in watts and the
/// level as a fraction.
pub proof fn a_recording_says_who_made_it(
    c: StationConfig,
    call: Seq<char>,
    remote: Option<Seq<char>>,
    notes: Option<Seq<char>>,
    frequency_hz: Option<u64>,
    state: Seq<char>,
)
    ensures
        ({
            let t = meta_tree(c, call, remote, notes, frequency_hz, state)->Table_0;
            &&& t.len() == 11
            &&& t[0] == ("bandwidth_hz"@, Tree::Number(Number::Unsigned(c.bandwidth_hz)))
            &&& t[1] == ("callsign"@, Tree::Text(call))
            &&& t[2] == ("compress"@, Tree::Bool(c.compress))
            &&& t[3].0 == "frequency_hz"@ && (frequency_hz matches Some(hz) ==> t[3].1 == Tree::Number(Number::Unsigned(hz)))
            &&& frequency_hz is None ==> t[3].1 == Tree::Null
            &&& t[4] == ("max_mode"@, Tree::Number(Number::Unsigned(c.max_mode as u64)))
            &&& t[5].0 == "notes"@ && (notes matches Some(n) ==> t[5].1 == Tree::Text(n)) && (notes is None ==> t[5].1
                == Tree::Null)
            &&& t[7].0 == "remote"@ && (remote matches Some(r) ==> t[7].1 == Tree::Text(r)) && (remote is None ==> t[7].1
                == Tree::Null)
            &&& t[8] == ("state"@, Tree::Text(state))
            &&& t[9] == ("tx_level"@, Tree::Number(Number::Real(c.tx_level as i128)))
            &&& t[10] == ("wait_for_clear"@, Tree::Bool(c.wait_for_clear))
        }),
        ({
            let t = meta_tree(c, call, remote, notes, frequency_hz, state)->Table_0;
            let o = t[6].1->Table_0;
            &&& t[6].0 == "operator"@
            &&& o.len() == 4
            &&& o[0] == ("antenna"@, Tree::Text(c.operator.antenna@))
            &&& o[1] == ("grid"@, Tree::Text(c.operator.grid@))
            &&& o[2].0 == "power_w"@
            &&& c.operator.power_mw is None ==> o[2].1 == Tree::Null
            &&& c.operator.power_mw matches Some(mw) ==> (o[2].1 matches Tree::Number(Number::Real(nano)) && nano == mw
                * 1_000_000)
            &&& o[3] == ("rig"@, Tree::Text(c.operator.rig@))
        }),
{
}

/// A recording begins empty, at the rate of the sound card and at this moment, in two files of
/// one name: the name given, or one made of the time and the stations.
pub proof fn a_recording_begins_empty<P: Ptt>(
    t: Tape,
    radio: P,
    m: Modem,
    name: Seq<char>,
    notes: Option<Seq<char>>,
    stamp: Seq<char>,
    ends: Ends,
    state: Seq<char>,
)
    requires
        is_begun(t, radio, m, Some(name), notes, stamp, ends, state),
    ensures
        t.wav == name + ".wav"@,
        t.sidecar == name + ".json"@,
        t.sample_rate == m.config.audio_rate,
        t.samples == 0 && t.frames.len() == 0 && t.sent.len() == 0 && t.events.len() == 0,
        t.started == stamp,
        t.t0_us == m.now() as i64,
{
}

/// A session's coming and going are followed: it begins with `connected`, with its ceiling
/// worked out, and ends with `disconnected`, when callsigns that waited for it are handed on.
/// Nothing else begins or ends one, or asks anything of the engine.
pub proof fn coming_and_going_are_followed<P: Ptt>(
    m: Modem,
    radio: P,
    after: Modem,
    name: Seq<char>,
    detail: Seq<char>,
    e: Engine,
    link: &Link,
    floors: Seq<bool>,
    r: Followed,
)
    requires
        event_taken(m, radio, after, name, detail, e, link, floors, r),
    ensures
        r.began <==> name == "connected"@,
        r.ended <==> name == "disconnected"@,
        name == "connected"@ ==> (after.link matches Some(l) && l.started_us == m.now() && l.bytes_sent == 0
            && l.bytes_received == 0) && after.session_notes is Some && after.traffic.moved.len() == 0,
        name == "disconnected"@ ==> after.link is None && after.session_notes is None,
        name == "disconnected"@ && m.pending_callsigns is Some ==> (r.order matches Some(Order::SetCallsigns(calls))
            && m.pending_callsigns == Some(crate::text::views(calls@))),
        name == "disconnected"@ && m.pending_callsigns is None ==> r.order is None,
        name != "connected"@ && name != "disconnected"@ ==> r.order is None && after.link == m.link && after.session_notes
            == m.session_notes,
{
    reveal_strlit("connected");
    reveal_strlit("disconnected");
    assert("connected"@.len() == 9 && "disconnected"@.len() == 12);
    reveal(event_taken);
    reveal(crate::station::rules::ceiling_found);
}

/// A new station holds nothing: nothing queued, heard or sent, its key up under the limit it was
/// given, and its key held after a transmission for as long as the sound card lags as well.
pub proof fn a_new_station_holds_nothing(
    m: Modem,
    config: StationConfig,
    occupancy: Option<AirOccupancy>,
    document: Result<Profile, String>,
)
    requires
        is_fresh(m, config, occupancy, document),
        config.key_tail_us + config.playback_lead_us <= u64::MAX,
    ensures
        m.config.key_tail_us == config.key_tail_us + config.playback_lead_us,
        m.key.limit_us == config.max_key_us && m.key.since is None && !m.key.tripped && m.key.trips == 0,
        m.pending.len() == 0 && m.events.len() == 0 && m.delivered.len() == 0 && m.outbound.len() == 0,
        !m.transmitting && m.leave is None && m.link is None && m.tape is None && m.ceiling is None,
        m.occupancy == occupancy,
        m.config.max_mode == config.max_mode && m.config.audio_rate == config.audio_rate && m.config.max_key_us
            == config.max_key_us,
{
}

/// A frame is recorded as it was heard, its offset only where it is to be believed: where the
/// frame decoded, or was sure enough, or began as surely as a preamble does.
pub proof fn a_frame_is_recorded_as_it_was_heard(r: FrameRecord, h: Heard, rung: usize, now: u64, sure: u32)
    requires
        is_record_of(r, h, rung, now, sure),
    ensures
        r.t_us == now && r.mode == rung && r.rv == h.rv && r.bytes == h.bytes && r.decoded == h.decoded,
        r.snr_3k_mdb == h.snr_mdb && r.confidence == h.confidence && r.detect_confidence == h.detect_confidence,
        h.control ==> r.kind@ == "control"@,
        !h.control ==> r.kind@ == "data"@,
        r.cfo_mhz == Some(h.cfo_mhz) || r.cfo_mhz is None,
        r.cfo_mhz is Some <==> h.decoded || h.confidence >= sure || h.detect_confidence >= 1300,
{
}

/// A change of the channel is told with the level, how far it is above the floor, and the
/// threshold, which is the floor and the margin together.
pub proof fn a_change_of_the_channel_is_told_with_its_figures(busy: bool, r: BusyReading)
    ensures
        exists|rest: Seq<char>|
            busy_line(busy, r) == #[trigger] (crate::text::tenths(r.level_mdb as int, 100) + " dBFS | floor "@
                + crate::text::tenths(r.floor_mdb as int, 100) + " | delta "@ + crate::text::signed_tenths(
                r.level_mdb - r.floor_mdb,
                100,
            ) + " dB | margin "@ + crate::text::tenths(r.margin_mdb as int, 100) + " |              threshold "@
                + crate::text::tenths(r.floor_mdb + r.margin_mdb, 100) + rest),
        !busy ==> busy_why(busy, r.reason) == "hangover ran out with the energy under the threshold"@,
{
    let rest = " dBFS | "@ + (if busy { "OFF -> ON"@ } else { "ON -> OFF"@ }) + " | "@ + busy_why(busy, r.reason);
    let head = crate::text::tenths(r.level_mdb as int, 100) + " dBFS | floor "@ + crate::text::tenths(
        r.floor_mdb as int,
        100,
    ) + " | delta "@ + crate::text::signed_tenths(r.level_mdb - r.floor_mdb, 100) + " dB | margin "@
        + crate::text::tenths(r.margin_mdb as int, 100) + " |              threshold "@ + crate::text::tenths(
        r.floor_mdb + r.margin_mdb,
        100,
    );
    assert(busy_line(busy, r) =~= head + rest);
}

/// A signed number carries its sign always: a plus where it is not less than nothing.
pub proof fn a_signed_number_carries_its_sign(n: int, tenth: nat)
    ensures
        n >= 0 ==> crate::text::signed_tenths(n, tenth) == "+"@ + crate::text::tenths(n, tenth),
        n < 0 ==> crate::text::signed_tenths(n, tenth)[0] == '-',
{
}

/// An identifier is asked for where the station identifies itself and one is due under what goes
/// out, or is what goes out; never under the operator's own tone or in a pause.
pub proof fn an_identifier_is_asked_for_where_due(m: Modem, now: u64, made: Result<u64, Seq<char>>)
    requires
        m.pending.len() > 0,
    ensures
        m.config.cw_id is None ==> !asks_for_identifier(m, now, made),
        m.pending[0] is Audio || m.pending[0] is Pause ==> !asks_for_identifier(m, now, made),
        m.pending[0] is Identifier && m.config.cw_id is Some ==> asks_for_identifier(m, now, made),
        m.pending[0] is Frames && m.config.cw_id is Some ==> (asks_for_identifier(m, now, made) <==> (
        id_due(m, now) && made is Ok && made->Ok_0 > 0)),
{
}

/// An identifier that will be due within the next minute is allowed for in the burst that goes
/// out now.
pub proof fn an_identifier_due_within_the_minute_is_allowed_for(m: Modem, now: u64, last: u64)
    requires
        m.config.cw_id is Some,
        m.identifier.last == Some(last),
        !m.identifier.final_due,
        now + 60_000_000 <= u64::MAX,
    ensures
        id_due(m, later(now, ID_LOOKAHEAD_US)) <==> now + 60_000_000 >= last + m.config.cw_id_interval_us,
{
}

/// The history holds the newest five hundred sessions: fewer are all held, and of more the
/// first of the list, which has the newest first.
pub proof fn the_history_holds_five_hundred(s: Seq<Session>)
    ensures
        s.len() <= 500 ==> bounded(s) == s,
        s.len() > 500 ==> bounded(s).len() == 500 && forall|i: int| 0 <= i < 500 ==> bounded(s)[i] == #[trigger] s[i],
{
}

/// The rules a station works under are those it is told to: none until it is told, none at all
/// where it is told so, and otherwise the set of that name, where it reads and holds together.
pub proof fn a_station_works_under_the_rules_named(policy: Policy, id: Seq<char>, profile: Profile)
    ensures
        is_policy_named(policy, id, Ok(profile)) && trimmed(id) == ""@ ==> policy is Unset,
        is_policy_named(policy, id, Ok(profile)) && trimmed(id) == "none"@ ==> policy is NoProfile,
        is_policy_named(policy, id, Ok(profile)) && policy is Rules ==> profile.fault() is None && *policy->Rules_0 == profile,
        is_policy_named(policy, id, Ok(profile)) && profile.fault() is Some ==> !(policy is Rules),
{
    reveal_strlit("");
    reveal_strlit("none");
    assert(""@.len() == 0 && "none"@.len() == 4);
}

/// Drive bursts go out at the rung the station may go to, or the fastest there is where that is
/// beyond it.
pub proof fn drive_bursts_go_at_the_stations_rung(m: Modem, rungs: Seq<DriveRung>)
    requires
        rungs.len() > 0,
    ensures
        0 <= drive_index(m, rungs) < rungs.len(),
        m.config.max_mode < rungs.len() ==> drive_index(m, rungs) == m.config.max_mode,
        m.config.max_mode >= rungs.len() ==> drive_index(m, rungs) + 1 == rungs.len(),
{
}

/// The indicator shows what would become of the widest that the station sends: the rules' own
/// word on it, unless they refuse it and allow the slower rungs up to a ceiling; then it is a
/// warning, which stays for as long as the ceiling is below the top.
pub proof fn the_indicator_shows_what_would_become_of_it(
    policy: Policy,
    s: Situation,
    air: AirOccupancy,
    floors: Seq<bool>,
    top: nat,
    direction: Direction,
    ceiling: Option<usize>,
)
    ensures
        ({
            let wide = widest_emission(air, floors, top, direction);
            let full = policy.ruling(s, wide);
            let shown = indicated(policy, s, air, floors, top, direction, ceiling);
            &&& wide.kind == EmissionKind::Data
            &&& wide.audio == ladder_edges(air, floors, top)
            &&& wide.direction == direction
            &&& full.verdict != Verdict::Blocked ==> shown == full
            &&& ceiling is None ==> shown == full
            &&& ceiling matches Some(k) ==> k >= top ==> shown == full
            &&& ceiling matches Some(k) ==> k < top && full.verdict == Verdict::Blocked ==> shown.verdict == Verdict::Warning
        }),
{
}

} // verus!
