//! How a station conducts itself on the air: what it waits for, how long it holds the key, when it
//! identifies itself, and what is left when it stops.
use vstd::prelude::*;

use crate::ptt::{callsign_fault, KeyClock};
use crate::regulatory::{Situation, Verdict};
use crate::station::account::Notes;
use crate::station::clock::{after_transmission, PlaybackClock};
use crate::station::commands::{
    drive_fault, drive_frames, ends_in_drive, key_test_fault, lived, tests_stopped, tune_fault, DriveRung, Live,
};
use crate::station::config::{burst_limit, samples_in, time_of, StationConfig};
use crate::station::frames::Container;
use crate::station::gate::{emission_of, identifier_emission, Bearings};
use crate::station::queue::{without_frames, without_tests, DataKind, Outgoing, TxFrame};
use crate::station::transmit::{
    aborted, gated, given_up, handed, holds, id_due, id_gap, id_speed, identifies, key_down, layout, lead_of,
    notes_after, past_pauses, stage_of, tail_of, transmission_over, tripped, Channel, Stage, Waits,
};
use crate::station::{Modem, Phase};

verus! {

/// Leave is the rules' own word on what is about to go: the head of the queue, classed by what it
/// occupies and who began it, and judged in the situation the station is in. It is given exactly
/// where they do not refuse, and with it nothing else of the queue changes; what they refuse, or
/// cannot be classed, is off the queue and has no leave.
pub proof fn leave_is_the_rules_own_word(m: Modem, s: Situation, now: u64, phase: Phase, word: Seq<char>)
    requires
        m.pending.len() > 0,
    ensures
        ({
            let b = Bearings {
                bandwidth_hz: m.config.bandwidth_hz,
                session_direction: m.session_direction,
                cw_tone: if m.config.cw_id is Some { Some(m.config.cw_id->0.tone) } else { None },
            };
            let after = gated(m, s, now, phase, word);
            match emission_of(m.occupancy, m.pending[0], b) {
                Ok(tx) => {
                    let r = m.policy.ruling(s, tx);
                    &&& after.last_gate == Some((now, r))
                    &&& r.verdict != Verdict::Blocked ==> after.leave == Some(r) && after.pending == m.pending
                    &&& r.verdict == Verdict::Blocked ==> after.leave is None && after.pending == m.pending.drop_first()
                },
                Err(_) => after.leave is None && after.pending == m.pending.drop_first(),
            }
        }),
        gated(m, s, now, phase, word).transmitting == m.transmitting,
        gated(m, s, now, phase, word).queued == m.queued,
{
}

/// What begins something waits for a clear channel where the operator asked for that: off a session,
/// until the detector has learned the noise floor and hears nobody. An answer to a probe, a client's
/// datagram and a silent keying test wait for nobody, and nothing waits inside a session or where the
/// operator did not ask.
pub proof fn what_begins_something_waits(m: Modem, phase: Phase, channel: Channel)
    requires
        m.pending.len() > 0,
    ensures
        !m.config.wait_for_clear ==> !holds(m, phase, channel),
        phase == Phase::Session ==> !holds(m, phase, channel),
        channel.settled && !channel.busy ==> !holds(m, phase, channel),
        m.pending[0] is Datagram ==> !holds(m, phase, channel),
        m.pending[0] matches Outgoing::Audio(_, silent, _) ==> (silent ==> !holds(m, phase, channel)),
        m.pending[0] matches Outgoing::Frames(f) ==> (f@.len() == 1 && f@[0].container == Container::Data && f@[0].data
            == Some(DataKind::ProbeAck) ==> !holds(m, phase, channel)),
        m.config.wait_for_clear && phase != Phase::Session && (!channel.settled || channel.busy) && (match m.pending[0] {
            Outgoing::Frames(f) => f@.len() != 1 || f@[0].container != Container::Data || f@[0].data != Some(
                DataKind::ProbeAck,
            ),
            Outgoing::Audio(_, silent, _) => !silent,
            Outgoing::Datagram(_, _, _) => false,
            _ => true,
        }) ==> holds(m, phase, channel),
{
}

/// A pause runs for as long as it says from when it comes to the head of the queue, and not a moment
/// longer; what stands behind it waits, and anything else at the head does not.
pub proof fn a_pause_runs_its_time(q: Seq<Outgoing>, us: u64, until: Option<u64>, now: u64)
    requires
        q.len() > 0,
        q[0] == Outgoing::Pause(us, until),
        now + us <= u64::MAX,
    ensures
        ({
            let end = if until is Some { until->0 as int } else { now + us };
            &&& now < end ==> past_pauses(q, now).len() == q.len() && past_pauses(q, now)[0] == Outgoing::Pause(us, Some(end as u64))
                && past_pauses(q, now).drop_first() =~= q.drop_first()
            &&& now >= end ==> past_pauses(q, now) == past_pauses(q.drop_first(), now)
        }),
{
}

/// What is not a pause is not passed over.
pub proof fn only_pauses_are_passed(q: Seq<Outgoing>, now: u64)
    requires
        q.len() == 0 || !(q[0] is Pause),
    ensures
        past_pauses(q, now) == q,
{
}

/// An identifier is due where one is asked for and one is owed for the end of a session, none has
/// gone yet, or the last went its interval ago or longer.
pub proof fn an_identifier_is_due_at_its_interval(m: Modem, now: u64)
    ensures
        m.config.cw_id is None ==> !id_due(m, now),
        m.config.cw_id is Some && m.identifier.final_due ==> id_due(m, now),
        m.config.cw_id is Some && m.identifier.last is None ==> id_due(m, now),
        m.config.cw_id is Some && m.identifier.last is Some && !m.identifier.final_due ==> (id_due(m, now) <==> now
            >= m.identifier.last->0 + m.config.cw_id_interval_us),
{
}

/// An identifier is sent no faster than the operator set and no faster than the rules allow, and at
/// one of the two.
pub proof fn an_identifier_keeps_to_its_speed(m: Modem)
    ensures
        m.config.cw_id is None <==> id_speed(m) is None,
        id_speed(m) matches Some(v) ==> {
            &&& v <= m.config.cw_id->0.milli_wpm
            &&& m.policy is Rules && m.policy->Rules_0.cw_id is Some ==> v <= m.policy->Rules_0.cw_id->0.max_milli_wpm
            &&& v == m.config.cw_id->0.milli_wpm || (m.policy is Rules && m.policy->Rules_0.cw_id is Some && v
                == m.policy->Rules_0.cw_id->0.max_milli_wpm)
        },
{
}

/// An identifier rides only where one is due, the rules do not refuse the Morse it is, there is any,
/// and, a tenth of a second of silence before it and the tail behind it counted, the transmission
/// ends half a second before the key's limit.
pub proof fn an_identifier_rides_only_where_it_may(m: Modem, now: u64, morse: u64, s: Situation)
    ensures
        identifies(m, now, morse, s) <==> {
            &&& id_due(m, now)
            &&& m.policy.ruling(s, identifier_emission(m.config.cw_id->0.tone, m.session_direction)).verdict != Verdict::Blocked
            &&& morse > 0
            &&& (m.queued + m.config.audio_rate as int / 10 + morse) * 1_000_000 + m.config.key_tail_us
                * m.config.audio_rate <= (m.config.max_key_us - 500_000) * m.config.audio_rate
        },
{
    reveal(identifies);
}

/// So many samples as a time holds: no more than it, and one more would be.
pub proof fn samples_fill_a_time(us: nat, rate: nat)
    ensures
        samples_in(us, rate) * 1_000_000 <= us * rate < (samples_in(us, rate) + 1) * 1_000_000,
{
    reveal(samples_in);
}

/// The silence in front of a transmission and behind it are as long as the keying needs.
pub proof fn the_silences_are_the_keyings(c: StationConfig)
    ensures
        lead_of(c) * 1_000_000 <= c.key_lead_us * c.audio_rate < (lead_of(c) + 1) * 1_000_000,
        tail_of(c) * 1_000_000 <= c.key_tail_us * c.audio_rate < (tail_of(c) + 1) * 1_000_000,
        10 * id_gap(c.audio_rate) <= c.audio_rate < 10 * id_gap(c.audio_rate) + 10,
{
    reveal(samples_in);
}

/// Samples take the time they take, to the microsecond, as far as the clock goes.
pub proof fn time_is_samples_over_rate(samples: nat, rate: nat)
    requires
        rate > 0,
        samples * 1_000_000 < 9_000_000_000_000_000_000 * rate,
    ensures
        time_of(samples, rate) * rate <= samples * 1_000_000 < (time_of(samples, rate) + 1) * rate,
{
    let a = samples * 1_000_000;
    let q = a / rate;
    assert(q * rate <= a < (q + 1) * rate) by (nonlinear_arith)
        requires
            q == a / rate,
            rate > 0,
    ;
    assert(q < 9_000_000_000_000_000_000) by (nonlinear_arith)
        requires
            q * rate <= a,
            a < 9_000_000_000_000_000_000 * rate,
            rate > 0,
    ;
}

/// A burst is laid out whole: the samples the modulator made, the keying's silence before and behind,
/// and the Morse, with its tenth of a second of silence, only where the identifier rides on it; and
/// nothing is laid out of a burst that was not made.
pub proof fn a_burst_is_laid_out_whole(m: Modem, made: Result<u64, Seq<char>>, now: u64, morse: u64, s: Situation)
    requires
        m.pending.len() > 0,
        m.pending[0] is Frames || m.pending[0] is Drive || m.pending[0] is Datagram,
    ensures
        ({
            let l = layout(m, made, now, morse, s);
            &&& made is Err || made == Ok::<u64, Seq<char>>(0) ==> l is None
            &&& made matches Ok(n) ==> (n > 0 ==> (l matches Some(x) && {
                &&& x.burst == n
                &&& x.lead == lead_of(m.config) as u128
                &&& x.tail == tail_of(m.config) as u128
                &&& x.morse > 0 ==> x.morse == morse && x.gap == m.config.audio_rate as int / 10 && m.config.cw_id is Some
                &&& x.morse == 0 ==> x.gap == 0
                &&& x.keep == m.config.record_tx_audio
            }))
        }),
{
    reveal(identifies);
}

/// Where playback stands: there is something to hand over wherever anything is queued; nothing is
/// started before a transmission is over; and that is over once it was cut short, or the card has
/// played as much since the key went down as it was handed since, or has no clock to tell by.
pub proof fn a_transmission_is_over_when_it_has_left(m: Modem)
    requires
        m.clock.wf(),
    ensures
        m.queued > 0 <==> stage_of(m) == Stage::Play,
        m.queued == 0 && !m.transmitting <==> stage_of(m) == Stage::Start,
        m.queued == 0 && m.transmitting ==> (stage_of(m) == Stage::Over <==> {
            ||| m.clock.cut_short
            ||| m.clock.device_played is None
            ||| m.clock.played_at_key is None
            ||| m.clock.handed - m.clock.handed_at_key <= 0
            ||| m.clock.device_played->0 - m.clock.played_at_key->0 >= m.clock.handed - m.clock.handed_at_key
        }),
{
}

/// How far the card has played past the transmission is what it played since the key went down beyond
/// what it was handed since.
pub proof fn past_is_what_was_played_beyond(c: PlaybackClock)
    requires
        c.wf(),
    ensures
        c.device_played is None || c.played_at_key is None <==> c.past() is None,
        c.past() matches Some(n) ==> n >= 0 && (c.device_played->0 - c.played_at_key->0 >= c.handed - c.handed_at_key ==> n == (
        c.device_played->0 - c.played_at_key->0) - (c.handed - c.handed_at_key)) && (n > 0 ==> n == (c.device_played->0
            - c.played_at_key->0) - (c.handed - c.handed_at_key)),
{
}

/// What of a captured block came after the transmission is the same share of it at the receiver's
/// rate, to the nearest sample: all of it at most, none where the card has not got past the end.
pub proof fn what_came_after_is_its_share(past: Option<int>, captured: nat, baseband: nat)
    requires
        past matches Some(p) ==> p >= 0,
    ensures
        ({
            let after = after_transmission(past, captured, baseband);
            let n: int = match past {
                Some(p) => if p < captured { p } else { captured as int },
                None => 0,
            };
            &&& after <= baseband
            &&& n == 0 ==> after == 0
            &&& n > 0 ==> -(captured as int) <= 2 * (after * captured - n * baseband) <= captured
        }),
{
    let n: int = match past {
        Some(p) => if p < captured { p } else { captured as int },
        None => 0,
    };
    if n > 0 {
        let all = (n * baseband) as nat;
        assert(n * baseband >= 0) by (nonlinear_arith)
            requires
                n >= 0,
                baseband >= 0,
        ;
        let q = all / captured;
        let rest = all % captured;
        assert(all == q * captured + rest && rest < captured) by (nonlinear_arith)
            requires
                q == all / captured,
                rest == all % captured,
                captured > 0,
        ;
        assert((q + 1) * captured == q * captured + captured) by (nonlinear_arith);
        assert(n * baseband <= captured * baseband) by (nonlinear_arith)
            requires
                n <= captured,
                baseband >= 0,
        ;
        assert(baseband * captured == captured * baseband) by (nonlinear_arith);
        let up = if 2 * rest >= captured { q + 1 } else { q };
        if up > baseband {
            assert(up * captured >= (baseband + 1) * captured) by (nonlinear_arith)
                requires
                    up >= baseband + 1,
            ;
            assert((baseband + 1) * captured == baseband * captured + captured) by (nonlinear_arith);
        }
    }
}

/// Keying spends the leave, starts the key's clock at that moment, unless it ran already, counts one
/// transmission more, and starts the playback's count anew.
pub proof fn keying_spends_the_leave(m: Modem, now: u64, word: Seq<char>)
    ensures
        ({
            let k = key_down(m, now, word);
            &&& k.leave is None
            &&& k.transmitting
            &&& m.key.since is None && !m.key.tripped ==> k.key.since == Some(now)
            &&& m.key.since is Some ==> k.key.since == m.key.since
            &&& m.stats.transmissions < usize::MAX ==> k.stats.transmissions == m.stats.transmissions + 1
            &&& k.clock.handed_at_key == m.clock.handed
            &&& k.clock.played_at_key == m.clock.device_played
            &&& !k.clock.cut_short
            &&& k.queued == m.queued && k.pending == m.pending
        }),
{
}

/// What is handed over leaves the queue: as much as there is room for, no more than there is, and the
/// clock counts it.
pub proof fn what_is_handed_over_leaves_the_queue(m: Modem, room: u64)
    requires
        m.clock.handed + room <= u64::MAX,
    ensures
        ({
            let h = handed(m, room);
            &&& m.queued - h.queued == h.clock.handed - m.clock.handed
            &&& 0 <= m.queued - h.queued <= room
            &&& h.queued == 0 || m.queued - h.queued == room
            &&& h.clock.handed_at_key == m.clock.handed_at_key
            &&& h.transmitting == m.transmitting && h.pending == m.pending
        }),
{
}

/// Once a transmission is over its peak is the last, the next begins at nothing, and the station's own
/// audio is discounted until the card's lead and half a second more have gone by.
pub proof fn after_a_transmission_the_peak_is_kept(m: Modem, now: u64, peak_mdb: i64, word: Seq<char>)
    requires
        now + m.config.playback_lead_us + 500_000 <= u64::MAX,
    ensures
        ({
            let o = transmission_over(m, now, peak_mdb, word);
            &&& o.tx_peak_last == Some(m.tx_peak_running)
            &&& o.tx_peak_running == 0
            &&& !o.playing_test && !o.transmitting && !o.clock.cut_short
            &&& o.deaf_until == now + m.config.playback_lead_us + 500_000
            &&& o.pending == m.pending && o.stats == m.stats && o.queued == m.queued
        }),
{
}

/// A transmission that is given up, and one the watchdog cuts, leaves nothing behind: nothing queued,
/// nothing waiting, no leave, and the card told to drop what it holds. The watchdog's is counted.
pub proof fn what_is_stopped_leaves_nothing(m: Modem, now: u64)
    ensures
        ({
            let g = given_up(m);
            g.queued == 0 && g.pending.len() == 0 && g.leave is None && g.clock.flush_device && !g.transmitting
                && !g.playing_test && g.stats == m.stats
        }),
        ({
            let t = tripped(m, now);
            &&& t.queued == 0 && t.pending.len() == 0 && t.leave is None && t.clock.flush_device && !t.transmitting
            &&& m.stats.watchdog_trips < usize::MAX ==> t.stats.watchdog_trips == m.stats.watchdog_trips + 1
        }),
{
}

/// The last word of an aborted session waits, key up, for what it would otherwise run into: the rest
/// of the frame on the air, the gap, the other station's control frame of that family, two turns and
/// half a second.
pub proof fn an_abort_waits_for_the_answer(m: Modem, phase: Phase, w: Waits, frame_us: u64, floor: bool)
    requires
        m.transmitting,
        !m.playing_test,
        m.on_air == Some((frame_us, floor)),
        phase != Phase::Idle,
        frame_us + w.burst_gap_us + w.control_us + w.floor_control_us + 2 * w.turnaround_us + 500_000 <= u64::MAX,
    ensures
        ({
            let a = aborted(m, phase, w);
            let control = if floor { w.floor_control_us } else { w.control_us };
            &&& a.pending.len() > 0
            &&& a.pending.last() == Outgoing::Pause(
                (frame_us + w.burst_gap_us + control + 2 * w.turnaround_us + 500_000) as u64,
                None,
            )
            &&& a.queued == 0 && a.leave is None && a.clock.cut_short && a.clock.flush_device
        }),
{
}

proof fn lemma_filter_push(q: Seq<Outgoing>, keep: spec_fn(Outgoing) -> bool)
    requires
        q.len() > 0,
    ensures
        q.filter(keep) == if keep(q.last()) { q.drop_last().filter(keep).push(q.last()) } else { q.drop_last().filter(keep) },
{
    reveal(Seq::filter);
}

/// An abort takes the session's bursts off the queue, and only those: what is left is everything else
/// in its order.
pub proof fn an_abort_takes_only_the_sessions_bursts(q: Seq<Outgoing>)
    ensures
        without_frames(q) == q.filter(|o: Outgoing| !(o is Frames)),
    decreases q.len(),
{
    let keep = |o: Outgoing| !(o is Frames);
    if q.len() == 0 {
        reveal(Seq::filter);
    } else {
        an_abort_takes_only_the_sessions_bursts(q.drop_last());
        lemma_filter_push(q, keep);
    }
}

/// Stopping the operator's tests takes tune tones, drive bursts and the pauses between them off the
/// queue, and only those: bursts, datagrams, identifiers and a keying test stay, in their order.
pub proof fn a_stop_takes_only_the_tests(q: Seq<Outgoing>)
    ensures
        without_tests(q) == q.filter(
            |o: Outgoing|
                match o {
                    Outgoing::Frames(_) => true,
                    Outgoing::Datagram(_, _, _) => true,
                    Outgoing::Identifier => true,
                    Outgoing::Audio(_, _, tone) => !tone,
                    Outgoing::Drive(_) => false,
                    Outgoing::Pause(_, _) => false,
                },
        ),
    decreases q.len(),
{
    let keep = |o: Outgoing|
        match o {
            Outgoing::Frames(_) => true,
            Outgoing::Datagram(_, _, _) => true,
            Outgoing::Identifier => true,
            Outgoing::Audio(_, _, tone) => !tone,
            Outgoing::Drive(_) => false,
            Outgoing::Pause(_, _) => false,
        };
    if q.len() == 0 {
        reveal(Seq::filter);
    } else {
        a_stop_takes_only_the_tests(q.drop_last());
        lemma_filter_push(q, keep);
    }
}

/// A test that is playing is cut with what is queued of it; anything else that is on the air is not.
pub proof fn only_a_test_is_cut_short(m: Modem)
    ensures
        m.playing_test ==> tests_stopped(m).queued == 0 && tests_stopped(m).clock.cut_short && tests_stopped(
            m,
        ).clock.flush_device && !tests_stopped(m).playing_test,
        !m.playing_test ==> tests_stopped(m).queued == m.queued && tests_stopped(m).clock == m.clock,
        tests_stopped(m).transmitting == m.transmitting,
{
}

/// An operator's tests are refused while a session runs or is being set up, and outside what is
/// sensible for them: a keying test from a fifth of a second to five, a tune tone from half a second
/// to ten, one to ten drive bursts of a mode that carries something.
pub proof fn tests_are_kept_within_bounds(m: Modem, phase: Phase, channel: Channel, us: u64, bursts: usize, rungs: Seq<DriveRung>)
    requires
        rungs.len() > 0,
    ensures
        key_test_fault(phase, us) is None <==> phase == Phase::Idle && 200_000 <= us <= 5_000_000,
        tune_fault(m, phase, channel, us) is None <==> phase == Phase::Idle && 500_000 <= us <= 10_000_000 && (
        m.config.wait_for_clear ==> channel.settled && !channel.busy),
        drive_fault(m, phase, channel, bursts, rungs) is None <==> phase == Phase::Idle && 1 <= bursts <= 10 && (
        m.config.wait_for_clear ==> channel.settled && !channel.busy) && rungs[if m.config.max_mode < rungs.len() {
            m.config.max_mode as int
        } else {
            rungs.len() - 1
        }].payload_bytes > 0,
{
}

/// A drive burst is as many frames as fill six seconds, a frame being taken for a tenth of a second at
/// least: one fewer would not.
pub proof fn a_drive_burst_fills_six_seconds(frame_us: u64)
    ensures
        ({
            let n = drive_frames(frame_us);
            let each: int = if frame_us > 100_000 { frame_us as int } else { 100_000 };
            n * each >= 6_000_000 && (n - 1) * each < 6_000_000
        }),
{
    let each: int = if frame_us > 100_000 { frame_us as int } else { 100_000 };
    let n = drive_frames(frame_us);
    let a = 6_000_000 + each - 1;
    assert(n * each <= a < (n + 1) * each) by (nonlinear_arith)
        requires
            n == a / each,
            each > 0,
    ;
    assert((n + 1) * each == n * each + each) by (nonlinear_arith);
    assert((n - 1) * each == n * each - each) by (nonlinear_arith);
}

/// A drive check is its bursts with five seconds between each and the next, and none before or after.
pub proof fn drive_bursts_have_pauses_between(q: Seq<Outgoing>, from: int, bursts: int, index: int, rung: DriveRung, k: int)
    requires
        ends_in_drive(q, from, bursts, index, rung),
        0 <= from,
        1 <= bursts,
        0 <= k < bursts,
    ensures
        q.len() == from + 2 * bursts - 1,
        q[from + 2 * k] is Drive,
        k + 1 < bursts ==> q[from + 2 * k + 1] == Outgoing::Pause(5_000_000, None),
        ({
            let frames = q[from + 2 * k]->Drive_0@;
            &&& frames.len() == drive_frames(rung.frame_us)
            &&& forall|i: int|
                0 <= i < frames.len() ==> (#[trigger] frames[i]).mode == index && frames[i].container == Container::Data
                    && frames[i].payload@.len() == rung.payload_bytes
        }),
{
    let o = q[from + 2 * k];
    assert((from + 2 * k - from) % 2 == 0);
    if k + 1 < bursts {
        let p = q[from + 2 * k + 1];
        assert((from + 2 * k + 1 - from) % 2 == 1);
    }
}

/// The settings that can change under a running station do, each to what it was set to, the key's
/// limit with its watchdog's; and nothing of the traffic changes with them.
pub proof fn settings_change_under_a_station(m: Modem, live: Live)
    ensures
        ({
            let l = lived(m, live);
            &&& l.config.tx_level == live.tx_level && l.config.max_key_us == live.max_key_us && l.key.limit_us
                == live.max_key_us
            &&& l.config.wait_for_clear == live.wait_for_clear && l.config.max_mode == live.max_mode
            &&& l.config.answer_only == live.answer_only && l.config.record_auto == live.record_auto
            &&& l.config.record_notes == live.record_notes && l.config.operator == live.operator
            &&& l.key.since == m.key.since && l.key.tripped == m.key.tripped
            &&& l.pending == m.pending && l.queued == m.queued && l.transmitting == m.transmitting && l.leave == m.leave
            &&& l.config.regulatory == m.config.regulatory && l.config.callsign == m.config.callsign
        }),
{
}

/// A burst is held to what the key leaves it: with the silence before and behind, the identifier, with
/// its tenth of a second, and a second to spare it is the key's limit, or 1.1 seconds where that
/// leaves less.
pub proof fn a_burst_is_held_to_what_the_key_leaves(c: StationConfig, identifier: Option<u64>)
    ensures
        ({
            let id: int = if identifier is Some && c.cw_id is Some {
                (time_of(identifier->0 as nat, c.audio_rate as nat) + 100_000) as int
            } else {
                0
            };
            let left = c.max_key_us - c.key_lead_us - c.key_tail_us - id - 1_000_000;
            burst_limit(c, identifier) == if left > 1_100_000 { left } else { 1_100_000 }
        }),
{
}

/// The fastest rung sent is kept from the session's own data, and from nothing else: no slower than
/// any such frame's, and one of theirs or what was kept before.
pub proof fn the_fastest_rung_sent_is_kept(notes: Notes, frames: Seq<TxFrame>, n: nat, i: int)
    requires
        n <= frames.len(),
        0 <= i < n,
        frames[i].container == Container::Data,
        frames[i].data == Some(DataKind::Data),
    ensures
        notes_after(notes, frames, n).top_rung_sent is Some,
        notes_after(notes, frames, n).top_rung_sent->0 >= frames[i].mode,
    decreases n,
{
    if i < n - 1 {
        the_fastest_rung_sent_is_kept(notes, frames, (n - 1) as nat, i);
    }
}

/// Nothing but a session's data counts for the fastest rung sent, and nothing else of the notes
/// changes by sending.
pub proof fn only_data_counts_as_sent(notes: Notes, frames: Seq<TxFrame>, n: nat)
    requires
        n <= frames.len(),
    ensures
        ({
            let after = notes_after(notes, frames, n);
            &&& after == (Notes { top_rung_sent: after.top_rung_sent, ..notes })
            &&& after.top_rung_sent == notes.top_rung_sent || exists|i: int|
                0 <= i < n && (#[trigger] frames[i]).container == Container::Data && frames[i].data == Some(DataKind::Data)
                    && after.top_rung_sent == Some(frames[i].mode)
        }),
    decreases n,
{
    if n > 0 {
        only_data_counts_as_sent(notes, frames, (n - 1) as nat);
        let before = notes_after(notes, frames, (n - 1) as nat);
        let after = notes_after(notes, frames, n);
        if after.top_rung_sent == before.top_rung_sent {
            if before.top_rung_sent != notes.top_rung_sent {
                let i = choose|i: int|
                    0 <= i < n - 1 && (#[trigger] frames[i]).container == Container::Data && frames[i].data == Some(
                        DataKind::Data,
                    ) && before.top_rung_sent == Some(frames[i].mode);
                assert(frames[i].container == Container::Data);
            }
        } else {
            assert(frames[n - 1].container == Container::Data);
        }
    }
}

/// The key-time watchdog fires exactly when the key has been down for its limit: not before, and at
/// the first look after. It then counts one more, and the key is up.
pub proof fn the_watchdog_fires_at_the_limit(c: KeyClock, now: u64)
    ensures
        ({
            let p = c.after_poll(now);
            let fires = c.since is Some && now >= c.since->0 + c.limit_us;
            &&& fires && c.limit_us > 0 ==> p.since is None && p.tripped && (c.trips < usize::MAX ==> p.trips == c.trips + 1)
            &&& !fires && c.limit_us > 0 ==> p == c
            &&& p.limit_us == c.limit_us
        }),
{
}

/// A callsign goes on the air where it is one to nine characters, each a capital letter, a digit, a
/// dash or a stroke, and only there.
pub proof fn a_callsign_is_what_can_be_carried(call: Seq<char>)
    ensures
        callsign_fault(call) is None <==> 1 <= call.len() <= 9 && forall|i: int|
            0 <= i < call.len() ==> ('A' <= (#[trigger] call[i]) <= 'Z' || '0' <= call[i] <= '9' || call[i] == '-' || call[i]
                == '/'),
{
    if callsign_fault(call) is None {
        assert forall|i: int| 0 <= i < call.len() implies ('A' <= (#[trigger] call[i]) <= 'Z' || '0' <= call[i] <= '9'
            || call[i] == '-' || call[i] == '/') by {
            assert(crate::ptt::callsign_char(call[i]));
        }
    }
    if 1 <= call.len() <= 9 && forall|i: int|
        0 <= i < call.len() ==> ('A' <= (#[trigger] call[i]) <= 'Z' || '0' <= call[i] <= '9' || call[i] == '-' || call[i]
            == '/') {
        assert forall|i: int| 0 <= i < call.len() implies crate::ptt::callsign_char(#[trigger] call[i]) by {}
    }
}

} // verus!
