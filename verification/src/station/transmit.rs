//! What goes out: the regulatory gate every transmission passes, the audio that is queued for it, the key,
//! and the end of a transmission.
//!
//! The whole burst is handed to the sound card as soon as it is rendered; the key is released
//! when the card's own clock has passed the last sample handed over.
use vstd::prelude::*;

use crate::ptt::{Ptt, PttError, WatchdogState};
use crate::record::{sent_tree, Recording, SentRecord, Tape};
use crate::regulatory::{
    ControlMode, Decision, Direction, EmissionKind, Policy, Ruling, Situation, Transmission,
};
use crate::regulatory::occupancy::{Edges, CW_HALF_WIDTH_HZ};
use crate::station::account::{top, Notes};
use crate::station::clock::PlaybackClock;
use crate::station::config::{
    burst_limit, burst_limit_us, count_one, one_more, samples_in, samples_of, StationConfig, StationStats,
    CAPTURE_LAG_US, CLOCK_END_US, ID_LOOKAHEAD_US, KEY_TIME_MARGIN_US,
};
use crate::station::frames::Container;
use crate::station::gate::{
    emission_of, gate_ruling, identifier_emission, judge, logged_with, situation_from, situation_of,
    transmission_of, Bearings, FrequencyCache,
};
use crate::station::queue::{drop_frames, without_frames, DataKind, Outgoing, TxFrame};
use crate::station::{noted_event, said, told, IdentifierState, Link, Modem, Order, Phase, Station};
use crate::text::{cat, tenths, tenths_text};

verus! {

/// What the busy detector says of the channel.
#[derive(Clone, Copy, PartialEq, Eq, Structural, Debug)]
pub struct Channel {
    /// Whether it has learned the noise floor.
    pub settled: bool,
    /// Whether the channel is occupied.
    pub busy: bool,
}

/// Whether it is polite to start transmitting.
///
/// A session already under way answers regardless: the peer is waiting for this
/// acknowledgement, the exchange is what put the energy on the channel in the first place, and
/// staying silent would only make the peer retransmit into the same channel. What the check
/// protects is *starting* something.
pub open spec fn channel_clear(phase: Phase, channel: Channel) -> bool {
    phase == Phase::Session || (channel.settled && !channel.busy)
}

/// Whether it is polite to start transmitting.
pub fn is_clear(phase: Phase, channel: Channel) -> (r: bool)
    ensures
        r == channel_clear(phase, channel),
{
    match phase {
        Phase::Session => true,
        _ => channel.settled && !channel.busy,
    }
}

/// Whether a radio that is asked for its frequency can answer so.
pub open spec fn can_answer<P: Ptt>(radio: P, answer: Option<u64>) -> bool {
    exists|b: &mut P| *b == radio && #[trigger] call_ensures(P::frequency_hz, (b,), answer)
}

/// Whether asking the radio for a display can have left a cache so.
pub open spec fn polled_to<P: Ptt>(m: Modem, radio: P, f: FrequencyCache) -> bool {
    if m.frequency.may_poll(m.now(), m.transmitting) {
        exists|answer: Option<u64>|
            can_answer(radio, answer) && f == #[trigger] m.frequency.polled(m.now(), answer)
    } else {
        f == m.frequency
    }
}

/// Whether asking the radio for the situation can have left a cache so, and the radio can have
/// said whether it is one that tunes: it is asked again before a transmission when the last
/// reading is not fresh, and never while transmitting; otherwise as often as a display asks.
pub open spec fn asked_to<P: Ptt>(m: Modem, radio: P, fresh: bool, can_tune: bool, f: FrequencyCache) -> bool {
    call_ensures(P::can_tune, (&radio,), can_tune) && if !can_tune {
        f == m.frequency
    } else if !fresh {
        polled_to(m, radio, f)
    } else if m.frequency.stale(m.now()) && !m.transmitting {
        exists|answer: Option<u64>|
            can_answer(radio, answer) && f == #[trigger] m.frequency.refreshed(m.now(), answer)
    } else {
        f == m.frequency
    }
}

/// The situation a station is in.
pub open spec fn situation_in(m: Modem, can_tune: bool, f: FrequencyCache) -> Situation {
    situation_of(m.config.regulatory, m.config.operator.power_mw, can_tune, f, m.now())
}

/// What a queued transmission of a station is classed by.
pub open spec fn bearings_of(m: Modem) -> Bearings {
    Bearings {
        bandwidth_hz: m.config.bandwidth_hz,
        session_direction: m.session_direction,
        cw_tone: match m.config.cw_id {
            Some(cw) => Some(cw.tone),
            None => None,
        },
    }
}

/// What the regulatory gate says of the transmission at the head of the queue.
pub open spec fn head_ruling(m: Modem, s: Situation) -> Ruling {
    gate_ruling(m.policy, s, emission_of(m.occupancy, m.pending[0], bearings_of(m)))
}

/// The station once a transmission has leave: it is kept for the keying path, and logged where
/// permitted automatic transmissions are.
pub open spec fn with_leave(m: Modem, d: Ruling, now: u64) -> Modem {
    Modem {
        decisions: if m.config.regulatory.log_permitted && d.control == Some(ControlMode::Automatic) {
            logged_with(m.decisions, d, now)
        } else {
            m.decisions
        },
        last_gate: Some((now, d)),
        leave: Some(d),
        ..m
    }
}

/// The station once the transmission at the head of the queue was refused: it is dropped and
/// reported.
pub open spec fn after_refusal(m: Modem, d: Ruling, now: u64, phase: Phase, word: Seq<char>) -> Modem {
    let dropped = told(Modem { pending: m.pending.drop_first(), leave: None, ..m }, now, "regulatory"@, d.summary, word);
    let logged = Modem { decisions: logged_with(dropped.decisions, d, now), last_gate: Some((now, d)), ..dropped };
    match m.pending[0] {
        Outgoing::Frames(_) => if phase != Phase::Idle {
            noted_event(logged, "regulatory"@, "session halted: its next transmission is not lawful"@, word)
        } else {
            logged
        },
        Outgoing::Identifier => Modem {
            identifier: IdentifierState { final_due: false, ..logged.identifier },
            ..logged
        },
        _ => logged,
    }
}

/// What becomes of a transmission at the regulatory gate.
#[derive(Debug)]
pub enum Gated {
    /// It has leave, and may be rendered.
    Leave,
    /// It is refused, and nothing more follows.
    Refused,
    /// It is refused, and the session it belongs to is over.
    Halted,
    /// A client's datagram is refused: its reference, whether it was its last burst, and why.
    Datagram(Option<String>, bool, String),
}

/// The station once the regulatory gate judged the head of its queue in a situation.
pub open spec fn gated(m: Modem, s: Situation, now: u64, phase: Phase, word: Seq<char>) -> Modem {
    let d = head_ruling(m, s);
    if d.allows() { with_leave(m, d, now) } else { after_refusal(m, d, now, phase, word) }
}

/// Whether the regulatory gate's answer is the right one.
pub open spec fn is_gated(m: Modem, s: Situation, phase: Phase, g: Gated) -> bool {
    let d = head_ruling(m, s);
    if d.allows() {
        g is Leave
    } else {
        match m.pending[0] {
            Outgoing::Frames(_) => if phase != Phase::Idle { g is Halted } else { g is Refused },
            Outgoing::Datagram(_, reference, last) => (g matches Gated::Datagram(r, l, why) && r == reference && l == last
                && why@ == d.summary),
            _ => g is Refused,
        }
    }
}

/// A queue once the pauses at its head that have run out are gone, and the one that has not
/// knows until when it runs.
pub open spec fn past_pauses(q: Seq<Outgoing>, now: u64) -> Seq<Outgoing>
    decreases q.len(),
{
    if q.len() == 0 {
        q
    } else {
        match q[0] {
            Outgoing::Pause(us, until) => {
                let deadline = match until {
                    Some(t) => t,
                    None => crate::station::gate::later(now, us),
                };
                if now < deadline {
                    q.update(0, Outgoing::Pause(us, Some(deadline)))
                } else {
                    past_pauses(q.drop_first(), now)
                }
            },
            _ => q,
        }
    }
}

/// Whether the head of the queue waits for a busy channel.
pub open spec fn holds(m: Modem, phase: Phase, channel: Channel) -> bool {
    m.pending[0].starts_something() && m.config.wait_for_clear && !channel_clear(phase, channel)
}

/// The station once the head of its queue was held back.
pub open spec fn held_back(m: Modem, now: u64) -> Modem {
    Modem {
        stats: StationStats { deferred_for_busy: one_more(m.stats.deferred_for_busy), ..m.stats },
        held_since: Some(now),
        ..m
    }
}

/// Whether a Morse identifier is due by a time.
pub open spec fn id_due(m: Modem, t: u64) -> bool {
    m.config.cw_id is Some && (m.identifier.final_due || match m.identifier.last {
        Some(last) => t - last >= m.config.cw_id_interval_us,
        None => true,
    })
}

/// How fast the identifier is sent: no faster than the rules allow an automatic device.
pub open spec fn id_speed(m: Modem) -> Option<u64> {
    match m.config.cw_id {
        None => None,
        Some(cw) => Some(
            match m.policy {
                Policy::Rules(p) => match p.cw_id {
                    Some(limit) => if limit.max_milli_wpm < cw.milli_wpm { limit.max_milli_wpm } else { cw.milli_wpm },
                    None => cw.milli_wpm,
                },
                _ => cw.milli_wpm,
            },
        ),
    }
}

/// The silence before an identifier, in samples.
pub open spec fn id_gap(rate: u32) -> u64 {
    (rate / 10) as u64
}

/// Whether a transmission with so many samples in it would end too near the key's limit.
pub open spec fn too_long(c: StationConfig, samples: int) -> bool {
    samples * 1_000_000 + c.key_tail_us * c.audio_rate > (c.max_key_us - KEY_TIME_MARGIN_US / 2) * c.audio_rate
}

/// Whether an identifier goes on the end of what is queued: one is due, the rules allow it as
/// the Morse it is, there is anything to send, and it fits the key.
#[verifier::opaque]
pub open spec fn identifies(m: Modem, now: u64, morse: u64, s: Situation) -> bool {
    &&& id_due(m, now)
    &&& m.policy.ruling(s, identifier_emission(m.config.cw_id->0.tone, m.session_direction)).allows()
    &&& morse > 0
    &&& !too_long(m.config, m.queued + id_gap(m.config.audio_rate) + morse)
}

/// The station once an identifier was put at the end of what is queued, if one is due. One that
/// does not fit, or is refused, waits for the next transmission.
#[verifier::opaque]
pub open spec fn identified(m: Modem, now: u64, morse: u64, s: Situation) -> Modem {
    if m.config.cw_id is None {
        m
    } else {
        let owed = Modem { identifier: IdentifierState { transmitted_since: true, ..m.identifier }, ..m };
        let d = m.policy.ruling(s, identifier_emission(m.config.cw_id->0.tone, m.session_direction));
        if !id_due(m, now) {
            owed
        } else if !d.allows() {
            Modem { decisions: logged_with(m.decisions, d, now), ..owed }
        } else if morse == 0 {
            m
        } else if !identifies(m, now, morse, s) {
            owed
        } else {
            Modem {
                queued: (m.queued + id_gap(m.config.audio_rate) + morse) as u128,
                identifier: IdentifierState { last: Some(now), final_due: false, transmitted_since: false },
                stats: StationStats { cw_ids: one_more(m.stats.cw_ids), ..m.stats },
                ..m
            }
        }
    }
}

/// The keying's lead and tail, in samples.
pub open spec fn lead_of(c: StationConfig) -> nat {
    samples_in(c.key_lead_us as nat, c.audio_rate as nat)
}

/// The keying's tail, in samples.
pub open spec fn tail_of(c: StationConfig) -> nat {
    samples_in(c.key_tail_us as nat, c.audio_rate as nat)
}

/// The station with more samples queued.
pub open spec fn with_samples(m: Modem, n: nat) -> Modem {
    Modem { queued: (m.queued + n) as u128, ..m }
}

/// Whether a frame is data of a session.
pub open spec fn session_data(f: TxFrame) -> bool {
    f.container == Container::Data && f.data == Some(DataKind::Data)
}

/// The notes once the first `n` frames of a burst were sent.
pub open spec fn notes_after(notes: Notes, frames: Seq<TxFrame>, n: nat) -> Notes
    decreases n,
{
    if n == 0 {
        notes
    } else {
        let before = notes_after(notes, frames, (n - 1) as nat);
        if session_data(frames[n - 1]) {
            Notes { top_rung_sent: top(before.top_rung_sent, frames[n - 1].mode), ..before }
        } else {
            before
        }
    }
}

/// What the sidecar records of a frame sent at a time.
pub open spec fn sent_record(f: TxFrame, now: u64) -> SentRecord {
    SentRecord {
        t_us: now,
        kind: match f.container {
            Container::Data => "data",
            Container::Control => "control",
        },
        mode: f.mode,
        rv: f.rv,
        floor: f.floor,
        bytes: f.payload@.len() as usize,
    }
}

/// A recording once the first `n` frames of a burst were sent.
pub open spec fn tape_after(t: Tape, frames: Seq<TxFrame>, n: nat, now: u64) -> Tape
    decreases n,
{
    if n == 0 {
        t
    } else {
        let before = tape_after(t, frames, (n - 1) as nat, now);
        Tape { sent: before.sent.push(sent_tree(now - t.t0_us, sent_record(frames[n - 1], now))), ..before }
    }
}

/// The station once a burst of frames was taken for the air.
#[verifier::opaque]
pub open spec fn burst_taken(m: Modem, frames: Seq<TxFrame>, now: u64) -> Modem {
    Modem {
        tape: match m.tape {
            Some(t) => Some(tape_after(t, frames, frames.len(), now)),
            None => None,
        },
        session_notes: match m.session_notes {
            Some(n) => Some(notes_after(n, frames, frames.len())),
            None => None,
        },
        on_air: if frames.len() == 0 {
            None
        } else {
            Some(
                (
                    frames[0].air_us,
                    match frames[0].container {
                        Container::Data => frames[0].floor_rung,
                        Container::Control => frames[0].floor,
                    },
                ),
            )
        },
        ..m
    }
}

/// The station once a burst was rendered: the lead, the burst, an identifier if one is due, and
/// the tail.
#[verifier::opaque]
pub open spec fn burst_queued(m: Modem, samples: u64, now: u64, morse: u64, s: Situation, cuttable: bool) -> Modem {
    let burst = with_samples(m, lead_of(m.config) + samples as nat);
    let whole = identified(burst, now, morse, s);
    Modem { playing_test: cuttable, ..with_samples(whole, tail_of(m.config)) }
}

/// The station once the identifier was rendered on its own.
#[verifier::opaque]
pub open spec fn identifier_queued(m: Modem, now: u64, morse: u64, s: Situation) -> Modem {
    let lead = lead_of(m.config);
    let led = with_samples(Modem { identifier: IdentifierState { final_due: true, ..m.identifier }, ..m }, lead);
    let after = identified(led, now, morse, s);
    if after.queued == lead {
        Modem { queued: 0, identifier: IdentifierState { final_due: false, ..after.identifier }, ..after }
    } else {
        with_samples(after, tail_of(m.config))
    }
}

/// What was made of a transmission, for the audio to be put together: so much silence, the
/// burst, the silence and the Morse where an identifier rides on it, and so much silence.
#[derive(Debug)]
pub struct Rendering {
    /// Silence in front.
    pub lead: u128,
    /// The burst's samples.
    pub burst: u64,
    /// Silence before the identifier; none where none rides on it.
    pub gap: u64,
    /// The identifier's samples; none where none rides on it.
    pub morse: u64,
    /// Silence behind.
    pub tail: u128,
    /// Whether the exact audio is to be kept.
    pub keep: bool,
}

/// What the modulator made of some frames: how many samples, or why it could not.
pub open spec fn made_view(made: Result<u64, String>) -> Result<u64, Seq<char>> {
    match made {
        Ok(n) => Ok(n),
        Err(why) => Err(why@),
    }
}

/// The station once the head of its queue was rendered. `made` is what the modulator made of its
/// frames.
pub open spec fn rendered(m: Modem, made: Result<u64, Seq<char>>, now: u64, morse: u64, s: Situation) -> Modem {
    let rest = Modem { pending: m.pending.drop_first(), ..m };
    match m.pending[0] {
        Outgoing::Pause(_, _) => rest,
        Outgoing::Identifier => identifier_queued(rest, now, morse, s),
        Outgoing::Audio(samples, _, tone) => Modem {
            playing_test: tone,
            ..with_samples(rest, lead_of(m.config) + samples as nat + tail_of(m.config))
        },
        Outgoing::Frames(frames) => frames_rendered(burst_taken(rest, frames@, now), made, now, morse, s, false),
        Outgoing::Drive(frames) => frames_rendered(burst_taken(rest, frames@, now), made, now, morse, s, true),
        Outgoing::Datagram(frames, _, _) => frames_rendered(burst_taken(rest, frames@, now), made, now, morse, s, false),
    }
}

/// Whether an identifier rides on a transmission that has so many samples before it.
pub open spec fn rides(m: Modem, samples: nat, now: u64, morse: u64, s: Situation) -> bool {
    identifies(Modem { queued: samples as u128, ..m }, now, morse, s)
}

/// A transmission laid out: the lead, the burst, the silence and the identifier where one rides
/// on it, and the tail.
pub open spec fn laid(c: StationConfig, burst: u64, morse: u64, keep: bool) -> Rendering {
    Rendering {
        lead: lead_of(c) as u128,
        burst,
        gap: if morse > 0 { id_gap(c.audio_rate) } else { 0 },
        morse,
        tail: tail_of(c) as u128,
        keep,
    }
}

/// How the head of a station's queue is laid out, where there is anything of it to send. An
/// identifier that is sent on its own is its whole transmission; any other rides on the end of a
/// burst.
pub open spec fn layout(m: Modem, made: Result<u64, Seq<char>>, now: u64, morse: u64, s: Situation) -> Option<Rendering> {
    let lead = lead_of(m.config);
    let keep = m.config.record_tx_audio;
    match m.pending[0] {
        Outgoing::Pause(_, _) => None,
        Outgoing::Identifier => {
            let owed = Modem { identifier: IdentifierState { final_due: true, ..m.identifier }, ..m };
            if rides(owed, lead, now, morse, s) { Some(laid(m.config, 0, morse, false)) } else { None }
        },
        Outgoing::Audio(samples, _, _) => Some(laid(m.config, samples, 0, keep)),
        _ => match made {
            Ok(samples) => if samples == 0 {
                None
            } else if rides(m, lead + samples as nat, now, morse, s) {
                Some(laid(m.config, samples, morse, keep))
            } else {
                Some(laid(m.config, samples, 0, keep))
            },
            Err(_) => None,
        },
    }
}

/// The station once its frames were modulated, or could not be.
#[verifier::opaque]
pub open spec fn frames_rendered(
    m: Modem,
    made: Result<u64, Seq<char>>,
    now: u64,
    morse: u64,
    s: Situation,
    cuttable: bool,
) -> Modem {
    match made {
        Err(why) => said(m, "error:cannot modulate frame: "@ + why),
        Ok(samples) => if samples == 0 { m } else { burst_queued(m, samples, now, morse, s, cuttable) },
    }
}

/// Where playback stands.
#[derive(Clone, Copy, PartialEq, Eq, Structural, Debug)]
pub enum Stage {
    /// The transmission is still leaving the sound card.
    Leaving,
    /// The transmission is over.
    Over,
    /// Nothing is queued; the next transmission may be started.
    Start,
    /// There is audio to hand over.
    Play,
}

/// Where playback stands: the transmission that runs is finished before the next is started, or
/// the two would run together with no gap and no release.
pub open spec fn stage_of(m: Modem) -> Stage {
    if m.queued > 0 {
        Stage::Play
    } else if !m.transmitting {
        Stage::Start
    } else if !m.clock.cut_short && !m.clock.reached() {
        Stage::Leaving
    } else {
        Stage::Over
    }
}

/// What is said when audio reaches the transmitter that the regulatory gate has not judged.
pub open spec fn no_leave() -> Seq<char> {
    "error:regulatory: audio reached the transmitter without the "@ + "gate's leave; nothing was keyed"@
}

/// The station as its key goes down.
pub open spec fn key_down(m: Modem, now: u64, word: Seq<char>) -> Modem {
    told(
        Modem {
            leave: None,
            transmitting: true,
            key: m.key.after_key(now, true),
            clock: m.clock.keyed(),
            stats: StationStats { transmissions: one_more(m.stats.transmissions), ..m.stats },
            ..m
        },
        now,
        "ptt"@,
        "keyed"@,
        word,
    )
}

/// The station once samples were handed to the sound card, no more than there is room for.
pub open spec fn handed(m: Modem, room: u64) -> Modem {
    let n: int = if room < m.queued { room as int } else { m.queued as int };
    Modem {
        queued: (m.queued - n) as u128,
        clock: PlaybackClock { handed: (m.clock.handed + n) as u64, ..m.clock },
        ..m
    }
}

/// The station as its transmission ends, the key not yet released.
pub open spec fn ending(m: Modem, now: u64, peak_mdb: i64, word: Seq<char>) -> Modem {
    let over = told(
        Modem {
            clock: PlaybackClock { cut_short: false, ..m.clock },
            transmitting: false,
            playing_test: false,
            tx_peak_last: Some(m.tx_peak_running),
            tx_peak_running: 0,
            ..m
        },
        now,
        "ptt"@,
        "released"@,
        word,
    );
    if m.tx_peak_running > 0 {
        told(over, now, "tx_peak"@, tenths(peak_mdb as int, 100) + " dBFS"@, word)
    } else {
        over
    }
}

/// Until when the busy detector is spared the tail of this station's own burst.
pub open spec fn deaf_after(c: StationConfig, now: u64) -> u64 {
    crate::station::gate::later(crate::station::gate::later(now, c.playback_lead_us), CAPTURE_LAG_US)
}

/// The station once its transmission is over and the key is released.
pub open spec fn transmission_over(m: Modem, now: u64, peak_mdb: i64, word: Seq<char>) -> Modem {
    let over = ending(m, now, peak_mdb, word);
    Modem { key: over.key.after_unkey(), deaf_until: deaf_after(m.config, now), ..over }
}

/// The station once its transmission was given up: what is queued and what the sound card holds
/// are dropped.
pub open spec fn given_up(m: Modem) -> Modem {
    Modem {
        queued: 0,
        leave: None,
        pending: Seq::empty(),
        clock: m.clock.dropped(),
        transmitting: false,
        playing_test: false,
        tx_peak_running: 0,
        key: m.key.after_unkey(),
        ..m
    }
}

/// The station once the key-time watchdog fired: whatever was still queued is dropped rather
/// than resumed in the middle.
pub open spec fn tripped(m: Modem, now: u64) -> Modem {
    Modem {
        stats: StationStats { watchdog_trips: one_more(m.stats.watchdog_trips), ..m.stats },
        queued: 0,
        leave: None,
        pending: Seq::empty(),
        clock: m.clock.dropped(),
        transmitting: false,
        key: m.key.after_poll(now).after_unkey(),
        ..m
    }
}

/// What an abort that cuts a burst has to wait out before its DISC: how long the link leaves
/// between bursts, its control frames of either kind, and its turnaround.
#[derive(Clone, Copy, PartialEq, Eq, Structural, Debug)]
pub struct Waits {
    /// Between bursts.
    pub burst_gap_us: u64,
    /// A control frame.
    pub control_us: u64,
    /// A control frame of the tone floor's.
    pub floor_control_us: u64,
    /// From one direction to the other.
    pub turnaround_us: u64,
}

/// The rest of the frame that was on the air, which the other station's receiver still holds the
/// span of, and the acknowledgement it then sends for the burst.
pub open spec fn disc_wait(w: Waits, frame_us: u64, floor: bool) -> u64 {
    let us = frame_us + w.burst_gap_us + (if floor { w.floor_control_us } else { w.control_us }) + 2 * w.turnaround_us
        + 500_000;
    if us <= u64::MAX { us as u64 } else { u64::MAX }
}

/// The station once its session is closed at once: what is left of a burst goes with it.
pub open spec fn aborted(m: Modem, phase: Phase, w: Waits) -> Modem {
    let rest = without_frames(m.pending);
    if m.transmitting && !m.playing_test {
        Modem {
            queued: 0,
            leave: None,
            clock: m.clock.cut(),
            pending: match m.on_air {
                Some((frame_us, floor)) => if phase != Phase::Idle {
                    rest.push(Outgoing::Pause(disc_wait(w, frame_us, floor), None))
                } else {
                    rest
                },
                None => rest,
            },
            ..m
        }
    } else {
        Modem { pending: rest, ..m }
    }
}

proof fn lemma_burst_queued(
    first: Modem,
    burst: Modem,
    whole: Modem,
    samples: u64,
    now: u64,
    morse: u64,
    s: Situation,
    cuttable: bool,
)
    requires
        burst == with_samples(first, lead_of(first.config) + samples as nat),
        whole == identified(burst, now, morse, s),
    ensures
        burst_queued(first, samples, now, morse, s, cuttable) == (Modem {
            playing_test: cuttable,
            ..with_samples(whole, tail_of(first.config))
        }),
{
    reveal(burst_queued);
}

proof fn lemma_identifier_queued(first: Modem, led: Modem, after: Modem, now: u64, morse: u64, s: Situation)
    requires
        led == with_samples(
            Modem { identifier: IdentifierState { final_due: true, ..first.identifier }, ..first },
            lead_of(first.config),
        ),
        after == identified(led, now, morse, s),
    ensures
        identifier_queued(first, now, morse, s) == (if after.queued == lead_of(first.config) {
            Modem { queued: 0, identifier: IdentifierState { final_due: false, ..after.identifier }, ..after }
        } else {
            with_samples(after, tail_of(first.config))
        }),
{
    reveal(identifier_queued);
}

/// The silence in front of a transmission is far shorter than what can be queued.
pub(crate) proof fn lemma_lead_is_short(c: StationConfig)
    ensures
        lead_of(c) <= u128::MAX / 16,
{
    reveal(samples_in);
    let us = c.key_lead_us as nat;
    let rate = c.audio_rate as nat;
    assert(us * rate <= u64::MAX as nat * (u32::MAX as nat)) by (nonlinear_arith)
        requires
            us <= u64::MAX,
            rate <= u32::MAX,
    ;
}

/// Whether an identifier rides on a transmission is decided by the configuration, the rules, the
/// direction and when the station last identified itself.
pub(crate) proof fn lemma_rides_alike(m: Modem, n: Modem, samples: nat, now: u64, morse: u64, s: Situation)
    requires
        m.config == n.config,
        m.policy == n.policy,
        m.identifier == n.identifier,
        m.session_direction == n.session_direction,
    ensures
        rides(m, samples, now, morse, s) == rides(n, samples, now, morse, s),
{
    reveal(identifies);
}

/// How a transmission is laid out does not depend on the dial that is remembered.
pub(crate) proof fn lemma_layout_alike(
    m: Modem,
    n: Modem,
    made: Result<u64, Seq<char>>,
    now: u64,
    morse: u64,
    s: Situation,
)
    requires
        n == (Modem { frequency: n.frequency, ..m }),
    ensures
        layout(m, made, now, morse, s) == layout(n, made, now, morse, s),
{
    let owed = Modem { identifier: IdentifierState { final_due: true, ..m.identifier }, ..m };
    let still = Modem { identifier: IdentifierState { final_due: true, ..n.identifier }, ..n };
    lemma_rides_alike(owed, still, lead_of(m.config), now, morse, s);
    match made {
        Ok(samples) => lemma_rides_alike(m, n, lead_of(m.config) + samples as nat, now, morse, s),
        Err(_) => {},
    }
}

pub(crate) proof fn lemma_taken_rides_alike(m: Modem, frames: Seq<TxFrame>, samples: nat, now: u64, morse: u64, s: Situation)
    ensures
        rides(burst_taken(m, frames, now), samples, now, morse, s) == rides(m, samples, now, morse, s),
{
    reveal(burst_taken);
    lemma_rides_alike(burst_taken(m, frames, now), m, samples, now, morse, s);
}

/// Whether the transmitter, its leave and the dial of two stations are the same.
pub open spec fn keys_alike(m: Modem, n: Modem) -> bool {
    m.transmitting == n.transmitting && m.leave == n.leave && m.frequency == n.frequency
}

proof fn lemma_identified_keys_alike(m: Modem, now: u64, morse: u64, s: Situation)
    ensures
        keys_alike(identified(m, now, morse, s), m),
{
    reveal(identified);
}

proof fn lemma_frames_keys_alike(
    m: Modem,
    made: Result<u64, Seq<char>>,
    now: u64,
    morse: u64,
    s: Situation,
    cuttable: bool,
)
    ensures
        keys_alike(frames_rendered(m, made, now, morse, s, cuttable), m),
{
    reveal(frames_rendered);
    reveal(burst_queued);
    match made {
        Ok(samples) => lemma_identified_keys_alike(with_samples(m, lead_of(m.config) + samples as nat), now, morse, s),
        Err(_) => {},
    }
}

proof fn lemma_taken_keys_alike(m: Modem, frames: Seq<TxFrame>, now: u64)
    ensures
        keys_alike(burst_taken(m, frames, now), m),
{
    reveal(burst_taken);
}

proof fn lemma_identifier_keys_alike(m: Modem, now: u64, morse: u64, s: Situation)
    ensures
        keys_alike(identifier_queued(m, now, morse, s), m),
{
    reveal(identifier_queued);
    let led = with_samples(
        Modem { identifier: IdentifierState { final_due: true, ..m.identifier }, ..m },
        lead_of(m.config),
    );
    lemma_identified_keys_alike(led, now, morse, s);
}

/// Rendering a transmission neither keys nor gives or takes leave, and asks for no dial.
pub(crate) proof fn lemma_rendered_keys_alike(m: Modem, made: Result<u64, Seq<char>>, now: u64, morse: u64, s: Situation)
    ensures
        keys_alike(rendered(m, made, now, morse, s), m),
{
    let rest = Modem { pending: m.pending.drop_first(), ..m };
    match m.pending[0] {
        Outgoing::Pause(_, _) => {},
        Outgoing::Identifier => lemma_identifier_keys_alike(rest, now, morse, s),
        Outgoing::Audio(_, _, _) => {},
        Outgoing::Frames(frames) => {
            lemma_taken_keys_alike(rest, frames@, now);
            lemma_frames_keys_alike(burst_taken(rest, frames@, now), made, now, morse, s, false);
        },
        Outgoing::Drive(frames) => {
            lemma_taken_keys_alike(rest, frames@, now);
            lemma_frames_keys_alike(burst_taken(rest, frames@, now), made, now, morse, s, true);
        },
        Outgoing::Datagram(frames, _, _) => {
            lemma_taken_keys_alike(rest, frames@, now);
            lemma_frames_keys_alike(burst_taken(rest, frames@, now), made, now, morse, s, false);
        },
    }
}

fn sent_all(notes: &mut crate::station::account::SessionNotes, frames: &Vec<TxFrame>)
    ensures
        final(notes)@ == notes_after(old(notes)@, frames@, frames@.len()),
{
    let mut i: usize = 0;
    let ghost before = notes@;
    while i < frames.len()
        invariant
            i <= frames.len(),
            notes@ == notes_after(before, frames@, i as nat),
        decreases frames.len() - i,
    {
        let data: bool = match (frames[i].container, frames[i].data) {
            (Container::Data, Some(DataKind::Data)) => true,
            _ => false,
        };
        if data {
            notes.sent(frames[i].mode);
        }
        i += 1;
    }
}

fn record_all(tape: &mut Recording, frames: &Vec<TxFrame>, now: u64)
    ensures
        final(tape)@ == tape_after(old(tape)@, frames@, frames@.len(), now),
        final(tape)@ == (Tape { sent: final(tape)@.sent, ..old(tape)@ }),
{
    let mut i: usize = 0;
    let ghost before = tape@;
    while i < frames.len()
        invariant
            i <= frames.len(),
            tape@ == tape_after(before, frames@, i as nat, now),
            tape@ == (Tape { sent: tape@.sent, ..before }),
        decreases frames.len() - i,
    {
        let f = &frames[i];
        tape.sent(
            SentRecord {
                t_us: now,
                kind: match f.container {
                    Container::Data => "data",
                    Container::Control => "control",
                },
                mode: f.mode,
                rv: f.rv,
                floor: f.floor,
                bytes: f.payload.len(),
            },
        );
        i += 1;
    }
}

impl<P: Ptt> Station<P> {
    /// The dial frequency, when the keying interface can ask the radio.
    ///
    /// Asked at most every ten seconds (every minute after the radio did not answer), and never
    /// while transmitting, so a display that polls does not turn into a stream of CAT traffic;
    /// a station keyed by a serial line has no answer at all.
    pub fn frequency_hz(&mut self) -> (r: Option<u64>)
        requires
            old(self).wf(),
        ensures
            final(self).wf(),
            final(self)@ == (Modem { frequency: final(self)@.frequency, ..old(self)@ }),
            polled_to(old(self)@, old(self).radio(), final(self)@.frequency),
            if old(self)@.frequency.may_poll(old(self)@.now(), old(self)@.transmitting) {
                exists|b: &mut P, answer: Option<u64>|
                    *b == old(self).radio() && *final(b) == final(self).radio() && #[trigger] call_ensures(
                        P::frequency_hz,
                        (b,),
                        answer,
                    ) && final(self)@.frequency == old(self)@.frequency.polled(old(self)@.now(), answer)
            } else {
                final(self).radio() == old(self).radio()
            },
            r == final(self)@.frequency.value,
    {
        let now: u64 = self.now();
        if self.transmitting || now < self.frequency.next_ask_us {
            return self.frequency.value;
        }
        let answer: Option<u64> = self.ptt.inner_mut().frequency_hz();
        proof {
            assert(can_answer(old(self).radio(), answer));
            assert(self.frequency.polled(now, answer) == self.frequency.polled(now, answer));
        }
        self.frequency = self.frequency.poll(now, answer);
        self.frequency.value
    }

    /// The situation the rules judge. The dial is the radio's when it can report it, asked again
    /// first when `fresh` and the last reading is older than it may be, and only while not
    /// transmitting; or the dial the operator entered; unknown otherwise.
    pub fn situation(&mut self, fresh: bool) -> (r: Situation)
        requires
            old(self).wf(),
        ensures
            final(self).wf(),
            final(self).radio() == old(self).radio() || exists|b: &mut P, answer: Option<u64>|
                *b == old(self).radio() && *final(b) == final(self).radio() && #[trigger] call_ensures(
                    P::frequency_hz,
                    (b,),
                    answer,
                ),
            final(self)@ == (Modem { frequency: final(self)@.frequency, ..old(self)@ }),
            exists|can_tune: bool|
                asked_to(old(self)@, old(self).radio(), fresh, can_tune, final(self)@.frequency) && r == #[trigger] situation_in(
                    old(self)@,
                    can_tune,
                    final(self)@.frequency,
                ),
    {
        let now: u64 = self.now();
        let can_tune: bool = self.ptt.can_tune();
        if can_tune {
            let stale: bool = match self.frequency.read_at_us {
                Some(t) => now > t && now - t > crate::station::gate::DIAL_FRESH_US,
                None => true,
            };
            if !fresh {
                let _ = self.frequency_hz();
            } else if stale && !self.transmitting {
                let answer: Option<u64> = self.ptt.inner_mut().frequency_hz();
                proof {
                    assert(can_answer(old(self).radio(), answer));
                    assert(self.frequency.refreshed(now, answer) == self.frequency.refreshed(now, answer));
                }
                self.frequency = self.frequency.refresh(now, answer);
            }
        }
        let r = situation_from(&self.config.regulatory, self.config.operator.power_mw, can_tune, self.frequency, now);
        proof {
            assert(r == situation_in(old(self)@, can_tune, self@.frequency));
        }
        r
    }

    /// Judge the transmission at the head of the queue in a situation. With leave, it is kept
    /// for the keying path and the transmission may be rendered; without, the transmission is
    /// dropped and the refusal reported, and when it was a session's, the session is over.
    pub fn gate_in(&mut self, s: &Situation, now: u64, link: &Link) -> (r: Gated)
        requires
            old(self).wf(),
            old(self)@.pending.len() > 0,
            now <= CLOCK_END_US,
        ensures
            final(self).wf(),
            final(self).radio() == old(self).radio(),
            final(self)@ == gated(old(self)@, *s, now, link.phase, link.word@),
            is_gated(old(self)@, *s, link.phase, r),
    {
        let b = Bearings {
            bandwidth_hz: self.config.bandwidth_hz,
            session_direction: self.session_direction,
            cw_tone: match self.config.cw_id {
                Some(cw) => Some(cw.tone),
                None => None,
            },
        };
        let judged = transmission_of(&self.occupancy, &self.pending[0], &b);
        match judge(&self.policy, s, judged) {
            Ok(leave) => {
                let log: bool = match leave.decision().control {
                    Some(ControlMode::Automatic) => self.config.regulatory.log_permitted,
                    _ => false,
                };
                if log {
                    self.decisions.report(leave.decision(), now);
                }
                self.last_gate = Some((now, leave.decision().clone()));
                self.authorized = Some(leave);
                Gated::Leave
            },
            Err(decision) => self.refuse(*decision, now, link),
        }
    }

    /// A transmission the rules refuse: it is dropped, reported, and when it was a session's the
    /// session is over. Its DISC is judged like anything else and goes only if it may.
    fn refuse(&mut self, decision: Decision, now: u64, link: &Link) -> (r: Gated)
        requires
            old(self).wf(),
            old(self)@.pending.len() > 0,
            now <= CLOCK_END_US,
        ensures
            final(self).wf(),
            final(self).radio() == old(self).radio(),
            final(self)@ == after_refusal(old(self)@, decision@, now, link.phase, link.word@),
            match old(self)@.pending[0] {
                Outgoing::Frames(_) => if link.phase != Phase::Idle { r is Halted } else { r is Refused },
                Outgoing::Datagram(_, reference, last) => (r matches Gated::Datagram(x, l, why) && x == reference && l == last
                    && why@ == decision@.summary),
                _ => r is Refused,
            },
    {
        let ghost before = self.pending@;
        let outgoing = self.pending.remove(0);
        proof {
            assert(self.pending@ =~= before.drop_first());
        }
        let why = decision.summary.clone();
        self.authorized = None;
        self.tell(now, "regulatory", &decision.summary, &link.word);
        self.decisions.report(&decision, now);
        self.last_gate = Some((now, decision));
        match outgoing {
            Outgoing::Frames(_) => match link.phase {
                Phase::Idle => Gated::Refused,
                _ => {
                    self.note("regulatory", "session halted: its next transmission is not lawful", &link.word);
                    Gated::Halted
                },
            },
            Outgoing::Identifier => {
                self.identifier.final_due = false;
                Gated::Refused
            },
            Outgoing::Datagram(_, reference, last) => Gated::Datagram(reference, last, why),
            _ => Gated::Refused,
        }
    }

    /// Judge the transmission at the head of the queue, the radio asked for its dial first where
    /// the last reading is old.
    pub fn gate(&mut self, now: u64, link: &Link) -> (r: Gated)
        requires
            old(self).wf(),
            old(self)@.pending.len() > 0,
            now <= CLOCK_END_US,
        ensures
            final(self).wf(),
            final(self).radio() == old(self).radio() || exists|b: &mut P, answer: Option<u64>|
                *b == old(self).radio() && *final(b) == final(self).radio() && #[trigger] call_ensures(
                    P::frequency_hz,
                    (b,),
                    answer,
                ),
            exists|can_tune: bool, f: FrequencyCache|
                asked_to(old(self)@, old(self).radio(), true, can_tune, f) && final(self)@ == gated(
                    Modem { frequency: f, ..old(self)@ },
                    #[trigger] situation_in(old(self)@, can_tune, f),
                    now,
                    link.phase,
                    link.word@,
                ) && is_gated(Modem { frequency: f, ..old(self)@ }, situation_in(old(self)@, can_tune, f), link.phase, r),
    {
        let s = self.situation(true);
        self.gate_in(&s, now, link)
    }

    /// Pass the pauses at the head of the queue that have run out; says whether one still runs.
    pub fn pass_pauses(&mut self, now: u64) -> (r: bool)
        requires
            old(self).wf(),
        ensures
            final(self).wf(),
            final(self).radio() == old(self).radio(),
            final(self)@ == (Modem { pending: past_pauses(old(self)@.pending, now), ..old(self)@ }),
            r == (final(self)@.pending.len() > 0 && final(self)@.pending[0] is Pause),
    {
        let ghost goal = past_pauses(self.pending@, now);
        let ghost first = self@;
        while self.pending.len() > 0
            invariant
                self.wf(),
                self.radio() == old(self).radio(),
                goal == past_pauses(self.pending@, now),
                self@ == (Modem { pending: self.pending@, ..first }),
                first == old(self)@,
                goal == past_pauses(old(self)@.pending, now),
            decreases self.pending.len(),
        {
            let ghost q = self.pending@;
            let (us, until): (u64, Option<u64>) = match &self.pending[0] {
                Outgoing::Pause(us, until) => (*us, *until),
                _ => return false,
            };
            let deadline: u64 = match until {
                Some(t) => t,
                None => if us <= u64::MAX - now { now + us } else { u64::MAX },
            };
            if now < deadline {
                self.pending.set(0, Outgoing::Pause(us, Some(deadline)));
                proof {
                    assert(self.pending@ =~= goal);
                }
                return true;
            }
            let _ = self.pending.remove(0);
            proof {
                assert(self.pending@ =~= q.drop_first());
            }
        }
        false
    }

    /// Whether the transmission at the head of the queue waits for a busy channel (a
    /// transmission this station starts, when the operator asked to wait for a clear one), and
    /// what the engine is told: its timers move with the burst, or a retry fires against a burst
    /// that has not left yet.
    pub fn held_for_busy(&mut self, now: u64, phase: Phase, channel: Channel) -> (r: (bool, Option<Order>))
        requires
            old(self).wf(),
            old(self)@.pending.len() > 0,
        ensures
            final(self).wf(),
            final(self).radio() == old(self).radio(),
            r.0 == holds(old(self)@, phase, channel),
            final(self)@ == (if r.0 { held_back(old(self)@, now) } else { Modem { held_since: None, ..old(self)@ } }),
            match old(self)@.held_since {
                Some(since) => if r.0 {
                    r.1 == Some(Order::TxDelayed(if now > since { (now - since) as u64 } else { 0 }))
                } else {
                    r.1 is None
                },
                None => r.1 is None,
            },
    {
        let starts: bool = self.pending[0].waits_for_clear();
        if starts && self.config.wait_for_clear && !is_clear(phase, channel) {
            self.stats.deferred_for_busy = count_one(self.stats.deferred_for_busy);
            let order: Option<Order> = match self.held_since {
                Some(since) => Some(Order::TxDelayed(if now > since { now - since } else { 0 })),
                None => None,
            };
            self.held_since = Some(now);
            return (true, order);
        }
        self.held_since = None;
        (false, None)
    }

    /// Whether a Morse identifier will be due by station time `t`.
    pub fn id_due_by(&self, t: u64) -> (r: bool)
        ensures
            r == id_due(self@, t),
    {
        self.config.cw_id.is_some() && (self.identifier.final_due || match self.identifier.last {
            Some(last) => t >= last && t - last >= self.config.cw_id_interval_us,
            None => true,
        })
    }

    /// How fast the identifier is sent, thousandths of a word per minute: no faster than the
    /// rules allow an identifier keyed by an automatic device.
    pub fn identifier_speed(&self) -> (r: Option<u64>)
        ensures
            r == id_speed(self@),
    {
        match self.config.cw_id {
            None => None,
            Some(cw) => match self.policy.cw_id_max_milli_wpm() {
                Some(limit) => Some(if limit < cw.milli_wpm { limit } else { cw.milli_wpm }),
                None => Some(cw.milli_wpm),
            },
        }
    }

    /// Size the engine's bursts to the key: with room for the identifier, of so many samples,
    /// when it falls due within the minute, without it otherwise. An explicit limit of the
    /// operator's stands.
    pub fn refresh_burst_cap(&self, now: u64, morse: u64) -> (r: Option<Order>)
        requires
            self.wf(),
        ensures
            match self@.config.max_burst_us {
                Some(_) => r is None,
                None => r == Some(
                    Order::SetMaxBurst(
                        burst_limit(
                            self@.config,
                            if id_due(self@, crate::station::gate::later(now, ID_LOOKAHEAD_US)) { Some(morse) } else { None },
                        ) as u64,
                    ),
                ),
            },
    {
        if self.config.max_burst_us.is_some() {
            return None;
        }
        let by: u64 = if now <= u64::MAX - ID_LOOKAHEAD_US { now + ID_LOOKAHEAD_US } else { u64::MAX };
        let with_id: Option<u64> = if self.id_due_by(by) { Some(morse) } else { None };
        Some(Order::SetMaxBurst(burst_limit_us(&self.config, with_id)))
    }

    /// Put a Morse identifier of so many samples at the end of what is queued, if one is due.
    /// Says whether it did.
    ///
    /// It goes inside the same keying, after the data and before the tail, which is what an
    /// identifier is: part of the transmission it identifies. It is judged as the Morse it is.
    pub fn append_cw_id(&mut self, now: u64, morse: u64, s: &Situation) -> (r: bool)
        requires
            old(self).wf(),
            old(self)@.queued <= u128::MAX / 4,
        ensures
            final(self).wf(),
            final(self).radio() == old(self).radio(),
            final(self)@ == identified(old(self)@, now, morse, *s),
            r == identifies(old(self)@, now, morse, *s),
            r ==> morse > 0,
            final(self)@.queued == old(self)@.queued + (if r { id_gap(old(self)@.config.audio_rate) + morse } else { 0 }),
            final(self)@.config == old(self)@.config,
    {
        proof {
            reveal(identified);
            reveal(identifies);
        }
        let cw = match self.config.cw_id {
            Some(cw) => cw,
            None => return false,
        };
        if !self.id_due_by(now) {
            self.identifier.transmitted_since = true;
            return false;
        }
        let identifier = Transmission {
            what: "the Morse identifier".to_owned(),
            kind: EmissionKind::Cw,
            audio: Edges::tone(cw.tone, CW_HALF_WIDTH_HZ),
            direction: match self.session_direction {
                Some(d) => d,
                None => Direction::Originate,
            },
        };
        let decision = self.policy.evaluate(s, &identifier);
        if !decision.allowed() {
            self.identifier.transmitted_since = true;
            self.decisions.report(&decision, now);
            return false;
        }
        if morse == 0 {
            return false;
        }
        let gap: u64 = (self.config.audio_rate / 10) as u64;
        if self.is_too_long(self.queued + gap as u128 + morse as u128) {
            self.identifier.transmitted_since = true;
            return false;
        }
        self.queued = self.queued + gap as u128 + morse as u128;
        self.identifier = IdentifierState { last: Some(now), final_due: false, transmitted_since: false };
        self.stats.cw_ids = count_one(self.stats.cw_ids);
        true
    }

    fn is_too_long(&self, samples: u128) -> (r: bool)
        requires
            self.wf(),
            samples <= u128::MAX / 2,
        ensures
            r == too_long(self@.config, samples as int),
    {
        let rate: i128 = self.config.audio_rate as i128;
        let tail: i128 = self.config.key_tail_us as i128;
        let most: i128 = self.config.max_key_us as i128 - (KEY_TIME_MARGIN_US / 2) as i128;
        proof {
            assert(0 <= tail * rate <= u64::MAX * u32::MAX) by (nonlinear_arith)
                requires
                    0 <= tail <= u64::MAX,
                    0 <= rate <= u32::MAX,
            ;
            assert(-500_000 * u32::MAX <= most * rate <= u64::MAX * u32::MAX) by (nonlinear_arith)
                requires
                    -500_000 <= most <= u64::MAX,
                    0 <= rate <= u32::MAX,
            ;
        }
        let left: i128 = most * rate - tail * rate;
        if left < 0 {
            return true;
        }
        samples > (left / 1_000_000) as u128
    }

    /// Take the transmission at the head of the queue (judged and allowed) and render it in a
    /// situation. `made` is how many samples the modulator made of its frames, `morse` how many
    /// the identifier has.
    pub fn render_in(&mut self, made: Result<u64, String>, now: u64, morse: u64, s: &Situation) -> (r: Option<Rendering>)
        requires
            old(self).wf(),
            old(self)@.pending.len() > 0,
            old(self)@.queued == 0,
        ensures
            final(self).wf(),
            final(self).radio() == old(self).radio(),
            final(self)@ == rendered(
                old(self)@,
                made_view(made),
                now,
                morse,
                *s,
            ),
            r == layout(old(self)@, made_view(made), now, morse, *s),
            match r {
                Some(x) => {
                    &&& final(self)@.queued == x.lead + x.burst + x.gap + x.morse + x.tail
                    &&& x.lead == lead_of(old(self)@.config)
                    &&& x.tail == tail_of(old(self)@.config)
                },
                None => final(self)@.queued == 0,
            },
    {
        let ghost before = self.pending@;
        let ghost first = self@;
        let outgoing = self.pending.remove(0);
        proof {
            assert(self.pending@ =~= before.drop_first());
            assert forall|n: nat| rides(self@, n, now, morse, *s) == #[trigger] rides(first, n, now, morse, *s) by {
                lemma_rides_alike(self@, first, n, now, morse, *s);
            }
            if first.pending[0] is Identifier {
                let owed = Modem { identifier: IdentifierState { final_due: true, ..first.identifier }, ..first };
                let rest = Modem { identifier: IdentifierState { final_due: true, ..first.identifier }, ..self@ };
                lemma_rides_alike(rest, owed, lead_of(first.config), now, morse, *s);
            }
        }
        let lead: u128 = samples_of(self.config.key_lead_us, self.config.audio_rate);
        let tail: u128 = samples_of(self.config.key_tail_us, self.config.audio_rate);
        let keep: bool = self.config.record_tx_audio;
        match outgoing {
            Outgoing::Pause(_, _) => None,
            Outgoing::Identifier => self.queue_identifier(now, morse, s),
            Outgoing::Audio(samples, _, tone) => {
                self.queued = lead + samples as u128 + tail;
                self.playing_test = tone;
                Some(Rendering { lead, burst: samples, gap: 0, morse: 0, tail, keep })
            },
            Outgoing::Frames(frames) => self.render_frames(frames, made, now, morse, s, false),
            Outgoing::Drive(frames) => self.render_frames(frames, made, now, morse, s, true),
            Outgoing::Datagram(frames, _, _) => self.render_frames(frames, made, now, morse, s, false),
        }
    }

    fn render_frames(
        &mut self,
        frames: Vec<TxFrame>,
        made: Result<u64, String>,
        now: u64,
        morse: u64,
        s: &Situation,
        cuttable: bool,
    ) -> (r: Option<Rendering>)
        requires
            old(self).wf(),
            old(self)@.queued == 0,
        ensures
            final(self).wf(),
            final(self).radio() == old(self).radio(),
            final(self)@ == frames_rendered(
                burst_taken(old(self)@, frames@, now),
                made_view(made),
                now,
                morse,
                *s,
                cuttable,
            ),
            match r {
                Some(x) => final(self)@.queued == x.lead + x.burst + x.gap + x.morse + x.tail && (made matches Ok(n)
                    && n > 0 && x == laid(
                    old(self)@.config,
                    n,
                    if rides(old(self)@, lead_of(old(self)@.config) + n as nat, now, morse, *s) { morse } else { 0 },
                    old(self)@.config.record_tx_audio,
                )),
                None => final(self)@.queued == 0 && !(made matches Ok(n) && n > 0),
            },
    {
        let ghost first = self@;
        self.take_burst(&frames, now);
        proof {
            reveal(frames_rendered);
            assert forall|n: nat| rides(self@, n, now, morse, *s) == #[trigger] rides(first, n, now, morse, *s) by {
                lemma_taken_rides_alike(first, frames@, n, now, morse, *s);
            }
        }
        let samples: u64 = match made {
            Ok(n) => n,
            Err(why) => {
                let line = cat("error:cannot modulate frame: ", &why);
                self.say(line);
                return None;
            },
        };
        if samples == 0 {
            return None;
        }
        Some(self.queue_burst(samples, now, morse, s, cuttable))
    }

    /// Take a burst for the air: it is recorded beside what is heard, counted for the session's
    /// notes, and remembered while it is on the air.
    fn take_burst(&mut self, frames: &Vec<TxFrame>, now: u64)
        requires
            old(self).wf(),
        ensures
            final(self).wf(),
            final(self).radio() == old(self).radio(),
            final(self)@ == burst_taken(old(self)@, frames@, now),
            final(self)@.queued == old(self)@.queued,
            final(self)@.config == old(self)@.config,
    {
        proof {
            reveal(burst_taken);
        }
        match &mut self.session_notes {
            Some(notes) => sent_all(notes, frames),
            None => {},
        }
        match &mut self.recording {
            Some(t) => record_all(t, frames, now),
            None => {},
        }
        self.on_air = if frames.len() == 0 {
            None
        } else {
            Some(
                (
                    frames[0].air_us,
                    match frames[0].container {
                        Container::Data => frames[0].floor_rung,
                        Container::Control => frames[0].floor,
                    },
                ),
            )
        };
    }

    fn queue_burst(&mut self, samples: u64, now: u64, morse: u64, s: &Situation, cuttable: bool) -> (r: Rendering)
        requires
            old(self).wf(),
            old(self)@.queued == 0,
        ensures
            final(self).wf(),
            final(self).radio() == old(self).radio(),
            final(self)@ == burst_queued(old(self)@, samples, now, morse, *s, cuttable),
            final(self)@.queued == r.lead + r.burst + r.gap + r.morse + r.tail,
            r == laid(
                old(self)@.config,
                samples,
                if rides(old(self)@, lead_of(old(self)@.config) + samples as nat, now, morse, *s) { morse } else { 0 },
                old(self)@.config.record_tx_audio,
            ),
    {
        let (lead, tail, gap): (u128, u128, u64) = self.silences();
        let keep: bool = self.keeps_audio();
        let ghost first = self@;
        self.queue_to(lead + samples as u128);
        let ghost burst = self@;
        proof {
            assert(burst == with_samples(first, lead_of(first.config) + samples as nat));
        }
        let on: bool = self.append_cw_id(now, morse, s);
        let ghost whole = self@;
        let n: u128 = self.queued();
        self.queue_to(n + tail);
        proof {
            assert(self@ == with_samples(whole, tail_of(first.config)));
        }
        self.mark_test(cuttable);
        proof {
            lemma_burst_queued(first, burst, whole, samples, now, morse, *s, cuttable);
        }
        Rendering {
            lead,
            burst: samples,
            gap: if on { gap } else { 0 },
            morse: if on { morse } else { 0 },
            tail,
            keep,
        }
    }

    fn silences(&self) -> (r: (u128, u128, u64))
        ensures
            r.0 == lead_of(self@.config),
            r.1 == tail_of(self@.config),
            r.2 == id_gap(self@.config.audio_rate),
            r.0 <= u128::MAX / 16,
            r.1 <= u128::MAX / 16,
    {
        (
            samples_of(self.config.key_lead_us, self.config.audio_rate),
            samples_of(self.config.key_tail_us, self.config.audio_rate),
            (self.config.audio_rate / 10) as u64,
        )
    }

    fn keeps_audio(&self) -> (r: bool)
        ensures
            r == self@.config.record_tx_audio,
    {
        self.config.record_tx_audio
    }

    fn queue_to(&mut self, n: u128)
        requires
            old(self).wf(),
        ensures
            final(self).wf(),
            final(self).radio() == old(self).radio(),
            final(self)@ == (Modem { queued: n, ..old(self)@ }),
    {
        self.queued = n;
    }

    fn mark_test(&mut self, test: bool)
        requires
            old(self).wf(),
        ensures
            final(self).wf(),
            final(self).radio() == old(self).radio(),
            final(self)@ == (Modem { playing_test: test, ..old(self)@ }),
    {
        self.playing_test = test;
    }

    fn owe_identifier(&mut self, due: bool)
        requires
            old(self).wf(),
        ensures
            final(self).wf(),
            final(self).radio() == old(self).radio(),
            final(self)@ == (Modem {
                identifier: IdentifierState { final_due: due, ..old(self)@.identifier },
                ..old(self)@
            }),
    {
        self.identifier.final_due = due;
    }

    fn queue_identifier(&mut self, now: u64, morse: u64, s: &Situation) -> (r: Option<Rendering>)
        requires
            old(self).wf(),
            old(self)@.queued == 0,
        ensures
            final(self).wf(),
            final(self).radio() == old(self).radio(),
            final(self)@ == identifier_queued(old(self)@, now, morse, *s),
            ({
                let m = old(self)@;
                let owed = Modem { identifier: IdentifierState { final_due: true, ..m.identifier }, ..m };
                r == if rides(owed, lead_of(m.config), now, morse, *s) {
                    Some(laid(m.config, 0, morse, false))
                } else {
                    None
                }
            }),
            match r {
                Some(x) => final(self)@.queued == x.lead + x.gap + x.morse + x.tail,
                None => final(self)@.queued == 0,
            },
    {
        let (lead, tail, gap): (u128, u128, u64) = self.silences();
        let ghost first = self@;
        self.owe_identifier(true);
        self.queue_to(lead);
        let ghost led = self@;
        proof {
            assert(led == with_samples(
                Modem { identifier: IdentifierState { final_due: true, ..first.identifier }, ..first },
                lead_of(first.config),
            ));
        }
        let on: bool = self.append_cw_id(now, morse, s);
        let ghost after = self@;
        proof {
            lemma_identifier_queued(first, led, after, now, morse, *s);
        }
        if !on {
            self.queue_to(0);
            self.owe_identifier(false);
            return None;
        }
        let n: u128 = self.queued();
        self.queue_to(n + tail);
        Some(Rendering { lead, burst: 0, gap, morse, tail, keep: false })
    }

    /// The transmission at the head of the queue.
    pub fn next(&self) -> (r: Option<&Outgoing>)
        ensures
            match r {
                Some(o) => self@.pending.len() > 0 && *o == self@.pending[0],
                None => self@.pending.len() == 0,
            },
    {
        if self.pending.len() == 0 { None } else { Some(&self.pending[0]) }
    }

    /// Where playback stands.
    pub fn stage(&self) -> (r: Stage)
        requires
            self.wf(),
        ensures
            r == stage_of(self@),
    {
        if self.queued > 0 {
            Stage::Play
        } else if !self.transmitting {
            Stage::Start
        } else if !self.clock.cut_short && !self.clock.caught_up() {
            Stage::Leaving
        } else {
            Stage::Over
        }
    }

    /// Hand queued samples to the sound card, no more than there is room for, keying the radio
    /// first where it is not. Says how many. Nothing the regulatory gate has not judged is keyed: leave is
    /// made only by the policy, and spent here. An error if the radio refuses to key.
    pub fn hand_over(&mut self, room: u64, now: u64, word: &str) -> (r: Result<u64, PttError>)
        requires
            old(self).wf(),
            old(self)@.clock.handed + room <= u64::MAX,
            now <= CLOCK_END_US,
        ensures
            final(self).wf(),
            if old(self)@.transmitting || old(self)@.leave is None {
                r is Ok && final(self).radio() == old(self).radio()
            } else if old(self)@.key.tripped {
                (r matches Err(e) && e is WatchdogTripped) && final(self).radio() == old(self).radio()
            } else if old(self)@.key.since is Some {
                r is Ok && final(self).radio() == old(self).radio()
            } else {
                exists|b: &mut P, u: Result<(), PttError>|
                    {
                        &&& *b == old(self).radio()
                        &&& *final(b) == final(self).radio()
                        &&& #[trigger] call_ensures(P::key, (b,), u)
                        &&& match u {
                            Ok(_) => r is Ok,
                            Err(e) => r == Err::<u64, PttError>(e),
                        }
                    }
            },
            match r {
                Ok(n) => if old(self)@.transmitting {
                    final(self)@ == handed(old(self)@, room) && n == old(self)@.queued - final(self)@.queued
                } else if old(self)@.leave is None {
                    final(self)@ == said(Modem { queued: 0, ..old(self)@ }, no_leave()) && n == 0
                } else {
                    final(self)@ == handed(key_down(old(self)@, now, word@), room) && n == old(self)@.queued
                        - final(self)@.queued
                },
                Err(_) => !old(self)@.transmitting && old(self)@.leave is Some && final(self)@ == (Modem {
                    leave: None,
                    ..old(self)@
                }),
            },
    {
        if !self.transmitting {
            if self.authorized.is_none() {
                self.queued = 0;
                let line = cat(
                    "error:regulatory: audio reached the transmitter without the ",
                    "gate's leave; nothing was keyed",
                );
                self.say(line);
                return Ok(0);
            }
            self.authorized = None;
            match self.ptt.key(now) {
                Ok(_) => {},
                Err(e) => return Err(e),
            }
            self.transmitting = true;
            self.clock.handed_at_key = self.clock.handed;
            self.clock.played_at_key = self.clock.device_played;
            self.clock.cut_short = false;
            self.stats.transmissions = count_one(self.stats.transmissions);
            self.tell(now, "ptt", "keyed", word);
        }
        let n: u64 = if (room as u128) < self.queued { room } else { self.queued as u64 };
        self.queued = self.queued - n as u128;
        self.clock.handed = self.clock.handed + n;
        Ok(n)
    }

    /// The largest sample just handed over, in millionths of full scale.
    pub fn peaked(&mut self, peak: u32)
        requires
            old(self).wf(),
        ensures
            final(self).wf(),
            final(self).radio() == old(self).radio(),
            final(self)@ == (Modem {
                tx_peak_running: if peak > old(self)@.tx_peak_running { peak } else { old(self)@.tx_peak_running },
                ..old(self)@
            }),
    {
        if peak > self.tx_peak_running {
            self.tx_peak_running = peak;
        }
    }

    fn stop_playing(&mut self, now: u64, peak_mdb: i64, word: &str)
        requires
            old(self).wf(),
            now <= CLOCK_END_US,
        ensures
            final(self).wf(),
            final(self).radio() == old(self).radio(),
            final(self)@ == ending(old(self)@, now, peak_mdb, word@),
    {
        self.clock.cut_short = false;
        self.transmitting = false;
        self.playing_test = false;
        let peak: u32 = self.tx_peak_running;
        self.tx_peak_last = Some(peak);
        self.tx_peak_running = 0;
        self.tell(now, "ptt", "released", word);
        if peak > 0 {
            let mut text = tenths_text(peak_mdb as i128, 100);
            text.append(" dBFS");
            self.tell(now, "tx_peak", &text, word);
        }
    }

    /// The transmission is over (its queue drained and, by the card's clock, its last sample
    /// gone): release the key. Says whether it was cut short. The engine is then told that the
    /// transmission is done. `peak_mdb` is its peak in thousandths of a decibel below full
    /// scale. An error if the radio refuses to release.
    pub fn finish_transmission(&mut self, now: u64, peak_mdb: i64, word: &str) -> (r: Result<bool, PttError>)
        requires
            old(self).wf(),
            now <= CLOCK_END_US,
        ensures
            final(self).wf(),
            exists|b: &mut P, u: Result<(), PttError>|
                {
                    &&& *b == old(self).radio()
                    &&& *final(b) == final(self).radio()
                    &&& #[trigger] call_ensures(P::unkey, (b,), u)
                    &&& match u {
                        Ok(_) => r is Ok,
                        Err(e) => r == Err::<bool, PttError>(e),
                    }
                },
            match r {
                Ok(cut) => cut == old(self)@.clock.cut_short && final(self)@ == transmission_over(
                    old(self)@,
                    now,
                    peak_mdb,
                    word@,
                ),
                Err(_) => final(self)@ == (Modem {
                    key: old(self)@.key.after_unkey(),
                    ..ending(old(self)@, now, peak_mdb, word@)
                }),
            },
    {
        let cut: bool = self.clock.cut_short;
        self.stop_playing(now, peak_mdb, word);
        match self.ptt.unkey(now) {
            Ok(_) => {},
            Err(e) => return Err(e),
        }
        let lead: u64 = self.config.playback_lead_us;
        let led: u64 = if lead <= u64::MAX - now { now + lead } else { u64::MAX };
        self.deaf_until = if led <= u64::MAX - CAPTURE_LAG_US { led + CAPTURE_LAG_US } else { u64::MAX };
        Ok(cut)
    }

    /// Give up on the transmission in progress: drop what is queued and what the sound card
    /// still holds, and release the key. For the run loop when the radio or the sound card has
    /// failed under it. Gives what was waiting, and whether a transmission was running, whose
    /// end the engine is then told of. The radio may refuse to release; the local state is
    /// cleared either way.
    pub fn abandon_tx(&mut self) -> (r: (Vec<Outgoing>, bool, Result<(), PttError>))
        requires
            old(self).wf(),
        ensures
            final(self).wf(),
            final(self)@ == given_up(old(self)@),
            exists|b: &mut P, u: Result<(), PttError>|
                *b == old(self).radio() && *final(b) == final(self).radio() && #[trigger] call_ensures(
                    P::unkey,
                    (b,),
                    u,
                ) && r.2 == u,
            r.0@ == old(self)@.pending,
            r.1 == old(self)@.transmitting,
    {
        let was: bool = self.transmitting;
        self.queued = 0;
        self.authorized = None;
        let mut dropped: Vec<Outgoing> = Vec::new();
        std::mem::swap(&mut dropped, &mut self.pending);
        proof {
            assert(self.pending@ =~= Seq::empty());
        }
        self.clock.flush_device = true;
        self.clock.cut_short = false;
        self.transmitting = false;
        self.playing_test = false;
        self.tx_peak_running = 0;
        let now: u64 = self.now();
        let result = self.ptt.unkey(now);
        (dropped, was, result)
    }

    /// Stop transmitting and release the radio, now: for shutdown. Whatever else fails on the
    /// way out, the key has to come up. The radio may refuse; the local state is cleared either
    /// way.
    pub fn shut_down(&mut self) -> (r: Result<(), PttError>)
        requires
            old(self).wf(),
        ensures
            final(self).wf(),
            final(self)@ == (Modem {
                queued: 0,
                pending: Seq::empty(),
                transmitting: false,
                key: old(self)@.key.after_unkey(),
                ..old(self)@
            }),
            exists|b: &mut P|
                *b == old(self).radio() && *final(b) == final(self).radio() && #[trigger] call_ensures(
                    P::unkey,
                    (b,),
                    r,
                ),
    {
        self.queued = 0;
        self.pending = Vec::new();
        proof {
            assert(self.pending@ =~= Seq::empty());
        }
        self.transmitting = false;
        let now: u64 = self.now();
        self.ptt.unkey(now)
    }

    /// Look at the key's clock: when it has been down too long the key is released, whatever was
    /// still queued is dropped, and the engine is then told that the transmission is done. Says
    /// whether it was. An error if the radio refuses to release.
    pub fn watch(&mut self, word: &str) -> (r: Result<bool, PttError>)
        requires
            old(self).wf(),
        ensures
            final(self).wf(),
            if !old(self)@.key.overdue(old(self)@.now()) {
                r == Ok::<bool, PttError>(false) && final(self)@ == old(self)@ && final(self).radio() == old(self).radio()
            } else {
                exists|b: &mut P, u: Result<(), PttError>|
                    {
                        &&& *b == old(self).radio()
                        &&& #[trigger] call_ensures(P::unkey, (b,), u)
                        &&& match u {
                            Err(e) => {
                                &&& *final(b) == final(self).radio()
                                &&& r == Err::<bool, PttError>(e)
                                &&& final(self)@ == (Modem {
                                    key: old(self)@.key.after_poll(old(self)@.now()),
                                    ..old(self)@
                                })
                            },
                            Ok(_) => exists|c: &mut P, v: Result<(), PttError>|
                                {
                                    &&& *c == *final(b)
                                    &&& *final(c) == final(self).radio()
                                    &&& #[trigger] call_ensures(P::unkey, (c,), v)
                                    &&& match v {
                                        Err(e) => r == Err::<bool, PttError>(e) && final(self)@ == tripped(
                                            old(self)@,
                                            old(self)@.now(),
                                        ),
                                        Ok(_) => r == Ok::<bool, PttError>(true) && final(self)@ == noted_event(
                                            tripped(old(self)@, old(self)@.now()),
                                            "watchdog"@,
                                            "key time exceeded"@,
                                            word@,
                                        ),
                                    }
                                },
                        }
                    }
            },
    {
        let now: u64 = self.now();
        match self.ptt.poll(now) {
            Ok(WatchdogState::Tripped) => {},
            Ok(_) => return Ok(false),
            Err(e) => return Err(e),
        }
        self.stats.watchdog_trips = count_one(self.stats.watchdog_trips);
        self.queued = 0;
        self.authorized = None;
        self.pending = Vec::new();
        proof {
            assert(self.pending@ =~= Seq::empty());
        }
        self.clock.flush_device = true;
        self.clock.cut_short = false;
        self.transmitting = false;
        match self.ptt.unkey(now) {
            Ok(_) => {},
            Err(e) => return Err(e),
        }
        self.note("watchdog", "key time exceeded", word);
        Ok(true)
    }

    /// Close the session now: what is left of a burst goes with it. The engine is then told to
    /// abort, and one DISC goes out, once the key has been up for what the cut would otherwise
    /// have run into.
    pub fn abort(&mut self, phase: Phase, w: Waits)
        requires
            old(self).wf(),
        ensures
            final(self).wf(),
            final(self).radio() == old(self).radio(),
            final(self)@ == aborted(old(self)@, phase, w),
    {
        drop_frames(&mut self.pending);
        if self.transmitting && !self.playing_test {
            self.queued = 0;
            self.authorized = None;
            self.clock.flush_device = true;
            self.clock.cut_short = true;
            let idle: bool = match phase {
                Phase::Idle => true,
                _ => false,
            };
            match self.on_air {
                Some((frame_us, floor)) => if !idle {
                    let us: u128 = frame_us as u128 + w.burst_gap_us as u128 + (if floor {
                        w.floor_control_us
                    } else {
                        w.control_us
                    }) as u128 + 2 * (w.turnaround_us as u128) + 500_000;
                    let wait: u64 = if us <= u64::MAX as u128 { us as u64 } else { u64::MAX };
                    self.pending.push(Outgoing::Pause(wait, None));
                },
                None => {},
            }
        }
    }

    /// Nothing on the air, nothing queued for it, and no session: a station that may stop.
    pub fn quiescent(&self, phase: Phase) -> (r: bool)
        ensures
            r == (!self@.transmitting && self@.queued == 0 && self@.pending.len() == 0 && phase == Phase::Idle),
    {
        let idle: bool = match phase {
            Phase::Idle => true,
            _ => false,
        };
        !self.transmitting && self.queued == 0 && self.pending.len() == 0 && idle
    }
}

} // verus!
