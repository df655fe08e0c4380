//! What holds of a station however it is used: nothing is keyed that the rules have not allowed,
//! the key comes up again, and a transmission that is refused, cut or given up is gone.
use vstd::prelude::*;

use crate::record::FrameRecord;
use crate::regulatory::Situation;
use crate::station::commands::tests_stopped;
use crate::station::config::{one_more, KEY_TIME_MARGIN_US};
use crate::station::frames::{Heard, Talking};
use crate::station::meter::Block;
use crate::station::queue::{has_frames, without_frames, Outgoing};
use crate::station::receive::{absorbed, captured};
use crate::station::session::{pumped, session_down, Engine};
use crate::station::transmit::{
    aborted, burst_queued, burst_taken, frames_rendered, gated, given_up, handed, head_ruling, id_gap, identified,
    identifier_queued, identifies, key_down, layout, lead_of, lemma_lead_is_short, lemma_rendered_keys_alike, lemma_taken_rides_alike,
    no_leave, rendered, rides, stage_of, transmission_over, tripped, with_samples, Stage, Waits,
};
use crate::station::{said, IdentifierState, Modem, Phase};

verus! {

/// Something a station does.
pub enum Step {
    /// The head of the queue is judged in a situation.
    Judge(Situation, u64, Phase, Seq<char>),
    /// It is rendered.
    Render(Result<u64, Seq<char>>, u64, u64, Situation),
    /// Audio is handed over, the radio keyed first where it is not; and whether it took the key.
    HandOver(u64, u64, Seq<char>, bool),
    /// The transmission is over.
    Finish(u64, i64, Seq<char>),
    /// The transmission is given up.
    GiveUp,
    /// The key-time watchdog fires.
    Trip(u64),
    /// The session is closed at once.
    Abort(Phase, Waits),
    /// The operator's tests are cut short.
    StopTests,
    /// Audio is captured.
    Capture(Seq<u32>, Block),
    /// A frame is found.
    Absorb(Heard, u64, Option<Talking>, Seq<char>, FrameRecord),
    /// Every action of the engine is taken.
    Pump(Engine),
    /// Something is queued.
    Queue(Outgoing),
}

/// The station after a step.
pub open spec fn step(m: Modem, s: Step) -> Modem {
    match s {
        Step::Judge(situation, now, phase, word) => gated(m, situation, now, phase, word),
        Step::Render(made, now, morse, situation) => rendered(m, made, now, morse, situation),
        Step::HandOver(room, now, word, taken) => if m.transmitting {
            handed(m, room)
        } else if m.leave is None {
            said(Modem { queued: 0, ..m }, no_leave())
        } else if taken {
            handed(key_down(m, now, word), room)
        } else {
            Modem { leave: None, ..m }
        },
        Step::Finish(now, peak_mdb, word) => transmission_over(m, now, peak_mdb, word),
        Step::GiveUp => given_up(m),
        Step::Trip(now) => tripped(m, now),
        Step::Abort(phase, w) => aborted(m, phase, w),
        Step::StopTests => tests_stopped(m),
        Step::Capture(audio, block) => captured(m, audio, block),
        Step::Absorb(h, now, talking, word, record) => absorbed(m, h, now, talking, word, record),
        Step::Pump(e) => pumped(m, e),
        Step::Queue(o) => Modem { pending: m.pending.push(o), ..m },
    }
}

/// The station after a run of steps.
pub open spec fn run(m: Modem, steps: Seq<Step>) -> Modem
    decreases steps.len(),
{
    if steps.len() == 0 { m } else { step(run(m, steps.drop_last()), steps.last()) }
}

/// Whether a step keys the radio.
pub open spec fn keys(m: Modem, s: Step) -> bool {
    !m.transmitting && step(m, s).transmitting
}

/// Whether a step is the rules allowing a transmission.
pub open spec fn allows(m: Modem, s: Step) -> bool {
    s matches Step::Judge(situation, _, _, _) && head_ruling(m, situation).allows()
}

/// How often a run of steps keys the radio.
pub open spec fn keyings(m: Modem, steps: Seq<Step>) -> nat
    decreases steps.len(),
{
    if steps.len() == 0 {
        0
    } else {
        keyings(m, steps.drop_last()) + if keys(run(m, steps.drop_last()), steps.last()) { 1nat } else { 0nat }
    }
}

/// How often the rules allow a transmission in a run of steps.
pub open spec fn allowances(m: Modem, steps: Seq<Step>) -> nat
    decreases steps.len(),
{
    if steps.len() == 0 {
        0
    } else {
        allowances(m, steps.drop_last()) + if allows(run(m, steps.drop_last()), steps.last()) { 1nat } else { 0nat }
    }
}

/// How much leave a station holds.
pub open spec fn held(m: Modem) -> nat {
    if m.leave is Some { 1 } else { 0 }
}

proof fn lemma_judging(m: Modem, situation: Situation, now: u64, phase: Phase, word: Seq<char>)
    ensures
        gated(m, situation, now, phase, word).transmitting == m.transmitting,
        head_ruling(m, situation).allows() ==> gated(m, situation, now, phase, word).leave == Some(
            head_ruling(m, situation),
        ),
        !head_ruling(m, situation).allows() ==> gated(m, situation, now, phase, word).leave is None,
{
}

proof fn lemma_hearing(m: Modem, h: Heard, now: u64, talking: Option<Talking>, word: Seq<char>, record: FrameRecord)
    ensures
        absorbed(m, h, now, talking, word, record).transmitting == m.transmitting,
        absorbed(m, h, now, talking, word, record).leave == m.leave,
{
}

/// What a step spends of the leave a station holds: keying takes one, and only the rules give
/// one.
proof fn lemma_step_spends(m: Modem, s: Step)
    ensures
        held(step(m, s)) + (if keys(m, s) { 1nat } else { 0nat }) <= held(m) + if allows(m, s) { 1nat } else { 0nat },
{
    match s {
        Step::Judge(situation, now, phase, word) => lemma_judging(m, situation, now, phase, word),
        Step::Render(made, now, morse, situation) => lemma_rendered_keys_alike(m, made, now, morse, situation),
        Step::Absorb(h, now, talking, word, record) => lemma_hearing(m, h, now, talking, word, record),
        _ => {},
    }
}

/// Nothing is keyed that the rules have not allowed: whatever a station does, the radio is keyed
/// no more often than the rules allowed a transmission, leave that was held at the start counted
/// with it. Every keying spends a leave of its own.
pub proof fn nothing_is_keyed_without_leave(m: Modem, steps: Seq<Step>)
    ensures
        keyings(m, steps) + held(run(m, steps)) <= allowances(m, steps) + held(m),
    decreases steps.len(),
{
    if steps.len() > 0 {
        nothing_is_keyed_without_leave(m, steps.drop_last());
        lemma_step_spends(run(m, steps.drop_last()), steps.last());
    }
}

/// A station that was just built and whose every transmission the rules refuse never keys the
/// radio.
pub proof fn a_refused_station_is_silent(m: Modem, steps: Seq<Step>)
    requires
        m.leave is None,
        !m.transmitting,
        allowances(m, steps) == 0,
    ensures
        keyings(m, steps) == 0,
{
    nothing_is_keyed_without_leave(m, steps);
}

/// The key comes up: once a transmission is over, given up or cut by the watchdog, the station
/// is not transmitting, its key is released, and no trip is left behind.
pub proof fn the_key_comes_up(m: Modem, now: u64, peak_mdb: i64, word: Seq<char>)
    ensures
        ({
            let over = transmission_over(m, now, peak_mdb, word);
            !over.transmitting && over.key.since is None && !over.key.tripped
        }),
        !given_up(m).transmitting && given_up(m).key.since is None && !given_up(m).key.tripped,
        !tripped(m, now).transmitting && tripped(m, now).key.since is None && !tripped(m, now).key.tripped,
{
}

/// A transmission the rules refuse is gone, and nothing of it is left to be keyed.
pub proof fn what_is_refused_is_gone(m: Modem, s: Situation, now: u64, phase: Phase, word: Seq<char>)
    requires
        m.pending.len() > 0,
        !head_ruling(m, s).allows(),
    ensures
        ({
            let after = gated(m, s, now, phase, word);
            &&& after.pending == m.pending.drop_first()
            &&& after.leave is None
            &&& after.queued == m.queued
            &&& after.last_gate == Some((now, head_ruling(m, s)))
        }),
{
}

proof fn lemma_no_frames(q: Seq<Outgoing>)
    ensures
        !has_frames(without_frames(q)),
    decreases q.len(),
{
    if q.len() > 0 {
        lemma_no_frames(q.drop_last());
        let rest = without_frames(q.drop_last());
        if !(q.last() is Frames) {
            let all = without_frames(q);
            assert(all =~= rest.push(q.last()));
            assert forall|i: int| 0 <= i < all.len() implies !(#[trigger] all[i] is Frames) by {
                if i < rest.len() {
                    assert(all[i] == rest[i]);
                }
            }
        }
    }
}

/// An abort leaves none of the session's bursts behind: neither queued nor, where one was on the
/// air, any of its audio.
pub proof fn an_abort_keeps_nothing_of_the_session(m: Modem, phase: Phase, w: Waits)
    ensures
        !has_frames(aborted(m, phase, w).pending),
        m.transmitting && !m.playing_test ==> aborted(m, phase, w).queued == 0 && aborted(m, phase, w).clock.cut_short,
{
    lemma_no_frames(m.pending);
    let rest = without_frames(m.pending);
    let after = aborted(m, phase, w).pending;
    assert forall|i: int| 0 <= i < after.len() implies !(#[trigger] after[i] is Frames) by {
        if i < rest.len() {
            assert(after[i] == rest[i]);
        }
    }
}

/// A transmission that was cut short is over as soon as the station's own queue is empty.
pub proof fn a_cut_transmission_is_over(m: Modem)
    requires
        m.transmitting,
        m.queued == 0,
        m.clock.cut_short,
    ensures
        stage_of(m) == Stage::Over,
{
}

/// An identifier that rides on a transmission never takes it over the key's limit: what is
/// queued with it and the tail behind it end half the margin before the watchdog fires.
pub proof fn an_identifier_fits_the_key(m: Modem, now: u64, morse: u64, s: Situation)
    requires
        identifies(m, now, morse, s),
        m.queued + id_gap(m.config.audio_rate) + morse <= u128::MAX,
    ensures
        identified(m, now, morse, s).queued == m.queued + id_gap(m.config.audio_rate) + morse,
        identified(m, now, morse, s).queued * 1_000_000 + m.config.key_tail_us * m.config.audio_rate <= (
        m.config.max_key_us - KEY_TIME_MARGIN_US / 2) * m.config.audio_rate,
        !identified(m, now, morse, s).identifier.final_due,
{
    reveal(identified);
    reveal(identifies);
}

proof fn lemma_burst_counted(m: Modem, samples: u64, now: u64, morse: u64, s: Situation, cuttable: bool)
    requires
        m.queued == 0,
        lead_of(m.config) + samples <= u128::MAX,
    ensures
        ({
            let after = burst_queued(m, samples, now, morse, s, cuttable);
            let on = rides(m, lead_of(m.config) + samples as nat, now, morse, s);
            &&& on ==> morse > 0 && after.identifier == IdentifierState {
                last: Some(now),
                final_due: false,
                transmitted_since: false,
            } && after.stats.cw_ids == one_more(m.stats.cw_ids)
            &&& !on ==> after.identifier.last == m.identifier.last && after.stats.cw_ids == m.stats.cw_ids
        }),
{
    reveal(burst_queued);
    reveal(identified);
    reveal(identifies);
    assert(with_samples(m, lead_of(m.config) + samples as nat) == (Modem {
        queued: (lead_of(m.config) + samples as nat) as u128,
        ..m
    }));
}

proof fn lemma_own_counted(m: Modem, now: u64, morse: u64, s: Situation)
    requires
        m.queued == 0,
        lead_of(m.config) + id_gap(m.config.audio_rate) + morse <= u128::MAX,
    ensures
        ({
            let after = identifier_queued(m, now, morse, s);
            let owed = Modem { identifier: IdentifierState { final_due: true, ..m.identifier }, ..m };
            let on = rides(owed, lead_of(m.config), now, morse, s);
            &&& on ==> morse > 0 && after.identifier == IdentifierState {
                last: Some(now),
                final_due: false,
                transmitted_since: false,
            } && after.stats.cw_ids == one_more(m.stats.cw_ids)
            &&& !on ==> after.identifier.last == m.identifier.last && after.stats.cw_ids == m.stats.cw_ids
        }),
{
    reveal(identifier_queued);
    reveal(identified);
    reveal(identifies);
    let owed = Modem { identifier: IdentifierState { final_due: true, ..m.identifier }, ..m };
    assert(with_samples(owed, lead_of(m.config)) == (Modem { queued: lead_of(m.config) as u128, ..owed }));
}

/// A station says that it identified itself exactly where its identifier is sent: the Morse is in
/// the transmission's layout where, and only where, the count of identifiers goes up and the time
/// of the last one is now.
pub proof fn an_identifier_is_counted_where_it_is_sent(
    m: Modem,
    made: Result<u64, Seq<char>>,
    now: u64,
    morse: u64,
    s: Situation,
)
    requires
        m.pending.len() > 0,
        m.queued == 0,
    ensures
        ({
            let after = rendered(m, made, now, morse, s);
            let sent = layout(m, made, now, morse, s) matches Some(x) && x.morse > 0;
            &&& sent ==> after.identifier == IdentifierState { last: Some(now), final_due: false, transmitted_since: false }
            &&& !sent ==> after.identifier.last == m.identifier.last
            &&& after.stats.cw_ids == if sent { one_more(m.stats.cw_ids) } else { m.stats.cw_ids }
        }),
{
    let rest = Modem { pending: m.pending.drop_first(), ..m };
    let lead = lead_of(m.config);
    lemma_lead_is_short(m.config);
    let owed = Modem { identifier: IdentifierState { final_due: true, ..m.identifier }, ..m };
    let apart = Modem { identifier: IdentifierState { final_due: true, ..rest.identifier }, ..rest };
    crate::station::transmit::lemma_rides_alike(apart, owed, lead, now, morse, s);
    lemma_own_counted(rest, now, morse, s);
    let (frames, cuttable) = match m.pending[0] {
        Outgoing::Frames(f) => (f@, false),
        Outgoing::Drive(f) => (f@, true),
        Outgoing::Datagram(f, _, _) => (f@, false),
        _ => (Seq::empty(), false),
    };
    let taken = burst_taken(rest, frames, now);
    reveal(burst_taken);
    reveal(frames_rendered);
    match made {
        Ok(samples) => {
            lemma_burst_counted(taken, samples, now, morse, s, cuttable);
            lemma_taken_rides_alike(rest, frames, lead + samples as nat, now, morse, s);
            crate::station::transmit::lemma_rides_alike(rest, m, lead + samples as nat, now, morse, s);
        },
        Err(_) => {},
    }
}

/// A session that ended leaves nothing behind: no account, no notes, and no message still
/// followed.
pub proof fn a_session_that_ended_is_closed(m: Modem, detail: Seq<char>, finished: Seq<crate::sessions::Session>)
    ensures
        ({
            let after = session_down(m, detail, finished);
            &&& after.link is None
            &&& after.session_notes is None
            &&& after.deliveries.marks.len() == 0
            &&& after.traffic.moved.len() == 0
            &&& m.config.cw_id is Some && m.identifier.transmitted_since ==> after.identifier.final_due
        }),
{
    crate::station::deliveries::the_end_resolves_them_all(m.deliveries, detail);
}

} // verus!
