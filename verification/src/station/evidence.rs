//! What a station makes of what it hears, and of what its session comes to.
use vstd::prelude::*;

use crate::record::FrameRecord;
use crate::regulatory::{DialSource, Direction, Situation};
use crate::station::account::LinkAccount;
use crate::station::config::time_of;
use crate::station::deliveries::{after_arrivals, after_loss, arrived, lost, pushed, resolved, Ledger, Mark, Outcome};
use crate::station::frames::{described, shown_with, Heard, Report, Says, Shown, Talking};
use crate::station::gate::{supposed, RegulatoryQuery};
use crate::station::meter::{at_full_scale, clipped_in, clips, lengths, loudest, powers, trimmed, Block, LevelReading};
use crate::station::queue::Outgoing;
use crate::station::receive::{
    absorbed, arriving_until, becomes, captured, hearing, recorded, reported, told_of, Absorbed, Hearing, Preamble,
};
use crate::station::rules::ceiling_due;
use crate::station::session::{came_up, delivered_to, flushed, pumped, session_up, tape_at, Engine, ForTape};
use crate::station::{noted_event, said, told, Modem, Order};

verus! {

/// A sample clips by its size alone, at one and beyond: the sign does not matter, a larger number
/// clips wherever a smaller does, one does, and the next number below it does not.
pub proof fn a_sample_clips_by_its_size(a: u32, b: u32)
    requires
        a <= b <= 0x7F80_0000,
    ensures
        at_full_scale(a) ==> at_full_scale(b),
        at_full_scale(a) == at_full_scale((a + 0x8000_0000) as u32),
        at_full_scale(0x3F80_0000),
        !at_full_scale(0x3F7F_FFFF),
{
}

/// Every sample that clips is counted, once.
pub proof fn every_clipped_sample_counts(audio: Seq<u32>, sample: u32)
    ensures
        clipped_in(Seq::empty()) == 0,
        clipped_in(audio.push(sample)) == clipped_in(audio) + if at_full_scale(sample) { 1int } else { 0int },
{
    assert(audio.push(sample).drop_last() =~= audio);
}

/// What the blocks held measure is theirs together: the power and the clipped samples of each more are
/// added, and the loudest is the loudest of all.
pub proof fn the_meter_measures_every_block(s: Seq<Block>, b: Block)
    ensures
        powers(Seq::empty()) == 0 && clips(Seq::empty()) == 0 && loudest(Seq::empty()) == 0,
        powers(s.push(b)) == powers(s) + b.power,
        clips(s.push(b)) == clips(s) + b.clipped,
        loudest(s.push(b)) >= b.peak && loudest(s.push(b)) >= loudest(s) && (loudest(s.push(b)) == b.peak || loudest(s.push(b))
            == loudest(s)),
{
    assert(s.push(b).drop_last() =~= s);
}

/// The meter forgets the oldest blocks and no more of them than it must: what is left is the end of
/// what was there, no more than a window of it, and with one block more it would be.
pub proof fn the_meter_forgets_no_more_than_it_must(s: Seq<Block>, window: nat)
    ensures
        ({
            let t = trimmed(s, window);
            let gone = s.len() - t.len();
            &&& gone >= 0
            &&& t =~= s.subrange(gone, s.len() as int)
            &&& lengths(t) <= window
            &&& gone > 0 ==> lengths(s.subrange(gone - 1, s.len() as int)) > window
        }),
    decreases s.len(),
{
    if s.len() == 0 || lengths(s) <= window {
        assert(s.subrange(0, s.len() as int) =~= s);
    } else {
        let rest = s.drop_first();
        the_meter_forgets_no_more_than_it_must(rest, window);
        let t = trimmed(s, window);
        let gone = s.len() - t.len();
        assert(rest.subrange(gone - 1, rest.len() as int) =~= s.subrange(gone, s.len() as int));
        if gone > 1 {
            assert(rest.subrange(gone - 2, rest.len() as int) =~= s.subrange(gone - 1, s.len() as int));
        } else {
            assert(s.subrange(0, s.len() as int) =~= s);
        }
    }
}

/// What the operator is told of the level goes by what matters most: nothing before enough was heard;
/// clipping where more than one sample in two thousand clipped; too little room where the peak is
/// within three decibels of full scale; too quiet where the average is under minus forty; and
/// otherwise nothing is wrong.
pub proof fn the_advice_goes_by_what_matters_most(r: LevelReading)
    ensures
        !r.settled ==> r.says() == "Still listening."@,
        r.settled && 2000 * r.clipped > r.count ==> r.says()
            == "Clipping. Turn the radio's audio output or the sound card's input down."@,
        r.settled && 2000 * r.clipped <= r.count && r.peak_mdbfs > -3000 ==> r.says()
            == "Almost clipping. Turn the input down a little to leave headroom."@,
        r.settled && 2000 * r.clipped <= r.count && r.peak_mdbfs <= -3000 && r.rms_mdbfs < -40_000 ==> r.says()
            == "Very quiet. Turn the radio's audio output or the sound card's input up."@,
        r.settled && 2000 * r.clipped <= r.count && r.peak_mdbfs <= -3000 && r.rms_mdbfs >= -40_000 ==> r.says() == "Good."@,
{
}

/// A station hears what is not its own. Not transmitting, it hears everything, and counts nothing of
/// it for the channel until its own last burst is out of the card; transmitting, it hears nothing until
/// the last of what it sent has left, and from there on it hears again.
pub proof fn a_station_hears_what_is_not_its_own(m: Modem, captured: nat, baseband: nat)
    ensures
        !m.transmitting && m.now() >= m.deaf_until ==> hearing(m, captured, baseband) == Hearing::Heard,
        !m.transmitting && m.now() < m.deaf_until ==> hearing(m, captured, baseband) == Hearing::Spared,
        m.transmitting && m.queued > 0 ==> hearing(m, captured, baseband) == Hearing::Muted,
        m.transmitting ==> hearing(m, captured, baseband) is Muted || hearing(m, captured, baseband) is Ended,
{
}

/// Every captured sample counts for the clocks, the meter, the window and the recording: each by as
/// many, and the recording is patched every so many samples.
pub proof fn every_captured_sample_counts(m: Modem, audio: Seq<u32>, block: Block)
    requires
        m.audio_seen + audio.len() <= u64::MAX,
        m.tape matches Some(t) ==> t.samples + audio.len() <= u64::MAX,
    ensures
        ({
            let c = captured(m, audio, block);
            &&& c.audio_seen == m.audio_seen + audio.len()
            &&& c.tape is Some == m.tape is Some
            &&& m.tape matches Some(t) ==> c.tape->0.samples == t.samples + audio.len() && c.tape->0.frames == t.frames
                && c.tape->0.events == t.events
            &&& block.length == 0 ==> c.meter == m.meter
            &&& block.length > 0 && block.length <= 3 * m.config.audio_rate ==> c.meter.len() > 0 && c.meter.last() == block
            &&& c.pending == m.pending && c.queued == m.queued && c.transmitting == m.transmitting
        }),
{
    if 0 < block.length <= 3 * m.config.audio_rate {
        let all = m.meter.push(block);
        let window = (m.config.audio_rate as nat * 3) as nat;
        the_meter_forgets_no_more_than_it_must(all, window);
        let t = trimmed(all, window);
        lemma_last_stays(all, window);
    }
}

proof fn lemma_last_stays(s: Seq<Block>, window: nat)
    requires
        s.len() > 0,
        s.last().length <= window,
    ensures
        trimmed(s, window).len() > 0,
        trimmed(s, window).last() == s.last(),
    decreases s.len(),
{
    if lengths(s) > window {
        if s.len() == 1 {
            assert(s.drop_first().len() == 0);
            assert(lengths(s.drop_first()) == 0);
        } else {
            assert(s.drop_first().last() == s.last());
            lemma_last_stays(s.drop_first(), window);
        }
    }
}

/// What becomes of a frame: one whose chips name no rung goes no further, unless it is a control
/// frame; a beacon is noted and not answered; and every other is the engine's, decoded or not, and
/// says something of the channel only where it decoded.
pub proof fn every_frame_but_noise_and_beacons_is_the_engines(h: Heard)
    ensures
        !h.control && h.rung is None ==> becomes(h) == Absorbed::Noise,
        (h.control || h.rung is Some) && !h.control && (h.says matches Says::Beacon(Some(_))) ==> becomes(h)
            == Absorbed::Beacon,
        (h.control || h.rung is Some) && !(!h.control && (h.says matches Says::Beacon(Some(_)))) ==> becomes(h)
            == Absorbed::Frame(h.decoded),
{
}

/// A report of a frame says what the receiver measured of it, and of whom it is only what the frame
/// itself says, or the session it belongs to.
pub proof fn a_report_says_what_was_heard(h: Heard, rung: usize, now_us: u64, talking: Option<Talking>)
    ensures
        ({
            let r = described(h, rung, now_us, talking);
            &&& r.t_us == now_us && r.mode == rung && r.rv == h.rv && r.snr_mdb == h.snr_mdb && r.cfo_mhz == h.cfo_mhz
            &&& r.confidence == h.confidence && r.detect_confidence == h.detect_confidence && r.decoded == h.decoded
                && r.bytes == h.bytes
            &&& h.control ==> r.kind == "control"@ && r.to is None
            &&& !h.control ==> match h.says {
                Says::Beacon(call) => r.kind == "beacon"@ && r.to is None && (call is Some ==> r.from == Some((call->0)@)),
                Says::ConnectReq(ends) => r.kind == "connect"@ && (ends is Some ==> r.from == Some((ends->0).0@) && r.to
                    == Some((ends->0).1@)),
                Says::ConnectAck(ends) => r.kind == "answer"@ && (ends is Some ==> r.from == Some((ends->0).0@) && r.to
                    == Some((ends->0).1@)),
                Says::Probe(ends) => r.kind == "probe"@ && (ends is Some ==> r.from == Some((ends->0).0@) && r.to == Some(
                    (ends->0).1@,
                )),
                Says::ProbeAck(ends) => r.kind == "probe-answer"@ && (ends is Some ==> r.from == Some((ends->0).0@) && r.to
                    == Some((ends->0).1@)),
                Says::Datagram(call) => r.kind == "datagram"@ && r.to is None && (call is Some ==> r.from == Some(
                    (call->0)@,
                )),
                Says::Data(session) => r.kind == "data"@ && r.to is None && (talking matches Some(t) ==> (t.session
                    == session ==> r.from == Some(t.remote@)) && (t.session != session ==> r.from is None)) && (talking
                    is None ==> r.from is None),
                _ => r.kind == "data"@ && r.from is None && r.to is None,
            }
        }),
{
}

/// A report is shown behind those not yet taken, the newest 1024 of them, and is the last.
pub proof fn reports_are_shown_newest_last(s: Shown, r: Report)
    ensures
        shown_with(s, r).last == Some(r),
        shown_with(s, r).fresh.last() == r,
        s.fresh.len() < 1024 ==> shown_with(s, r).fresh =~= s.fresh.push(r),
        s.fresh.len() >= 1024 ==> shown_with(s, r).fresh =~= s.fresh.drop_first().push(r),
{
}

/// The receive lamp is lit by what is a burst, for half a second more at least, and put out by nothing
/// that is heard: a frame that decoded is one, and one that acquired well past its threshold, and no
/// other.
pub proof fn the_lamp_is_lit_by_a_burst(m: Modem, r: Report, now: u64)
    requires
        now + 500_000 <= u64::MAX,
    ensures
        ({
            let after = reported(m, r, now);
            &&& r.decoded || r.detect_confidence >= 1300 ==> after.rx_until >= now + 500_000 && after.rx_until >= m.rx_until && (
            after.rx_until == m.rx_until || after.rx_until == now + 500_000)
            &&& !r.decoded && r.detect_confidence < 1300 ==> after.rx_until == m.rx_until
        }),
{
}

/// A frame that is heard while a recording runs goes into it, at the recording's own time.
pub proof fn a_recording_takes_every_frame(m: Modem, r: FrameRecord)
    requires
        m.tape matches Some(t) ==> i64::MIN <= r.t_us - t.t0_us <= i64::MAX,
    ensures
        m.tape is None ==> recorded(m, r) == m,
        m.tape matches Some(t) ==> {
            let after = recorded(m, r).tape->0;
            &&& after.frames.drop_last() =~= t.frames
            &&& after.frames.last().t_us + t.t0_us == r.t_us
            &&& after.frames.last() == (FrameRecord { t_us: after.frames.last().t_us, ..r })
            &&& after.events == t.events && after.samples == t.samples
        },
{
}

/// What is heard is counted: every frame that was found, and every beacon; and nothing that is heard
/// keys, queues or sends anything.
pub proof fn hearing_counts_and_sends_nothing(
    m: Modem,
    h: Heard,
    now: u64,
    talking: Option<Talking>,
    word: Seq<char>,
    record: FrameRecord,
)
    requires
        m.stats.frames_detected < usize::MAX,
        m.stats.beacons_heard < usize::MAX,
    ensures
        ({
            let a = absorbed(m, h, now, talking, word, record);
            let beacon = !h.control && h.rung is Some && (h.says matches Says::Beacon(Some(_)));
            &&& a.stats.frames_detected == m.stats.frames_detected + 1
            &&& a.stats.beacons_heard == m.stats.beacons_heard + if beacon { 1int } else { 0int }
            &&& a.stats.transmissions == m.stats.transmissions && a.stats.cw_ids == m.stats.cw_ids
            &&& a.pending == m.pending && a.queued == m.queued && a.transmitting == m.transmitting && a.leave == m.leave
            &&& beacon ==> a.events.len() == m.events.len() + 1
            &&& !beacon ==> a.events == m.events
        }),
{
}

/// A preamble is heeded where it is a tone frame's, or acquired well past its threshold, and only
/// then: the engine is told when its frame began and how long it is, and the lamp stays lit for the
/// frame or for the longest there is.
pub proof fn a_preamble_is_heeded_where_it_is_sure(
    s: Seq<Preamble>,
    n: nat,
    now: u64,
    rate: nat,
    until: u64,
    long_us: u64,
)
    requires
        0 < n <= s.len(),
        rate > 0,
    ensures
        ({
            let p = s[n - 1];
            let before = told_of(s, (n - 1) as nat, now, rate);
            let lit = arriving_until(until, s, (n - 1) as nat, now, rate, long_us);
            let sure = p.tone || p.detect_confidence >= 1300;
            &&& !sure ==> told_of(s, n, now, rate) == before && arriving_until(until, s, n, now, rate, long_us) == lit
            &&& sure ==> told_of(s, n, now, rate) == before.push(
                Order::Preamble(
                    time_of(p.start as nat, rate) as u64,
                    now,
                    time_of(if p.end > p.start { (p.end - p.start) as nat } else { 0 }, rate) as u64,
                ),
            )
            &&& sure ==> arriving_until(until, s, n, now, rate, long_us) >= lit
            &&& sure && now + long_us <= u64::MAX ==> arriving_until(until, s, n, now, rate, long_us) >= now + long_us
        }),
        told_of(s, 0, now, rate).len() == 0,
        arriving_until(until, s, 0, now, rate, long_us) == until,
{
}

/// A session begins its account at the moment it comes up, with nothing sent and nothing received; it
/// is a call of this station's own where its words say so, and an answer otherwise.
pub proof fn a_session_begins_with_nothing(m: Modem, detail: Seq<char>, acked: usize)
    ensures
        came_up(m, detail).link == Some(LinkAccount { started_us: m.now(), bytes_sent: 0, bytes_received: 0 }),
        came_up(m, detail).deliveries.sent == 0,
        came_up(m, detail).session_direction == Some(
            if crate::text::ends(detail, "(iss)"@) { Direction::Originate } else { Direction::Respond },
        ),
        session_up(m, detail, acked).traffic.moved.len() == 0,
        session_up(m, detail, acked).session_notes matches Some(n) && n.acked_at_start == acked && n.frequency_hz
            == m.frequency.value,
{
}

/// What waited for a session goes with it: all of it, once, and the account counts it.
pub proof fn what_waited_goes_with_the_session(m: Modem)
    ensures
        flushed(m).outbound.len() == 0,
        m.link matches Some(l) ==> (l.bytes_sent + m.outbound.len() <= usize::MAX ==> flushed(m).link->0.bytes_sent == l.bytes_sent
            + m.outbound.len()) && flushed(m).link->0.bytes_received == l.bytes_received && flushed(m).link->0.started_us
            == l.started_us,
        m.link is None ==> flushed(m).link is None,
        flushed(flushed(m)) == flushed(m),
{
    assert(flushed(m).outbound.len() == 0 ==> flushed(m).outbound =~= Seq::empty());
    if m.outbound.len() == 0 {
        assert(m.outbound =~= Seq::empty());
    }
}

/// What the other station sent is handed on whole and in order, behind what was not yet taken, and the
/// account counts it.
pub proof fn what_arrives_is_handed_on(m: Modem, bytes: Seq<u8>, failed: bool, word: Seq<char>)
    ensures
        ({
            let d = delivered_to(m, bytes, failed, word);
            &&& d.delivered == m.delivered + bytes
            &&& m.link matches Some(l) ==> (l.bytes_received + bytes.len() <= usize::MAX ==> d.link->0.bytes_received
                == l.bytes_received + bytes.len()) && d.link->0.bytes_sent == l.bytes_sent
            &&& m.link is None ==> d.link is None
            &&& !failed ==> d.events == m.events
            &&& failed ==> d.events.len() == m.events.len() + 1
        }),
{
}

/// After the engine has been heard out: how the other station heard this one is kept, what has crossed
/// is accounted for, messages are said to have arrived as far as the stream has, and an identifier that
/// is owed is queued once no burst of the session is left to carry it, and is then owed no longer.
pub proof fn what_the_engine_says_is_taken_over(m: Modem, e: Engine)
    ensures
        ({
            let p = pumped(m, e);
            let alone = m.identifier.final_due && forall|i: int| 0 <= i < m.pending.len() ==> !((#[trigger] m.pending[i]) is Frames);
            &&& alone ==> p.pending == m.pending.push(Outgoing::Identifier) && !p.identifier.final_due
            &&& !alone ==> p.pending == m.pending && p.identifier == m.identifier
            &&& p.traffic.crossed == e.crossed
            &&& m.session_notes is Some && e.peer_snr_mdb is Some ==> p.session_notes->0.heard_there_mdb == e.peer_snr_mdb
            &&& m.session_notes is Some && e.peer_snr_mdb is None ==> p.session_notes == m.session_notes
            &&& m.link is None ==> p.deliveries == m.deliveries
            &&& m.link is Some && e.undelivered <= m.deliveries.sent ==> p.deliveries == after_arrivals(
                m.deliveries,
                (m.deliveries.sent - e.undelivered) as u64,
            )
        }),
{
}

/// A session that records itself begins its recording when it is up and ends it when it is down, with
/// the notes that were given for it, or else the standing ones; a test session does neither, nor one
/// that is not asked to.
pub proof fn a_session_records_itself_where_asked(m: Modem, name: Seq<char>, test: bool, t: ForTape)
    requires
        tape_at(m, name, test, t),
    ensures
        m.config.record_auto && !test && name == "connected"@ ==> (t matches ForTape::Start(notes) && (m.record_notes is Some
            ==> notes is Some && (notes->0)@ == m.record_notes->0) && (m.record_notes is None && m.config.record_notes@.len()
            > 0 ==> notes is Some && (notes->0)@ == m.config.record_notes@) && (m.record_notes is None
            && m.config.record_notes@.len() == 0 ==> notes is None)),
        m.config.record_auto && !test && name == "disconnected"@ ==> t is Stop,
        !m.config.record_auto || test || (name != "connected"@ && name != "disconnected"@) ==> t is Nothing,
{
    reveal_strlit("connected");
    reveal_strlit("disconnected");
    assert("connected"@.len() == 9 && "disconnected"@.len() == 12);
}

/// What became of a message is said as it was: the message's own reference and size, and, of one that
/// was lost, why.
pub proof fn an_outcome_is_the_messages_own(m: Mark, why: Seq<char>)
    ensures
        arrived(m) == (Outcome { reference: m.reference, bytes: m.bytes, delivered: true, reason: None }),
        lost(m, why) == (Outcome { reference: m.reference, bytes: m.bytes, delivered: false, reason: Some(why) }),
{
}

/// Outcomes are kept newest last, thirty-two of them.
pub proof fn the_newest_outcomes_are_kept(s: Seq<Outcome>, d: Outcome)
    ensures
        s.len() < 32 ==> pushed(s, d) =~= s.push(d),
        s.len() >= 32 ==> pushed(s, d) =~= s.drop_first().push(d),
{
}

/// Messages arrive in the order they were sent, and each as soon as all of it has: what is left waiting
/// is the end of what was, the first of it ends past what has arrived, and everything before it does
/// not. Every one that is gone was said to have arrived, the last of them last.
pub proof fn messages_arrive_in_their_order(l: Ledger, up_to: u64)
    ensures
        ({
            let a = after_arrivals(l, up_to);
            let gone = l.marks.len() - a.marks.len();
            &&& gone >= 0
            &&& a.marks =~= l.marks.subrange(gone, l.marks.len() as int)
            &&& a.marks.len() > 0 ==> a.marks[0].end > up_to
            &&& forall|i: int| 0 <= i < gone ==> (#[trigger] l.marks[i]).end <= up_to
            &&& gone > 0 ==> a.fresh.len() > 0 && a.fresh.last().reference == l.marks[gone - 1].reference
                && a.fresh.last().delivered && a.recent.len() > 0 && a.recent.last() == a.fresh.last()
            &&& gone == 0 ==> a == l
            &&& a.sent == l.sent
        }),
    decreases l.marks.len(),
{
    if l.marks.len() == 0 || l.marks[0].end > up_to {
        assert(l.marks.subrange(0, l.marks.len() as int) =~= l.marks);
    } else {
        let next = resolved(Ledger { marks: l.marks.drop_first(), ..l }, arrived(l.marks[0]));
        messages_arrive_in_their_order(next, up_to);
        let a = after_arrivals(l, up_to);
        let gone = l.marks.len() - a.marks.len();
        assert(next.marks.subrange(gone - 1, next.marks.len() as int) =~= l.marks.subrange(gone, l.marks.len() as int));
        assert forall|i: int| 0 <= i < gone implies (#[trigger] l.marks[i]).end <= up_to by {
            if i > 0 {
                assert(next.marks[i - 1] == l.marks[i]);
            }
        }
        if gone > 1 {
            assert(next.marks[gone - 2] == l.marks[gone - 1]);
        }
    }
}

/// What still waits when a session ends is said to be lost, each with the reason, the last of them
/// last.
pub proof fn what_still_waits_is_lost(l: Ledger, why: Seq<char>)
    requires
        l.marks.len() > 0,
    ensures
        ({
            let a = after_loss(l, why);
            &&& a.marks.len() == 0
            &&& a.fresh.len() > 0 && !a.fresh.last().delivered && a.fresh.last().reason == Some(why)
                && a.fresh.last().reference == l.marks.last().reference
            &&& a.sent == l.sent
        }),
    decreases l.marks.len(),
{
    let next = resolved(Ledger { marks: l.marks.drop_first(), ..l }, lost(l.marks[0], why));
    if next.marks.len() > 0 {
        assert(next.marks.last() == l.marks.last());
        what_still_waits_is_lost(next, why);
    } else {
        assert(l.marks.last() == l.marks[0]);
        assert(after_loss(next, why) == next);
    }
}

/// The ceiling is worked out again when it is asked for, the first time, and every half second.
pub proof fn the_ceiling_is_worked_out_every_half_second(m: Modem)
    ensures
        ceiling_due(m, true),
        m.ceiling_at is None ==> ceiling_due(m, false),
        m.ceiling_at matches Some(t) ==> (ceiling_due(m, false) <==> m.now() >= t + 500_000),
{
}

/// A question to the rules supposes what it names and leaves the rest as it is; a dial that is supposed
/// is a declared one.
pub proof fn a_question_supposes_only_what_it_names(s: Situation, q: RegulatoryQuery)
    ensures
        ({
            let x = supposed(s, q);
            &&& q.dial is Some ==> x.dial == q.dial && x.dial_source == Some(DialSource::Declared)
            &&& q.dial is None ==> x.dial == s.dial && x.dial_source == s.dial_source
            &&& x.control == if q.control is Some { q.control } else { s.control }
            &&& x.license == if q.license is Some { q.license } else { s.license }
            &&& x.sideband == if q.sideband is Some { q.sideband } else { s.sideband }
            &&& x.itu_region == s.itu_region && x.margin == s.margin && x.band_plan == s.band_plan && x.power_mw == s.power_mw
        }),
{
}

/// What a station tells goes to the operator and, where a recording runs, into it, at the recording's
/// own time.
pub proof fn what_is_told_is_kept(m: Modem, event: Seq<char>, detail: Seq<char>, word: Seq<char>)
    ensures
        ({
            let t = noted_event(m, event, detail, word);
            &&& t.events == m.events.push(event + ":"@ + detail)
            &&& m.tape is None ==> t.tape is None
            &&& m.tape matches Some(x) ==> t.tape->0.events.len() == x.events.len() + 1 && t.tape->0.events.drop_last()
                =~= x.events && t.tape->0.frames == x.frames
            &&& t.pending == m.pending && t.queued == m.queued && t.stats == m.stats
        }),
{
}

} // verus!
