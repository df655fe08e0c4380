//! What comes in: the audio the sound card captured, the frames the receiver found in it, and
//! what is said of the channel.
use vstd::prelude::*;

use crate::ptt::Ptt;
use crate::record::{FrameRecord, Tape, PATCH_EVERY};
use crate::spectrum::{newest, observed, within_limit, Spectrum, WINDOW};
use crate::station::account::{accounted, noted};
use crate::station::clock::{after_transmission, captured_after_transmission};
use crate::station::config::{count_one, microseconds_of, one_more, time_of, StationStats, CLOCK_END_US};
use crate::station::frames::{
    beacon_callsign, beacon_of, describe, described, reported_cfo, shown_with, shows_a_burst, spelled_out,
    words_of, Heard, Report, Says, Talking, DETECT_CONFIDENCE_TRUSTED,
};
use crate::station::gate::later;
use crate::station::meter::{trimmed, Block};
use crate::station::transmit::Channel;
use crate::station::{noted_event, Modem, Order, Station};
use crate::text::{cat, hundredths, hundredths_text, signed_tenths, signed_tenths_text, tenths, tenths_text};

verus! {

/// How long after a frame the next of its burst may follow.
pub const BURST_GOES_ON_US: u64 = 500_000;

/// The receiver's passband is folded into the monitor no more often than this.
pub const PASSBAND_SAMPLE_US: u64 = 500_000;

/// Below this block level there is no real noise to read a passband from, thousandths of a
/// decibel.
pub const PASSBAND_MIN_LEVEL_MDB: i64 = -70_000;

/// How a block of captured audio is heard.
#[derive(Clone, Copy, PartialEq, Eq, Structural, Debug)]
pub enum Hearing {
    /// It is the station's own sidetone: the receiver is fed as much silence, and the busy
    /// detector skips it. Muted is not the same as paused: left out, what came either side of
    /// the transmission would be spliced together.
    Muted,
    /// The transmission ended inside it: so many baseband samples are the station's own and are
    /// muted, the transmission ended at that time, and the rest is the channel again.
    Ended(usize, u64),
    /// It is heard, but the busy detector is spared the tail of this station's own burst.
    Spared,
    /// It is heard.
    Heard,
}

/// When a transmission ended of whose last block so many baseband samples came after it.
pub open spec fn ended_at(now: u64, after: nat, rate: nat) -> u64 {
    let since = time_of(after, rate);
    if now > since { (now - since) as u64 } else { 0 }
}

/// How a block just captured is heard.
pub open spec fn hearing(m: Modem, captured: nat, baseband: nat) -> Hearing {
    if m.transmitting {
        let after = after_transmission(m.clock.past(), captured, baseband);
        if after == 0 || m.queued > 0 {
            Hearing::Muted
        } else {
            Hearing::Ended(
                (baseband - after) as usize,
                ended_at(m.now(), after, m.config.baseband_rate as nat),
            )
        }
    } else if m.now() < m.deaf_until {
        Hearing::Spared
    } else {
        Hearing::Heard
    }
}

/// The station once a block of audio was captured.
pub open spec fn captured(m: Modem, audio: Seq<u32>, block: Block) -> Modem {
    Modem {
        audio_seen: (m.audio_seen + audio.len()) as u64,
        meter: if block.length == 0 {
            m.meter
        } else {
            trimmed(m.meter.push(block), (m.config.audio_rate as nat * 3) as nat)
        },
        spectrum: newest(m.spectrum + audio),
        tape: match m.tape {
            Some(t) => {
                let samples = (t.samples + audio.len()) as u64;
                Some(
                    Tape {
                        samples,
                        patched_at: if samples - t.patched_at >= PATCH_EVERY { samples } else { t.patched_at },
                        ..t
                    },
                )
            },
            None => None,
        },
        ..m
    }
}

/// Whether the clocks can count so many samples more.
pub open spec fn counts(m: Modem, samples: nat) -> bool {
    m.audio_seen + samples <= u64::MAX && (m.tape matches Some(t) ==> t.samples + samples <= u64::MAX)
}

/// Whether this is what the sidecar records of a frame. `sure` is the confidence in the mode
/// chips that is enough.
pub open spec fn is_record_of(r: FrameRecord, h: Heard, rung: usize, now: u64, sure: u32) -> bool {
    &&& r.t_us == now
    &&& r.kind@ == (if h.control { "control"@ } else { "data"@ })
    &&& r.mode == rung
    &&& r.rv == h.rv
    &&& r.snr_3k_mdb == h.snr_mdb
    &&& r.cfo_mhz == (if h.decoded || h.confidence >= sure || h.detect_confidence >= DETECT_CONFIDENCE_TRUSTED {
        Some(h.cfo_mhz)
    } else {
        None
    })
    &&& r.decoded == h.decoded
    &&& r.confidence == h.confidence
    &&& r.detect_confidence == h.detect_confidence
    &&& r.bytes == h.bytes
    &&& words_of(r.control) == spelled_out(h)
}

/// The rung a frame was sent at; none where its chips name no rung of the ladder.
pub open spec fn rung_of(h: Heard) -> Option<usize> {
    if h.control { Some(0) } else { h.rung }
}

/// The later of two times.
pub open spec fn latest(a: u64, b: u64) -> u64 {
    if a > b { a } else { b }
}

/// The station once a frame was reported.
pub open spec fn reported(m: Modem, r: Report, now: u64) -> Modem {
    Modem {
        reports: shown_with(m.reports, r),
        rx_until: if shows_a_burst(r) { latest(m.rx_until, later(now, BURST_GOES_ON_US)) } else { m.rx_until },
        session_notes: match m.session_notes {
            Some(n) => Some(noted(n, r)),
            None => None,
        },
        ..m
    }
}

/// The station once a frame was recorded, where a recording runs.
pub open spec fn recorded(m: Modem, r: FrameRecord) -> Modem {
    Modem {
        tape: match m.tape {
            Some(t) => Some(Tape { frames: t.frames.push(FrameRecord { t_us: (r.t_us - t.t0_us) as i64, ..r }), ..t }),
            None => None,
        },
        ..m
    }
}

/// What a beacon is reported as.
pub open spec fn beacon_words(caller: Seq<char>, snr_mdb: i64) -> Seq<char> {
    caller + " at "@ + tenths(snr_mdb as int, 100) + " dB"@
}

/// The station once a frame was found: counted, and unless it is noise reported and recorded; a
/// beacon belongs to no session, so it is counted and said, and never answered.
pub open spec fn absorbed(
    m: Modem,
    h: Heard,
    now: u64,
    talking: Option<Talking>,
    word: Seq<char>,
    record: FrameRecord,
) -> Modem {
    let counted = Modem {
        stats: StationStats { frames_detected: one_more(m.stats.frames_detected), ..m.stats },
        ..m
    };
    match rung_of(h) {
        None => counted,
        Some(rung) => {
            let known = recorded(reported(counted, described(h, rung, now, talking), now), record);
            match beacon_of(h) {
                Some(caller) => noted_event(
                    Modem {
                        stats: StationStats { beacons_heard: one_more(known.stats.beacons_heard), ..known.stats },
                        ..known
                    },
                    "beacon"@,
                    beacon_words(caller, h.snr_mdb),
                    word,
                ),
                None => known,
            }
        },
    }
}

/// What becomes of a frame that was found.
#[derive(Clone, Copy, PartialEq, Eq, Structural, Debug)]
pub enum Absorbed {
    /// Its chips name no rung of the ladder: noise, which goes no further.
    Noise,
    /// A beacon: it marks the channel busy and goes no further.
    Beacon,
    /// The engine's: whether it marks the channel busy first. One that did not decode says
    /// nothing about the channel.
    Frame(bool),
}

/// What becomes of a frame that was found.
pub open spec fn becomes(h: Heard) -> Absorbed {
    if rung_of(h) is None {
        Absorbed::Noise
    } else if beacon_of(h) is Some {
        Absorbed::Beacon
    } else {
        Absorbed::Frame(h.decoded)
    }
}

/// The start of a frame that is still arriving, in baseband samples.
#[derive(Clone, Copy, PartialEq, Eq, Structural, Debug)]
pub struct Preamble {
    /// Whether it is a tone frame's.
    pub tone: bool,
    /// How far above its threshold acquisition saw it.
    pub detect_confidence: u32,
    /// Where the frame starts.
    pub start: u64,
    /// Where it will end.
    pub end: u64,
}

impl Preamble {
    /// Whether it is heeded: an OFDM preamble's threshold sits at the statistic's noise maximum,
    /// so its acquisitions have to be well past it; a tone frame is announced only past one already.
    pub open spec fn heeded(self) -> bool {
        self.tone || self.detect_confidence >= DETECT_CONFIDENCE_TRUSTED
    }

    /// How long the frame is.
    pub open spec fn air_time(self, rate: nat) -> u64 {
        time_of(if self.end > self.start { (self.end - self.start) as nat } else { 0 }, rate) as u64
    }
}

/// What the engine is told of the first `n` preambles of a block.
pub open spec fn told_of(s: Seq<Preamble>, n: nat, now: u64, rate: nat) -> Seq<Order>
    decreases n,
{
    if n == 0 {
        Seq::empty()
    } else {
        let before = told_of(s, (n - 1) as nat, now, rate);
        if s[n - 1].heeded() {
            before.push(
                Order::Preamble(time_of(s[n - 1].start as nat, rate) as u64, now, s[n - 1].air_time(rate)),
            )
        } else {
            before
        }
    }
}

/// Until when a burst is known to be arriving, once the first `n` preambles were heeded: each
/// frame's own air time, and no less than a long frame's.
pub open spec fn arriving_until(until: u64, s: Seq<Preamble>, n: nat, now: u64, rate: nat, long_us: u64) -> u64
    decreases n,
{
    if n == 0 {
        until
    } else {
        let before = arriving_until(until, s, (n - 1) as nat, now, rate, long_us);
        if s[n - 1].heeded() {
            latest(before, later(now, latest(s[n - 1].air_time(rate), long_us)))
        } else {
            before
        }
    }
}

/// Why the busy detector holds the channel occupied.
#[derive(Clone, Copy, PartialEq, Eq, Structural, Debug)]
pub enum BusyReason {
    /// Energy over the threshold.
    Level,
    /// A frame decoded, acquired so far above its threshold, in thousandths.
    Frame(u32),
    /// The passband is peaked, so many thousandths of a decibel over its median.
    Shape(i64),
    /// None was recorded.
    Unknown,
}

/// What the busy detector measured, in thousandths of a decibel.
#[derive(Clone, Copy, PartialEq, Eq, Structural, Debug)]
pub struct BusyReading {
    /// The level.
    pub level_mdb: i64,
    /// The noise floor.
    pub floor_mdb: i64,
    /// How far above the floor is busy.
    pub margin_mdb: i64,
    /// Why the channel was last held occupied.
    pub reason: BusyReason,
}

/// Why the channel is busy, or is not any more, in words.
pub open spec fn busy_why(busy: bool, reason: BusyReason) -> Seq<char> {
    if busy {
        match reason {
            BusyReason::Level => "energy over the threshold for the attack"@,
            BusyReason::Frame(c) => "a frame decoded (acquired at "@ + hundredths(c as int * 1000) + ")"@,
            BusyReason::Shape(peak) => "the passband is peaked ("@ + tenths(peak as int, 100) + " dB over its median)"@,
            BusyReason::Unknown => "no reason recorded"@,
        }
    } else {
        "hangover ran out with the energy under the threshold"@
    }
}

/// One line per transition, every quantity the decision used, in a fixed order.
pub open spec fn busy_line(busy: bool, r: BusyReading) -> Seq<char> {
    tenths(r.level_mdb as int, 100) + " dBFS | floor "@ + tenths(r.floor_mdb as int, 100) + " | delta "@ + signed_tenths(
        r.level_mdb - r.floor_mdb,
        100,
    ) + " dB | margin "@ + tenths(r.margin_mdb as int, 100) + " |              threshold "@ + tenths(
        r.floor_mdb + r.margin_mdb,
        100,
    ) + " dBFS | "@ + (if busy { "OFF -> ON"@ } else { "ON -> OFF"@ }) + " | "@ + busy_why(busy, r.reason)
}

fn why_busy(busy: bool, reason: BusyReason) -> (r: String)
    ensures
        r@ == busy_why(busy, reason),
{
    if !busy {
        return "hangover ran out with the energy under the threshold".to_owned();
    }
    match reason {
        BusyReason::Level => "energy over the threshold for the attack".to_owned(),
        BusyReason::Frame(c) => {
            let mut s = cat("a frame decoded (acquired at ", &hundredths_text(c as i128 * 1000));
            s.append(")");
            s
        },
        BusyReason::Shape(peak) => {
            let mut s = cat("the passband is peaked (", &tenths_text(peak as i128, 100));
            s.append(" dB over its median)");
            s
        },
        BusyReason::Unknown => "no reason recorded".to_owned(),
    }
}

fn busy_text(busy: bool, r: &BusyReading) -> (s: String)
    ensures
        s@ == busy_line(busy, *r),
{
    let mut s = tenths_text(r.level_mdb as i128, 100);
    s.append(" dBFS | floor ");
    s.append(&tenths_text(r.floor_mdb as i128, 100));
    s.append(" | delta ");
    s.append(&signed_tenths_text(r.level_mdb as i128 - r.floor_mdb as i128, 100));
    s.append(" dB | margin ");
    s.append(&tenths_text(r.margin_mdb as i128, 100));
    s.append(" |              threshold ");
    s.append(&tenths_text(r.floor_mdb as i128 + r.margin_mdb as i128, 100));
    s.append(" dBFS | ");
    s.append(if busy { "OFF -> ON" } else { "ON -> OFF" });
    s.append(" | ");
    s.append(&why_busy(busy, r.reason));
    s
}

fn frame_record(h: &Heard, rung: usize, now: u64, sure: u32) -> (r: FrameRecord)
    requires
        now <= CLOCK_END_US,
    ensures
        is_record_of(r, *h, rung, now, sure),
{
    let control: Option<String> = if h.control {
        match &h.says {
            Says::Control(_, text) => match text {
                Some(s) => Some(s.clone()),
                None => None,
            },
            _ => None,
        }
    } else {
        None
    };
    FrameRecord {
        t_us: now as i64,
        kind: if h.control { "control".to_owned() } else { "data".to_owned() },
        mode: rung,
        rv: h.rv,
        snr_3k_mdb: h.snr_mdb,
        cfo_mhz: reported_cfo(h.decoded, h.confidence, h.detect_confidence, sure, h.cfo_mhz),
        confidence: h.confidence,
        detect_confidence: h.detect_confidence,
        decoded: h.decoded,
        bytes: h.bytes,
        control,
    }
}

impl<P: Ptt> Station<P> {
    /// Whether the clocks can count so many samples more.
    pub fn can_count(&self, samples: usize) -> (r: bool)
        ensures
            r == counts(self@, samples as nat),
    {
        samples as u64 <= u64::MAX - self.audio_seen && match &self.recording {
            Some(t) => samples as u64 <= u64::MAX - t.samples(),
            None => true,
        }
    }

    /// Hand over audio the sound card captured, as the bits of its samples, with what it
    /// measured and how many baseband samples it became. Says how it is heard, and whether the
    /// recording's header and sidecar are due to be refreshed.
    pub fn capture(&mut self, audio: &Vec<u32>, block: Block, baseband: usize) -> (r: (Hearing, bool))
        requires
            old(self).wf(),
            counts(old(self)@, audio@.len()),
        ensures
            final(self).wf(),
            final(self).radio() == old(self).radio(),
            final(self)@ == captured(old(self)@, audio@, block),
            r.0 == hearing(final(self)@, audio@.len(), baseband as nat),
            r.1 == (old(self)@.tape matches Some(t) && t.samples + audio@.len() - t.patched_at >= PATCH_EVERY),
            old(self)@.tape matches Some(t) ==> (r.1 <==> t.samples + audio@.len() >= t.patched_at + 240_000),
            old(self)@.tape is None ==> !r.1,
    {
        self.audio_seen = self.audio_seen + audio.len() as u64;
        self.meter.push(block);
        self.spectrum.push(audio);
        let due: bool = match &mut self.recording {
            Some(t) => t.captured(audio.len()),
            None => false,
        };
        let now: u64 = self.now();
        let how: Hearing = if self.transmitting {
            let after: usize = captured_after_transmission(&self.clock, audio.len(), baseband);
            if after == 0 || self.queued > 0 {
                Hearing::Muted
            } else {
                let since: u64 = microseconds_of(after as u64, self.config.baseband_rate);
                Hearing::Ended(baseband - after, if now > since { now - since } else { 0 })
            }
        } else if now < self.deaf_until {
            Hearing::Spared
        } else {
            Hearing::Heard
        };
        (how, due)
    }

    /// A full disk must not stop the modem; the recording is what is lost.
    pub fn recording_lost(&mut self, error: &str, word: &str)
        requires
            old(self).wf(),
        ensures
            final(self).wf(),
            final(self).radio() == old(self).radio(),
            final(self)@ == (Modem {
                tape: None,
                ..noted_event(old(self)@, "error"@, "recording stopped: "@ + error@, word@)
            }),
    {
        let detail = cat("recording stopped: ", error);
        self.note("error", &detail, word);
        self.recording = None;
    }

    /// A frame the receiver found: it is counted, reported and recorded, and what becomes of it
    /// is said. The completed frames of a block come first and its preambles after them: a
    /// preamble found in the block belongs to a frame that is still arriving, so its deadline
    /// must be the one that stands.
    pub fn absorb(&mut self, h: &Heard, now: u64, talking: &Option<Talking>, word: &str, sure: u32) -> (r: Absorbed)
        requires
            old(self).wf(),
            now <= CLOCK_END_US,
        ensures
            final(self).wf(),
            final(self).radio() == old(self).radio(),
            r == becomes(*h),
            match rung_of(*h) {
                None => final(self)@ == (Modem {
                    stats: StationStats { frames_detected: one_more(old(self)@.stats.frames_detected), ..old(self)@.stats },
                    ..old(self)@
                }),
                Some(rung) => exists|record: FrameRecord| #[trigger]
                    is_record_of(record, *h, rung, now, sure) && final(self)@ == absorbed(
                        old(self)@,
                        *h,
                        now,
                        *talking,
                        word@,
                        record,
                    ),
            },
    {
        self.stats.frames_detected = count_one(self.stats.frames_detected);
        let ghost counted = self@;
        let rung: usize = if h.control {
            0
        } else {
            match h.rung {
                Some(x) => x,
                None => return Absorbed::Noise,
            }
        };
        self.report(h, rung, now, talking);
        let record = frame_record(h, rung, now, sure);
        let ghost kept = record;
        let ghost shown = self@;
        match &mut self.recording {
            Some(t) => t.frame(record),
            None => {},
        }
        proof {
            assert(self@ == recorded(shown, kept));
        }
        match beacon_callsign(h) {
            Some(caller) => {
                self.stats.beacons_heard = count_one(self.stats.beacons_heard);
                let mut detail = cat(caller, " at ");
                detail.append(&tenths_text(h.snr_mdb as i128, 100));
                detail.append(" dB");
                self.note("beacon", &detail, word);
                Absorbed::Beacon
            },
            None => Absorbed::Frame(h.decoded),
        }
    }

    /// Describe a frame for the displays and keep it; a frame of the other station's counts for
    /// the session's notes, and one that shows a burst keeps the receive lamp lit.
    pub fn report(&mut self, h: &Heard, rung: usize, now: u64, talking: &Option<Talking>)
        requires
            old(self).wf(),
        ensures
            final(self).wf(),
            final(self).radio() == old(self).radio(),
            final(self)@ == reported(old(self)@, described(*h, rung, now, *talking), now),
    {
        let report = describe(h, rung, now, talking);
        if report.decoded || report.detect_confidence >= DETECT_CONFIDENCE_TRUSTED {
            let until: u64 = if now <= u64::MAX - BURST_GOES_ON_US { now + BURST_GOES_ON_US } else { u64::MAX };
            if until > self.rx_until {
                self.rx_until = until;
            }
        }
        match &mut self.session_notes {
            Some(n) => n.heard(&report),
            None => {},
        }
        self.reports.keep(report);
    }

    /// Act on the preambles acquisition found in this block. They tell the engine a burst is
    /// still running long before the frame itself arrives, and light the receive indicator; they
    /// do not mark the channel busy. Gives what the engine is told.
    pub fn heed_preambles(&mut self, preambles: &Vec<Preamble>, now: u64, long_us: u64) -> (r: Vec<Order>)
        requires
            old(self).wf(),
        ensures
            final(self).wf(),
            final(self).radio() == old(self).radio(),
            r@ == told_of(preambles@, preambles@.len(), now, old(self)@.config.baseband_rate as nat),
            final(self)@ == (Modem {
                rx_until: arriving_until(
                    old(self)@.rx_until,
                    preambles@,
                    preambles@.len(),
                    now,
                    old(self)@.config.baseband_rate as nat,
                    long_us,
                ),
                ..old(self)@
            }),
    {
        let mut orders: Vec<Order> = Vec::new();
        let rate: u32 = self.config.baseband_rate;
        let mut until: u64 = self.rx_until;
        let mut i: usize = 0;
        proof {
            assert(orders@ =~= Seq::empty());
        }
        while i < preambles.len()
            invariant
                i <= preambles.len(),
                rate > 0,
                orders@ == told_of(preambles@, i as nat, now, rate as nat),
                until == arriving_until(self.rx_until, preambles@, i as nat, now, rate as nat, long_us),
            decreases preambles.len() - i,
        {
            let p: Preamble = preambles[i];
            if p.tone || p.detect_confidence >= DETECT_CONFIDENCE_TRUSTED {
                let span: u64 = if p.end > p.start { p.end - p.start } else { 0 };
                let frame_us: u64 = microseconds_of(span, rate);
                let lasts: u64 = if frame_us > long_us { frame_us } else { long_us };
                let by: u64 = if lasts <= u64::MAX - now { now + lasts } else { u64::MAX };
                if by > until {
                    until = by;
                }
                orders.push(Order::Preamble(microseconds_of(p.start, rate), now, frame_us));
            }
            i += 1;
        }
        self.rx_until = until;
        orders
    }

    /// Log a change of the busy state with the numbers that decided it.
    pub fn note_busy_transition(&mut self, busy: bool, reading: &BusyReading, word: &str)
        requires
            old(self).wf(),
        ensures
            final(self).wf(),
            final(self).radio() == old(self).radio(),
            final(self)@ == (if busy == old(self)@.was_busy {
                old(self)@
            } else {
                noted_event(
                    Modem { was_busy: busy, ..old(self)@ },
                    "busy"@,
                    busy_line(busy, *reading),
                    word@,
                )
            }),
    {
        if busy == self.was_busy {
            return;
        }
        self.was_busy = busy;
        let line = busy_text(busy, reading);
        self.note("busy", &line, word);
    }

    /// Whether the receiver's noise spectrum is to be folded into the passband monitor now: at
    /// most a couple of times a second and only when the channel is quiet, so what it learns is
    /// the receiver's own passband, not a signal that is on.
    pub fn passband_due(&self, now: u64, channel: Channel, level_mdb: i64) -> (r: bool)
        ensures
            r == (now >= self@.passband_next && channel.settled && !channel.busy && !self@.transmitting && now
                >= self@.deaf_until && level_mdb > PASSBAND_MIN_LEVEL_MDB && self@.spectrum.len() == WINDOW),
            r ==> level_mdb > -70_000 && self@.spectrum.len() == 4096,
            !r && level_mdb > -70_000 && self@.spectrum.len() == 4096 ==> now < self@.passband_next || !channel.settled
                || channel.busy || self@.transmitting || now < self@.deaf_until,
    {
        now >= self.passband_next && channel.settled && !channel.busy && !self.transmitting && now >= self.deaf_until
            && level_mdb > PASSBAND_MIN_LEVEL_MDB && self.spectrum.ready()
    }

    /// Fold a spectrum of quiet audio into the passband monitor.
    pub fn sample_passband(&mut self, spectrum: &Spectrum, now: u64)
        requires
            old(self).wf(),
            within_limit(spectrum.bins@),
        ensures
            final(self).wf(),
            final(self).radio() == old(self).radio(),
            final(self)@ == (Modem {
                passband: observed(old(self)@.passband, spectrum.bin, spectrum.bins@),
                passband_next: later(now, PASSBAND_SAMPLE_US),
                ..old(self)@
            }),
            now + 500_000 <= u64::MAX ==> final(self)@.passband_next == now + 500_000,
    {
        self.passband.observe(spectrum);
        self.passband_next = if now <= u64::MAX - PASSBAND_SAMPLE_US { now + PASSBAND_SAMPLE_US } else { u64::MAX };
    }

    /// The receiver's passband width around a centre, in millionths of a hertz, learned from the
    /// noise between signals, once enough quiet audio has been heard.
    pub fn rx_passband(&self, center: u64) -> (r: Option<u128>)
        requires
            self.wf(),
        ensures
            match r {
                Some(w) => self@.passband.seen >= crate::spectrum::MIN_OBSERVATIONS && crate::spectrum::width(
                    self@.passband.levels,
                    self@.passband.bin as nat,
                    center as nat,
                ) == Some(w as int),
                None => self@.passband.seen < crate::spectrum::MIN_OBSERVATIONS || crate::spectrum::width(
                    self@.passband.levels,
                    self@.passband.bin as nat,
                    center as nat,
                ) is None,
            },
    {
        self.passband.width(center)
    }

    /// Note what crossed the air since last time, for the throughput reading: the engine's own
    /// count of bytes acknowledged and delivered.
    pub fn account(&mut self, crossed: u64)
        requires
            old(self).wf(),
        ensures
            final(self).wf(),
            final(self).radio() == old(self).radio(),
            final(self)@ == (Modem {
                traffic: accounted(old(self)@.traffic, old(self)@.now(), crossed, old(self)@.link is Some),
                ..old(self)@
            }),
    {
        let now: u64 = self.now();
        let up: bool = self.link.is_some();
        self.traffic.account(now, crossed, up);
    }
}

/// A station that transmits is deaf: nothing it captures before its transmission has left the
/// sound card is heard.
pub proof fn deaf_while_transmitting(m: Modem, captured: nat, baseband: nat)
    requires
        m.transmitting,
        m.queued > 0 || m.clock.past() is None || m.clock.past() == Some(0int),
    ensures
        hearing(m, captured, baseband) == Hearing::Muted,
{
}

/// A preamble alone, and a frame that did not decode, assert nothing about the channel: only a
/// beacon or a decoded frame marks it busy.
pub proof fn only_a_decode_marks_the_channel(h: Heard)
    requires
        !h.decoded,
        beacon_of(h) is None,
    ensures
        becomes(h) == Absorbed::Noise || becomes(h) == Absorbed::Frame(false),
{
}

} // verus!
