//! What an operator or a client asks of a station: a call, a beacon, a test of the keying or of
//! the drive, and settings that change under it.
use vstd::prelude::*;

use crate::ptt::{KeyClock, Ptt};
use crate::regulatory::profile::Profile;
use crate::regulatory::{is_policy_named, Settings};
use crate::station::config::{
    burst_limit, count_one, one_more, samples_in, samples_of, Operator, StationConfig, StationStats,
    DRIVE_BURST_US, DRIVE_GAP_US, ID_LOOKAHEAD_US,
};
use crate::station::frames::Container;
use crate::station::gate::later;
use crate::station::queue::{drop_tests, without_tests, Outgoing, TxFrame};
use crate::station::rules::ceiling_found;
use crate::station::transmit::{channel_clear, id_due, is_clear, Channel};
use crate::station::{Modem, Order, Phase, Station};

verus! {

/// What is said while a session runs.
pub open spec fn in_session() -> Seq<char> {
    "a session is running"@
}

/// Why a test that radiates is refused on account of the channel, where it is. Refused rather
/// than deferred: an operator with a hand on the drive control is waiting for it now.
pub open spec fn channel_fault(m: Modem, phase: Phase, channel: Channel) -> Option<Seq<char>> {
    if !m.config.wait_for_clear {
        None
    } else if !channel.settled {
        Some("the busy detector is still learning the noise floor; try again in a few seconds"@)
    } else if !channel_clear(phase, channel) {
        Some("the channel is busy"@)
    } else {
        None
    }
}

/// Why a keying test is refused, where it is.
pub open spec fn key_test_fault(phase: Phase, us: u64) -> Option<Seq<char>> {
    if phase != Phase::Idle {
        Some(in_session())
    } else if us < 200_000 || us > 5_000_000 {
        Some("a keying test lasts between 0.2 and 5 seconds"@)
    } else {
        None
    }
}

/// Why a tune tone is refused, where it is.
pub open spec fn tune_fault(m: Modem, phase: Phase, channel: Channel, us: u64) -> Option<Seq<char>> {
    if phase != Phase::Idle {
        Some(in_session())
    } else if us < 500_000 || us > 10_000_000 {
        Some("a tune tone lasts between 0.5 and 10 seconds"@)
    } else {
        channel_fault(m, phase, channel)
    }
}

/// A rung of the ladder, as a drive burst sends it.
#[derive(Clone, Copy, PartialEq, Eq, Structural, Debug)]
pub struct DriveRung {
    /// The payload it carries.
    pub payload_bytes: usize,
    /// How long its frame is.
    pub frame_us: u64,
    /// Whether it is the tone floor's.
    pub floor: bool,
}

/// The rung drive bursts are sent at: the fastest the station is allowed to use, because that is
/// the worst case its ALC will ever see.
pub open spec fn drive_index(m: Modem, rungs: Seq<DriveRung>) -> int {
    if m.config.max_mode < rungs.len() { m.config.max_mode as int } else { rungs.len() - 1 }
}

/// Why drive bursts are refused, where they are.
pub open spec fn drive_fault(m: Modem, phase: Phase, channel: Channel, bursts: usize, rungs: Seq<DriveRung>) -> Option<
    Seq<char>,
> {
    if phase != Phase::Idle {
        Some(in_session())
    } else if bursts < 1 || bursts > 10 {
        Some("a drive check is between 1 and 10 bursts"@)
    } else if channel_fault(m, phase, channel) is Some {
        channel_fault(m, phase, channel)
    } else if rungs[drive_index(m, rungs)].payload_bytes == 0 {
        Some("this mode carries no payload to send"@)
    } else {
        None
    }
}

/// How many frames a drive burst has: enough to read the ALC and turn the knob against.
pub open spec fn drive_frames(frame_us: u64) -> int {
    let each = if frame_us > 100_000 { frame_us as int } else { 100_000 };
    (DRIVE_BURST_US + each - 1) / each
}

/// Whether a frame is a drive burst's: filler, not protocol, at a rung.
pub open spec fn is_drive_frame(f: TxFrame, index: int, rung: DriveRung) -> bool {
    &&& f.container == Container::Data
    &&& f.data is None
    &&& f.control is None
    &&& f.mode == index
    &&& f.rv == 0
    &&& !f.floor
    &&& f.floor_rung == rung.floor
    &&& f.air_us == rung.frame_us
    &&& f.payload@.len() == rung.payload_bytes
    &&& forall|i: int| 0 <= i < f.payload@.len() ==> f.payload@[i] == 0x5a
}

/// Whether something queued is a drive burst at a rung.
pub open spec fn is_drive_burst(o: Outgoing, index: int, rung: DriveRung) -> bool {
    o matches Outgoing::Drive(frames) && frames@.len() == drive_frames(rung.frame_us) && forall|i: int|
        0 <= i < frames@.len() ==> is_drive_frame(#[trigger] frames@[i], index, rung)
}

/// Whether a queue has drive bursts at its end, from `from` on, with a pause between each two.
pub open spec fn ends_in_drive(q: Seq<Outgoing>, from: int, bursts: int, index: int, rung: DriveRung) -> bool {
    &&& q.len() == from + (if bursts == 0 { 0 } else { 2 * bursts - 1 })
    &&& forall|i: int|
        from <= i < q.len() ==> if (i - from) % 2 == 0 {
            is_drive_burst(#[trigger] q[i], index, rung)
        } else {
            q[i] == Outgoing::Pause(DRIVE_GAP_US, None)
        }
}

/// The station once a tune tone or a drive burst was cut short, playing or still queued.
pub open spec fn tests_stopped(m: Modem) -> Modem {
    let rest = Modem { pending: without_tests(m.pending), ..m };
    if m.playing_test { Modem { queued: 0, clock: m.clock.cut(), playing_test: false, ..rest } } else { rest }
}

/// The settings that can change without a restart.
#[derive(Debug)]
pub struct Live {
    pub tx_level: u64,
    pub max_key_us: u64,
    pub wait_for_clear: bool,
    pub max_mode: usize,
    pub answer_only: bool,
    pub record_auto: bool,
    pub record_notes: String,
    pub operator: Operator,
}

/// The station with settings changed under it.
pub open spec fn lived(m: Modem, live: Live) -> Modem {
    Modem {
        config: StationConfig {
            tx_level: live.tx_level,
            max_key_us: live.max_key_us,
            wait_for_clear: live.wait_for_clear,
            max_mode: live.max_mode,
            answer_only: live.answer_only,
            record_auto: live.record_auto,
            record_notes: live.record_notes,
            operator: live.operator,
            ..m.config
        },
        key: KeyClock { limit_us: live.max_key_us, ..m.key },
        ..m
    }
}

fn filler(bytes: usize) -> (r: Vec<u8>)
    ensures
        r@.len() == bytes,
        forall|i: int| 0 <= i < r@.len() ==> r@[i] == 0x5a,
{
    let mut out: Vec<u8> = Vec::new();
    let mut i: usize = 0;
    while i < bytes
        invariant
            i <= bytes,
            out@.len() == i,
            forall|j: int| 0 <= j < i ==> out@[j] == 0x5a,
        decreases bytes - i,
    {
        out.push(0x5a);
        i += 1;
    }
    out
}

fn drive_burst(index: usize, rung: DriveRung) -> (r: Outgoing)
    ensures
        is_drive_burst(r, index as int, rung),
{
    let each: u64 = if rung.frame_us > 100_000 { rung.frame_us } else { 100_000 };
    let per: u128 = (DRIVE_BURST_US as u128 + each as u128 - 1) / (each as u128);
    proof {
        assert(per == (6_000_000 + each - 1) / (each as int));
        assert(per <= 60) by (nonlinear_arith)
            requires
                each >= 100_000,
                per == (6_000_000 + each - 1) / (each as int),
        ;
    }
    let mut frames: Vec<TxFrame> = Vec::new();
    let mut i: u128 = 0;
    while i < per
        invariant
            i <= per <= 60,
            frames@.len() == i,
            forall|j: int| 0 <= j < i ==> is_drive_frame(#[trigger] frames@[j], index as int, rung),
        decreases per - i,
    {
        frames.push(
            TxFrame {
                container: Container::Data,
                data: None,
                control: None,
                mode: index,
                rv: 0,
                floor: false,
                floor_rung: rung.floor,
                air_us: rung.frame_us,
                payload: filler(rung.payload_bytes),
            },
        );
        i += 1;
    }
    Outgoing::Drive(frames)
}

impl<P: Ptt> Station<P> {
    /// Whether this station may call; the engine is then asked to.
    pub fn connect_as(&self) -> (r: Result<(), &'static str>)
        ensures
            match r {
                Ok(_) => !self@.config.answer_only,
                Err(e) => self@.config.answer_only && e@ == "this station is answer-only: it takes calls and makes none"@,
            },
    {
        if self.config.answer_only {
            Err("this station is answer-only: it takes calls and makes none")
        } else {
            Ok(())
        }
    }

    /// Whether this station may send a probe; the engine is then asked to. Sending one is a
    /// call, so an answer-only station may not; answering one is a response, which it may.
    pub fn probe(&self) -> (r: Result<(), &'static str>)
        ensures
            match r {
                Ok(_) => !self@.config.answer_only,
                Err(e) => self@.config.answer_only && e@ == "this station is answer-only: it answers probes and sends none"@,
            },
    {
        if self.config.answer_only {
            Err("this station is answer-only: it answers probes and sends none")
        } else {
            Ok(())
        }
    }

    /// Transmit one unproto beacon: this station's callsign, addressed to nobody. `frame` is the
    /// frame that carries it, or why there is none. Never while a session is running, which
    /// would put a frame into the middle of somebody's transfer.
    pub fn beacon(&mut self, frame: Result<TxFrame, &'static str>, phase: Phase) -> (r: Result<(), &'static str>)
        requires
            old(self).wf(),
        ensures
            final(self).wf(),
            final(self).radio() == old(self).radio(),
            match r {
                Ok(_) => !old(self)@.config.answer_only && phase == Phase::Idle && frame is Ok && ({
                    let q = final(self)@.pending;
                    &&& q.len() == old(self)@.pending.len() + 1
                    &&& q.drop_last() == old(self)@.pending
                    &&& q.last() matches Outgoing::Frames(v) && v@ == seq![frame->Ok_0]
                    &&& final(self)@ == (Modem {
                        pending: q,
                        stats: StationStats { beacons_sent: one_more(old(self)@.stats.beacons_sent), ..old(self)@.stats },
                        ..old(self)@
                    })
                }),
                Err(e) => final(self)@ == old(self)@ && if old(self)@.config.answer_only {
                    e@ == "this station is answer-only: it takes calls and sends no beacon"@
                } else if phase != Phase::Idle {
                    e@ == in_session()
                } else {
                    frame matches Err(why) && e@ == why@
                },
            },
    {
        if self.config.answer_only {
            return Err("this station is answer-only: it takes calls and sends no beacon");
        }
        match phase {
            Phase::Idle => {},
            _ => return Err("a session is running"),
        }
        let frame = match frame {
            Ok(f) => f,
            Err(why) => return Err(why),
        };
        let mut frames: Vec<TxFrame> = Vec::new();
        frames.push(frame);
        let ghost before = self.pending@;
        self.pending.push(Outgoing::Frames(frames));
        proof {
            assert(self.pending@.drop_last() =~= before);
        }
        self.stats.beacons_sent = count_one(self.stats.beacons_sent);
        Ok(())
    }

    /// Key the transmitter with no audio for a while, so an operator can see the rig go into
    /// transmit. It keys now, not when the channel next clears: an SSB transmitter keyed with no
    /// audio radiates nothing.
    pub fn key_test(&mut self, us: u64, phase: Phase) -> (r: Result<(), &'static str>)
        requires
            old(self).wf(),
        ensures
            final(self).wf(),
            final(self).radio() == old(self).radio(),
            match r {
                Ok(_) => key_test_fault(phase, us) is None && final(self)@ == (Modem {
                    pending: old(self)@.pending.push(
                        Outgoing::Audio(
                            samples_in(us as nat, old(self)@.config.audio_rate as nat) as u64,
                            true,
                            false,
                        ),
                    ),
                    ..old(self)@
                }),
                Err(e) => key_test_fault(phase, us) == Some(e@) && final(self)@ == old(self)@,
            },
    {
        match phase {
            Phase::Idle => {},
            _ => return Err("a session is running"),
        }
        if us < 200_000 || us > 5_000_000 {
            return Err("a keying test lasts between 0.2 and 5 seconds");
        }
        let samples: u128 = samples_of(us, self.config.audio_rate);
        proof {
            reveal(samples_in);
            let rate = self.config.audio_rate;
            assert(us * rate <= 5_000_000 * u32::MAX) by (nonlinear_arith)
                requires
                    us <= 5_000_000,
                    rate <= u32::MAX,
            ;
        }
        self.pending.push(Outgoing::Audio(samples as u64, true, false));
        Ok(())
    }

    fn channel_refuses(&self, phase: Phase, channel: Channel) -> (r: Option<&'static str>)
        ensures
            match r {
                Some(e) => channel_fault(self@, phase, channel) == Some(e@),
                None => channel_fault(self@, phase, channel) is None,
            },
    {
        if !self.config.wait_for_clear {
            None
        } else if !channel.settled {
            Some("the busy detector is still learning the noise floor; try again in a few seconds")
        } else if !is_clear(phase, channel) {
            Some("the channel is busy")
        } else {
            None
        }
    }

    /// Key the transmitter and play a steady tone of so many samples, so an operator can set
    /// their drive by watching the rig's ALC. Bounded because a carrier is a carrier, and
    /// refused during a session or while the channel is not known to be clear.
    pub fn tune(&mut self, us: u64, samples: u64, phase: Phase, channel: Channel) -> (r: Result<(), &'static str>)
        requires
            old(self).wf(),
        ensures
            final(self).wf(),
            final(self).radio() == old(self).radio(),
            match r {
                Ok(_) => tune_fault(old(self)@, phase, channel, us) is None && final(self)@ == (Modem {
                    pending: old(self)@.pending.push(Outgoing::Audio(samples, false, true)),
                    ..old(self)@
                }),
                Err(e) => tune_fault(old(self)@, phase, channel, us) == Some(e@) && final(self)@ == old(self)@,
            },
    {
        match phase {
            Phase::Idle => {},
            _ => return Err("a session is running"),
        }
        if us < 500_000 || us > 10_000_000 {
            return Err("a tune tone lasts between 0.5 and 10 seconds");
        }
        match self.channel_refuses(phase, channel) {
            Some(e) => return Err(e),
            None => {},
        }
        self.pending.push(Outgoing::Audio(samples, false, true));
        Ok(())
    }

    /// Send a few real bursts so the operator can set drive against the waveform the station
    /// actually transmits, with a pause after each. They carry filler, not protocol.
    pub fn set_drive(&mut self, bursts: usize, rungs: &Vec<DriveRung>, phase: Phase, channel: Channel) -> (r: Result<
        (),
        &'static str,
    >)
        requires
            old(self).wf(),
            rungs@.len() > 0,
        ensures
            final(self).wf(),
            final(self).radio() == old(self).radio(),
            ({
                let index = drive_index(old(self)@, rungs@);
                match r {
                    Ok(_) => drive_fault(old(self)@, phase, channel, bursts, rungs@) is None && ({
                        let q = final(self)@.pending;
                        let from = old(self)@.pending.len() as int;
                        &&& ends_in_drive(q, from, bursts as int, index, rungs@[index])
                        &&& q.subrange(0, from) == old(self)@.pending
                        &&& final(self)@ == (Modem { pending: q, ..old(self)@ })
                    }),
                    Err(e) => drive_fault(old(self)@, phase, channel, bursts, rungs@) == Some(e@) && final(self)@ == old(
                        self,
                    )@,
                }
            }),
    {
        match phase {
            Phase::Idle => {},
            _ => return Err("a session is running"),
        }
        if bursts < 1 || bursts > 10 {
            return Err("a drive check is between 1 and 10 bursts");
        }
        match self.channel_refuses(phase, channel) {
            Some(e) => return Err(e),
            None => {},
        }
        let index: usize = if self.config.max_mode < rungs.len() { self.config.max_mode } else { rungs.len() - 1 };
        let rung: DriveRung = rungs[index];
        if rung.payload_bytes == 0 {
            return Err("this mode carries no payload to send");
        }
        let ghost first = self@;
        let ghost from = self.pending@.len() as int;
        let mut n: usize = 0;
        proof {
            assert(self.pending@.subrange(0, from) =~= first.pending);
        }
        while n < bursts
            invariant
                n <= bursts <= 10,
                self.wf(),
                self.radio() == old(self).radio(),
                from == first.pending.len(),
                from <= self.pending@.len(),
                ends_in_drive(self.pending@, from, n as int, index as int, rung),
                self.pending@.subrange(0, from) == first.pending,
                self@ == (Modem { pending: self.pending@, ..first }),
            decreases bursts - n,
        {
            let ghost before = self.pending@;
            if n > 0 {
                self.pending.push(Outgoing::Pause(DRIVE_GAP_US, None));
            }
            let burst = drive_burst(index, rung);
            self.pending.push(burst);
            proof {
                let q = self.pending@;
                assert(q.subrange(0, from) =~= before.subrange(0, from));
                assert forall|i: int| from <= i < q.len() implies if (i - from) % 2 == 0 {
                    is_drive_burst(#[trigger] q[i], index as int, rung)
                } else {
                    q[i] == Outgoing::Pause(DRIVE_GAP_US, None)
                } by {
                    if i < before.len() {
                        assert(q[i] == before[i]);
                    }
                }
            }
            n += 1;
        }
        Ok(())
    }

    /// Cut a tune tone or a drive burst short, playing or still queued. Only an operator's own
    /// test transmission is ever cut: a session's burst stopped halfway is a session broken.
    /// Says whether there was something to stop.
    pub fn tune_stop(&mut self) -> (r: bool)
        requires
            old(self).wf(),
        ensures
            final(self).wf(),
            final(self).radio() == old(self).radio(),
            final(self)@ == tests_stopped(old(self)@),
            r == (old(self)@.playing_test || without_tests(old(self)@.pending).len() != old(self)@.pending.len()),
    {
        let mut stopped: bool = drop_tests(&mut self.pending);
        if self.playing_test {
            self.queued = 0;
            self.clock.flush_device = true;
            self.clock.cut_short = true;
            self.playing_test = false;
            stopped = true;
        }
        stopped
    }

    /// Apply the settings that can change without a restart; the regulatory ones with them. The
    /// identifier has so many samples. Gives what the engine is told of its bursts and of its
    /// rungs.
    pub fn apply_live(
        &mut self,
        live: Live,
        settings: Settings,
        document: Result<Profile, String>,
        morse: u64,
        phase: Phase,
        floors: &Vec<bool>,
    ) -> (r: (Option<Order>, Option<Order>))
        requires
            old(self).wf(),
            live.max_key_us > 0,
        ensures
            final(self).wf(),
            final(self).radio() == old(self).radio() || exists|b: &mut P, answer: Option<u64>|
                *b == old(self).radio() && *final(b) == final(self).radio() && #[trigger] call_ensures(
                    P::frequency_hz,
                    (b,),
                    answer,
                ),
            ({
                let m = lived(old(self)@, live);
                let ruled = Modem {
                    config: StationConfig { regulatory: settings, ..m.config },
                    policy: final(self)@.policy,
                    ..m
                };
                &&& if settings.profile@ == m.config.regulatory.profile@ {
                    ruled.policy == m.policy
                } else {
                    is_policy_named(ruled.policy, settings.profile@, document)
                }
                &&& ceiling_found(ruled, old(self).radio(), final(self)@, phase, floors@, r.1)
                &&& match m.config.max_burst_us {
                    Some(_) => r.0 is None,
                    None => r.0 == Some(
                        Order::SetMaxBurst(
                            burst_limit(
                                m.config,
                                if id_due(m, later(m.now(), ID_LOOKAHEAD_US)) { Some(morse) } else { None },
                            ) as u64,
                        ),
                    ),
                }
            }),
    {
        self.take_live(live);
        let now: u64 = self.now();
        let burst = self.refresh_burst_cap(now, morse);
        let ceiling = self.set_regulatory(settings, document, phase, floors);
        (burst, ceiling)
    }

    fn take_live(&mut self, live: Live)
        requires
            old(self).wf(),
            live.max_key_us > 0,
        ensures
            final(self).wf(),
            final(self).radio() == old(self).radio(),
            final(self)@ == lived(old(self)@, live),
    {
        self.config.tx_level = live.tx_level;
        self.config.max_key_us = live.max_key_us;
        self.config.wait_for_clear = live.wait_for_clear;
        self.config.max_mode = live.max_mode;
        self.config.answer_only = live.answer_only;
        self.ptt.set_max_key_us(live.max_key_us);
        self.config.record_auto = live.record_auto;
        self.config.record_notes = live.record_notes;
        self.config.operator = live.operator;
    }

    /// Zero the counters the panel shows. Only the display tallies are cleared; the session, the
    /// link account and the configuration are untouched, and the two compression figures are
    /// carried.
    pub fn reset_counters(&mut self)
        requires
            old(self).wf(),
        ensures
            final(self).wf(),
            final(self).radio() == old(self).radio(),
            final(self)@ == (Modem {
                stats: StationStats {
                    bytes_before_compression: old(self)@.stats.bytes_before_compression,
                    bytes_after_compression: old(self)@.stats.bytes_after_compression,
                    ..StationStats::none()
                },
                ..old(self)@
            }),
    {
        let taken: usize = self.stats.bytes_before_compression;
        let made: usize = self.stats.bytes_after_compression;
        self.stats = StationStats::default();
        self.stats.bytes_before_compression = taken;
        self.stats.bytes_after_compression = made;
    }

    /// A burst of a client's datagram, offered when nothing else is queued: it has had its own
    /// channel access already.
    pub fn offer_datagram(&mut self, frames: Vec<TxFrame>, reference: Option<String>, last: bool)
        requires
            old(self).wf(),
        ensures
            final(self).wf(),
            final(self).radio() == old(self).radio(),
            final(self)@ == (Modem {
                pending: old(self)@.pending.push(Outgoing::Datagram(frames, reference, last)),
                ..old(self)@
            }),
    {
        self.pending.push(Outgoing::Datagram(frames, reference, last));
    }
}

} // verus!
