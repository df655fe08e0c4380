//! The run loop's decisions: what a station does between a link engine, a physical layer, a
//! transmitter and a radio.
//!
//! A [`Station`] is the modem's side of the audio with no hardware attached: what is queued for
//! the air, whether it may go, when the key goes down and comes up again, what is heard and what
//! is said of it, and the account of a session. The link engine, the modulator and the receiver
//! stand outside it: their results come in as plain values, and what they are to do next goes out
//! as an [`Order`] or a plain value.
//!
//! # The clock is the audio
//!
//! There is no wall clock here. Time is captured audio samples over the sample rate, because
//! that is the only clock the protocol can actually be late against: a station that thinks a
//! second has passed while its sound card delivered half a second of audio will answer bursts
//! into the middle of them.
//!
//! # Half duplex
//!
//! While this station transmits it cannot hear, so captured audio is discarded rather than
//! decoded, and the busy detector is told to discard it too: the station's own sidetone is not
//! channel occupancy.
use vstd::prelude::*;

use crate::ptt::{KeyClock, Ptt, PttWatchdog};
use crate::record::{event_tree, Recording, Tape};
use crate::regulatory::occupancy::AirOccupancy;
use crate::regulatory::profile::Profile;
use crate::regulatory::{is_policy_named, Authorization, Ceiling, Decision, Direction, Policy, Ruling};
use crate::sessions::Session;
use crate::spectrum::{within_limit, NoiseProfile, PassbandMonitor, SpectrumAnalyser, WINDOW};
use crate::station::account::{Crossing, LinkAccount, Notes, SessionNotes, Traffic};
use crate::station::clock::PlaybackClock;
use crate::station::config::{
    burst_limit, burst_limit_us, microseconds_of, time_of, StationConfig, StationStats, CLOCK_END_US,
};
use crate::station::deliveries::{Deliveries, Delivery, Ledger};
use crate::station::frames::{report_views, FrameReport, Reports, Shown};
use crate::station::gate::{DecisionLog, FrequencyCache, Logged};
use crate::station::meter::{Block, LevelMeter, Totals};
use crate::station::queue::Outgoing;
use crate::text::{cat, views};

pub mod account;
pub mod bearing;
pub mod clock;
pub mod commands;
pub mod conduct;
pub mod config;
pub mod deliveries;
pub mod evidence;
pub mod frames;
pub mod gate;
pub mod grounds;
pub mod laws;
pub mod meter;
pub mod queue;
pub mod receive;
pub mod reckoning;
pub mod rules;
pub mod session;
pub mod transmit;

verus! {

/// Where the session is.
#[derive(Clone, Copy, PartialEq, Eq, Structural, Debug)]
pub enum Phase {
    /// No session, and none asked for.
    Idle,
    /// A call is out.
    Connecting,
    /// A session is up, or being closed.
    Session,
}

/// How the link stands.
#[derive(Debug)]
pub struct Link {
    /// Where the session is.
    pub phase: Phase,
    /// What the link calls that.
    pub word: String,
}

/// What the link engine is to do.
#[derive(Debug)]
pub enum Order {
    /// A transmission is over, at a time.
    TxDone(u64),
    /// A transmission is held back, by so much more.
    TxDelayed(u64),
    /// Close the session now.
    Abort,
    /// The most a burst may be on the air.
    SetMaxBurst(u64),
    /// The fastest rung that may be used.
    SetCeiling(Option<usize>),
    /// The callsigns to answer to.
    SetCallsigns(Vec<String>),
    /// A burst began at a time, seen at another, of a frame so long.
    Preamble(u64, u64, u64),
}

/// The Morse identifier: when it last went out, and what is owed.
#[derive(Clone, Copy, PartialEq, Eq, Structural, Debug)]
pub struct IdentifierState {
    /// When it last went out.
    pub last: Option<u64>,
    /// Whether one is owed for the end of a session.
    pub final_due: bool,
    /// Whether anything was transmitted since it last went out.
    pub transmitted_since: bool,
}

/// One station.
#[derive(Debug)]
pub struct Station<P: Ptt> {
    config: StationConfig,
    ptt: PttWatchdog<P>,
    /// Samples waiting for the sound card.
    queued: u128,
    /// Samples captured.
    audio_seen: u64,
    transmitting: bool,
    /// Whether what is playing is an operator's own test, which may be cut short, and nothing
    /// else may: a burst cut short is a session broken.
    playing_test: bool,
    /// The busy state as last observed, so a change of it is logged exactly once.
    was_busy: bool,
    /// The largest sample handed over during the transmission now running, in millionths of
    /// full scale.
    tx_peak_running: u32,
    /// The same for the last transmission that finished.
    tx_peak_last: Option<u32>,
    /// The clock when a held-back burst was last reported to the engine, while one is held.
    held_since: Option<u64>,
    /// Until when the busy detector ignores what the sound card delivers.
    deaf_until: u64,
    clock: PlaybackClock,
    pending: Vec<Outgoing>,
    meter: LevelMeter,
    recording: Option<Recording>,
    /// Notes the operator gave for the next automatic recording.
    record_notes: Option<String>,
    /// Callsigns given while a session was up, to take effect when it ends.
    pending_callsigns: Option<Vec<String>>,
    delivered: Vec<u8>,
    events: Vec<String>,
    reports: Reports,
    /// The session now up, as the history will record it.
    session_notes: Option<SessionNotes>,
    deliveries: Deliveries,
    finished: Vec<Session>,
    spectrum: SpectrumAnalyser,
    passband: PassbandMonitor,
    passband_next: u64,
    /// Until when a burst is known to be arriving.
    rx_until: u64,
    link: Option<LinkAccount>,
    traffic: Traffic,
    frequency: FrequencyCache,
    /// Application bytes waiting for a session to negotiate compression.
    outbound: Vec<u8>,
    identifier: IdentifierState,
    /// The frames of the burst on the air: how long each is, and whether they are the tone
    /// floor's.
    on_air: Option<(u64, bool)>,
    policy: Policy,
    occupancy: Option<AirOccupancy>,
    /// Leave to key for the transmission rendered and not yet keyed.
    authorized: Option<Authorization>,
    /// Who began the session now up, or the last one.
    session_direction: Option<Direction>,
    ceiling: Option<Ceiling>,
    ceiling_at: Option<u64>,
    decisions: DecisionLog,
    /// The last decision the regulatory gate made, and when.
    last_gate: Option<(u64, Decision)>,
    stats: StationStats,
}

/// What a station is.
pub struct Modem {
    pub config: StationConfig,
    pub key: KeyClock,
    pub queued: u128,
    pub audio_seen: u64,
    pub transmitting: bool,
    pub playing_test: bool,
    pub was_busy: bool,
    pub tx_peak_running: u32,
    pub tx_peak_last: Option<u32>,
    pub held_since: Option<u64>,
    pub deaf_until: u64,
    pub clock: PlaybackClock,
    pub pending: Seq<Outgoing>,
    pub meter: Seq<Block>,
    pub tape: Option<Tape>,
    pub record_notes: Option<Seq<char>>,
    pub pending_callsigns: Option<Seq<Seq<char>>>,
    pub delivered: Seq<u8>,
    pub events: Seq<Seq<char>>,
    pub reports: Shown,
    pub session_notes: Option<Notes>,
    pub deliveries: Ledger,
    pub finished: Seq<Session>,
    pub spectrum: Seq<u32>,
    pub passband: NoiseProfile,
    pub passband_next: u64,
    pub rx_until: u64,
    pub link: Option<LinkAccount>,
    pub traffic: Crossing,
    pub frequency: FrequencyCache,
    pub outbound: Seq<u8>,
    pub identifier: IdentifierState,
    pub on_air: Option<(u64, bool)>,
    pub policy: Policy,
    pub occupancy: Option<AirOccupancy>,
    pub leave: Option<Ruling>,
    pub session_direction: Option<Direction>,
    pub ceiling: Option<(Option<usize>, Option<Ruling>)>,
    pub ceiling_at: Option<u64>,
    pub decisions: Logged,
    pub last_gate: Option<(u64, Ruling)>,
    pub stats: StationStats,
}

/// What a ceiling is.
pub open spec fn ceiling_view(c: Ceiling) -> (Option<usize>, Option<Ruling>) {
    (
        c.rung,
        match c.limit {
            Some(d) => Some(d@),
            None => None,
        },
    )
}

impl Modem {
    /// The station clock.
    pub open spec fn now(self) -> u64 {
        time_of(self.audio_seen as nat, self.config.audio_rate as nat) as u64
    }

    /// Whether the station's parts agree with each other: what it was set up with can be kept
    /// time by, the clocks follow each other, and leave is only held where the rules gave it.
    pub open spec fn wf(self) -> bool {
        &&& self.config.wf()
        &&& self.clock.wf()
        &&& self.spectrum.len() <= WINDOW
        &&& within_limit(self.passband.levels)
        &&& (self.tape matches Some(t) ==> t.wf() && t.sample_rate > 0 && t.t0_us >= 0)
        &&& (self.leave matches Some(r) ==> r.allows())
    }
}

/// The station once the recording, where one runs, was told of something that happened.
pub open spec fn told(m: Modem, us: u64, event: Seq<char>, detail: Seq<char>, word: Seq<char>) -> Modem {
    Modem {
        tape: match m.tape {
            Some(t) => Some(Tape { events: t.events.push(event_tree(us - t.t0_us, event, detail, word)), ..t }),
            None => None,
        },
        ..m
    }
}

/// The station once something was said: to whoever drains the events, and not to the recording.
pub open spec fn said(m: Modem, line: Seq<char>) -> Modem {
    Modem { events: m.events.push(line), ..m }
}

/// The station once something was reported: to whoever drains the events, and to the recording.
pub open spec fn noted_event(m: Modem, event: Seq<char>, detail: Seq<char>, word: Seq<char>) -> Modem {
    told(said(m, event + ":"@ + detail), m.now(), event, detail, word)
}

impl<P: Ptt> View for Station<P> {
    type V = Modem;

    closed spec fn view(&self) -> Modem {
        Modem {
            config: self.config,
            key: self.ptt.clock(),
            queued: self.queued,
            audio_seen: self.audio_seen,
            transmitting: self.transmitting,
            playing_test: self.playing_test,
            was_busy: self.was_busy,
            tx_peak_running: self.tx_peak_running,
            tx_peak_last: self.tx_peak_last,
            held_since: self.held_since,
            deaf_until: self.deaf_until,
            clock: self.clock,
            pending: self.pending@,
            meter: self.meter.kept(),
            tape: match self.recording {
                Some(r) => Some(r@),
                None => None,
            },
            record_notes: match self.record_notes {
                Some(s) => Some(s@),
                None => None,
            },
            pending_callsigns: match self.pending_callsigns {
                Some(v) => Some(views(v@)),
                None => None,
            },
            delivered: self.delivered@,
            events: views(self.events@),
            reports: self.reports@,
            session_notes: match self.session_notes {
                Some(n) => Some(n@),
                None => None,
            },
            deliveries: self.deliveries@,
            finished: self.finished@,
            spectrum: self.spectrum@,
            passband: self.passband@,
            passband_next: self.passband_next,
            rx_until: self.rx_until,
            link: self.link,
            traffic: self.traffic@,
            frequency: self.frequency,
            outbound: self.outbound@,
            identifier: self.identifier,
            on_air: self.on_air,
            policy: self.policy,
            occupancy: self.occupancy,
            leave: match self.authorized {
                Some(a) => Some(a.basis()),
                None => None,
            },
            session_direction: self.session_direction,
            ceiling: match self.ceiling {
                Some(c) => Some(ceiling_view(c)),
                None => None,
            },
            ceiling_at: self.ceiling_at,
            decisions: self.decisions@,
            last_gate: match self.last_gate {
                Some((t, d)) => Some((t, d@)),
                None => None,
            },
            stats: self.stats,
        }
    }
}

/// A setting with another on top, as far as a time goes.
pub open spec fn on_top(a: u64, b: u64) -> u64 {
    if a + b <= u64::MAX { (a + b) as u64 } else { u64::MAX }
}

/// A station just built from its settings.
pub open spec fn is_fresh(m: Modem, config: StationConfig, occupancy: Option<AirOccupancy>, document: Result<Profile, String>) -> bool {
    &&& m == (Modem {
        config: StationConfig { key_tail_us: on_top(config.key_tail_us, config.playback_lead_us), ..config },
        key: KeyClock { limit_us: config.max_key_us, since: None, tripped: false, trips: 0 },
        queued: 0,
        audio_seen: 0,
        transmitting: false,
        playing_test: false,
        was_busy: false,
        tx_peak_running: 0,
        tx_peak_last: None,
        held_since: None,
        deaf_until: 0,
        clock: PlaybackClock::start(),
        pending: Seq::empty(),
        meter: Seq::empty(),
        tape: None,
        record_notes: None,
        pending_callsigns: None,
        delivered: Seq::empty(),
        events: Seq::empty(),
        reports: Shown { fresh: Seq::empty(), last: None },
        session_notes: None,
        deliveries: Ledger { sent: 0, marks: Seq::empty(), fresh: Seq::empty(), recent: Seq::empty() },
        finished: Seq::empty(),
        spectrum: Seq::empty(),
        passband: NoiseProfile { levels: Seq::empty(), bin: 0, seen: 0 },
        passband_next: 0,
        rx_until: 0,
        link: None,
        traffic: Crossing { moved: Seq::empty(), crossed: 0 },
        frequency: FrequencyCache::unknown(),
        outbound: Seq::empty(),
        identifier: IdentifierState { last: None, final_due: false, transmitted_since: false },
        on_air: None,
        policy: m.policy,
        occupancy,
        leave: None,
        session_direction: None,
        ceiling: None,
        ceiling_at: None,
        decisions: Logged { reports: Seq::empty(), last: None },
        last_gate: None,
        stats: StationStats::none(),
    })
    &&& is_policy_named(m.policy, config.regulatory.profile@, document)
}

impl<P: Ptt> Station<P> {
    /// What the radio is keyed through.
    pub closed spec fn radio(self) -> P {
        self.ptt.backend()
    }

    /// Whether the station's parts agree with each other.
    pub closed spec fn wf(self) -> bool {
        &&& self@.wf()
        &&& self.meter.wf()
        &&& self.spectrum.rate() == self.config.audio_rate
        &&& self.meter.span() == self.config.audio_rate as u64 * 3
    }

    /// A station that agrees with itself is one whose parts do.
    pub proof fn parts_agree(self)
        requires
            self.wf(),
        ensures
            self@.wf(),
    {
    }

    /// Build a station. `occupancy` is what its air's transmissions occupy, where that is
    /// measured, and `document` what reading the rules' file gave.
    ///
    /// The key is released when the station's queue runs dry, and at that moment the sound card
    /// still holds a playback lead's worth of what was queued last. The tail of silence is
    /// therefore at least that long, or the radio drops out of transmit with the end of every
    /// burst still to play.
    pub fn new(config: StationConfig, ptt: P, occupancy: Option<AirOccupancy>, document: Result<Profile, String>) -> (r:
        Self)
        requires
            config.wf(),
        ensures
            r.wf(),
            r@.wf(),
            is_fresh(r@, config, occupancy, document),
            r.radio() == ptt,
    {
        let mut config = config;
        config.key_tail_us = if config.playback_lead_us <= u64::MAX - config.key_tail_us {
            config.key_tail_us + config.playback_lead_us
        } else {
            u64::MAX
        };
        let policy = Policy::from_setting(&config.regulatory.profile, document);
        let rate: u32 = config.audio_rate;
        let limit: u64 = config.max_key_us;
        let r = Station {
            config,
            ptt: PttWatchdog::new(ptt, limit),
            queued: 0,
            audio_seen: 0,
            transmitting: false,
            playing_test: false,
            was_busy: false,
            tx_peak_running: 0,
            tx_peak_last: None,
            held_since: None,
            deaf_until: 0,
            clock: PlaybackClock::new(),
            pending: Vec::new(),
            meter: LevelMeter::new(rate as u64 * 3),
            recording: None,
            record_notes: None,
            pending_callsigns: None,
            delivered: Vec::new(),
            events: Vec::new(),
            reports: Reports::new(),
            session_notes: None,
            deliveries: Deliveries::new(),
            finished: Vec::new(),
            spectrum: SpectrumAnalyser::new(rate),
            passband: PassbandMonitor::new(),
            passband_next: 0,
            rx_until: 0,
            link: None,
            traffic: Traffic::new(),
            frequency: FrequencyCache::new(),
            outbound: Vec::new(),
            identifier: IdentifierState { last: None, final_due: false, transmitted_since: false },
            on_air: None,
            policy,
            occupancy,
            authorized: None,
            session_direction: None,
            ceiling: None,
            ceiling_at: None,
            decisions: DecisionLog::new(),
            last_gate: None,
            stats: StationStats::default(),
        };
        proof {
            assert(r.events@.map_values(|s: String| s@) =~= Seq::empty());
            assert(r.pending@ =~= Seq::empty());
            assert(r.delivered@ =~= Seq::empty());
            assert(r.finished@ =~= Seq::empty());
            assert(r.outbound@ =~= Seq::empty());
            assert(views(r.events@) =~= Seq::empty());
        }
        r
    }

    /// How late a burst leaves after the engine decides it: the keying's lead, the playback
    /// lead and the tail.
    pub fn tx_latency_us(&self) -> (r: u128)
        ensures
            r == self@.config.key_lead_us + self@.config.playback_lead_us + self@.config.key_tail_us,
    {
        self.config.key_lead_us as u128 + self.config.playback_lead_us as u128 + self.config.key_tail_us as u128
    }

    /// The most the engine's first bursts may be on the air: the operator's own limit, or what
    /// the key leaves with the identifier's `samples` of Morse on them, for the first
    /// transmission identifies.
    pub fn first_burst_us(&self, samples: u64) -> (r: u64)
        requires
            self.wf(),
        ensures
            r == match self@.config.max_burst_us {
                Some(us) => us as int,
                None => burst_limit(self@.config, Some(samples)),
            },
    {
        match self.config.max_burst_us {
            Some(us) => us,
            None => burst_limit_us(&self.config, Some(samples)),
        }
    }

    /// The station clock, in microseconds of captured audio.
    pub fn now(&self) -> (r: u64)
        requires
            self.wf(),
        ensures
            r == self@.now(),
            r <= CLOCK_END_US,
    {
        microseconds_of(self.audio_seen, self.config.audio_rate)
    }

    /// Whether the radio is keyed.
    pub fn transmitting(&self) -> (r: bool)
        ensures
            r == self@.transmitting,
    {
        self.transmitting
    }

    /// The sound card's playback clock, as the run loop reads it before each top-up: samples the
    /// card has consumed since it opened.
    pub fn device_played(&mut self, played: u64)
        requires
            old(self).wf(),
        ensures
            final(self).wf(),
            final(self).radio() == old(self).radio(),
            final(self)@ == (Modem {
                clock: PlaybackClock { device_played: Some(played), ..old(self)@.clock },
                ..old(self)@
            }),
    {
        self.clock.device_played = Some(played);
    }

    /// Whether the run loop should drop what the sound card still holds (a transmission was cut
    /// short); the request is cleared.
    pub fn take_device_flush(&mut self) -> (r: bool)
        requires
            old(self).wf(),
        ensures
            final(self).wf(),
            final(self).radio() == old(self).radio(),
            r == old(self)@.clock.flush_device,
            final(self)@ == (Modem { clock: PlaybackClock { flush_device: false, ..old(self)@.clock }, ..old(self)@ }),
    {
        let flush: bool = self.clock.flush_device;
        self.clock.flush_device = false;
        flush
    }

    /// Bytes the application has queued that are not yet acknowledged, where the engine still
    /// holds `with_engine`.
    pub fn queued_bytes(&self, with_engine: usize) -> (r: u128)
        ensures
            r == self@.outbound.len() + with_engine,
    {
        self.outbound.len() as u128 + with_engine as u128
    }

    /// How many delivered bytes are waiting to be taken.
    pub fn received_len(&self) -> (r: usize)
        ensures
            r == self@.delivered.len(),
    {
        self.delivered.len()
    }

    /// Bytes received and delivered, taken out of the buffer.
    pub fn take_received(&mut self) -> (r: Vec<u8>)
        requires
            old(self).wf(),
        ensures
            final(self).wf(),
            final(self).radio() == old(self).radio(),
            r@ == old(self)@.delivered,
            final(self)@ == (Modem { delivered: Seq::empty(), ..old(self)@ }),
    {
        let mut out: Vec<u8> = Vec::new();
        std::mem::swap(&mut out, &mut self.delivered);
        proof {
            assert(self.delivered@ =~= Seq::empty());
        }
        out
    }

    /// Events reported since the last call, as `name:detail`.
    pub fn take_events(&mut self) -> (r: Vec<String>)
        requires
            old(self).wf(),
        ensures
            final(self).wf(),
            final(self).radio() == old(self).radio(),
            views(r@) == old(self)@.events,
            final(self)@ == (Modem { events: Seq::empty(), ..old(self)@ }),
    {
        let mut out: Vec<String> = Vec::new();
        std::mem::swap(&mut out, &mut self.events);
        proof {
            assert(views(self.events@) =~= Seq::empty());
        }
        out
    }

    /// What the station is running with, as last applied.
    pub fn config(&self) -> (r: &StationConfig)
        ensures
            *r == self@.config,
    {
        &self.config
    }

    /// Frames reported since the last call.
    pub fn take_frame_reports(&mut self) -> (r: Vec<FrameReport>)
        requires
            old(self).wf(),
        ensures
            final(self).wf(),
            final(self).radio() == old(self).radio(),
            report_views(r@) == old(self)@.reports.fresh,
            final(self)@ == (Modem { reports: Shown { fresh: Seq::empty(), ..old(self)@.reports }, ..old(self)@ }),
    {
        self.reports.take()
    }

    /// Sessions that ended since the last call, for the history. Their wall-clock times are the
    /// caller's to give.
    pub fn take_finished_sessions(&mut self) -> (r: Vec<Session>)
        requires
            old(self).wf(),
        ensures
            final(self).wf(),
            final(self).radio() == old(self).radio(),
            r@ == old(self)@.finished,
            final(self)@ == (Modem { finished: Seq::empty(), ..old(self)@ }),
    {
        let mut out: Vec<Session> = Vec::new();
        std::mem::swap(&mut out, &mut self.finished);
        proof {
            assert(self.finished@ =~= Seq::empty());
        }
        out
    }

    /// The last frame the physical layer found, decoded or not.
    pub fn last_frame(&self) -> (r: Option<&FrameReport>)
        ensures
            match r {
                Some(x) => self@.reports.last == Some(x@),
                None => self@.reports.last is None,
            },
    {
        self.reports.last()
    }

    /// Whether a burst is arriving right now.
    pub fn receiving(&self) -> (r: bool)
        requires
            self.wf(),
        ensures
            r == (!self@.transmitting && self@.now() < self@.rx_until),
    {
        !self.transmitting && self.now() < self.rx_until
    }

    /// The session's account, while one is up.
    pub fn link(&self) -> (r: Option<LinkAccount>)
        ensures
            r == self@.link,
    {
        self.link
    }

    /// Payload bits that crossed the air in either direction over the last half minute of the
    /// session, in thousandths of a bit per second. Zero when no session is up.
    pub fn throughput_milli_bps(&self) -> (r: u128)
        requires
            self.wf(),
            crate::station::account::moved_within(self@.traffic.moved, self@.now(), self@.traffic.moved.len()) <= u64::MAX,
        ensures
            r as nat == crate::station::account::throughput(self@.traffic, self@.link, self@.now()),
    {
        let now: u64 = self.now();
        self.traffic.throughput_milli_bps(self.link, now)
    }

    /// What the last few seconds of received audio measure.
    pub fn audio_level(&self) -> (r: Totals)
        requires
            self.wf(),
        ensures
            r.power as nat == crate::station::meter::powers(self@.meter),
            r.peak == crate::station::meter::loudest(self@.meter),
            r.clipped as nat == crate::station::meter::clips(self@.meter),
            r.held as nat == crate::station::meter::lengths(self@.meter),
            r.settled == (crate::station::meter::lengths(self@.meter) >= self@.config.audio_rate as nat * 3 / 2),
    {
        self.meter.totals()
    }

    /// The window of audio to take a spectrum of, once one has been heard.
    pub fn spectrum(&self) -> (r: Option<&Vec<u32>>)
        ensures
            match r {
                Some(v) => self@.spectrum.len() == WINDOW && v@ == self@.spectrum,
                None => self@.spectrum.len() != WINDOW,
            },
    {
        self.spectrum.compute()
    }

    /// What the radio is keyed through.
    pub fn ptt_description(&self) -> (r: String)
        ensures
            call_ensures(P::describe, (&self.radio(),), r),
    {
        self.ptt.describe()
    }

    /// Why this station cannot transmit, when its keying interface could not be opened.
    pub fn ptt_fault(&self) -> (r: Option<String>)
        ensures
            call_ensures(P::fault, (&self.radio(),), r),
    {
        self.ptt.fault()
    }

    /// Whether the keying interface can tune the radio.
    pub fn can_tune(&self) -> (r: bool)
        ensures
            call_ensures(P::can_tune, (&self.radio(),), r),
    {
        self.ptt.can_tune()
    }

    /// Deliveries resolved since the last call.
    pub fn take_deliveries(&mut self) -> (r: Vec<Delivery>)
        requires
            old(self).wf(),
        ensures
            final(self).wf(),
            final(self).radio() == old(self).radio(),
            crate::station::deliveries::outcome_views(r@) == old(self)@.deliveries.fresh,
            final(self)@ == (Modem { deliveries: Ledger { fresh: Seq::empty(), ..old(self)@.deliveries }, ..old(self)@ }),
    {
        self.deliveries.take()
    }

    /// The references still waiting, oldest first, and the last deliveries resolved.
    pub fn delivery_status(&self) -> (r: (Vec<String>, &Vec<Delivery>))
        ensures
            views(r.0@) == self@.deliveries.marks.map_values(|m: crate::station::deliveries::Mark| m.reference),
            crate::station::deliveries::outcome_views(r.1@) == self@.deliveries.recent,
    {
        (self.deliveries.waiting(), self.deliveries.recent())
    }

    /// The counters.
    pub fn stats(&self) -> (r: StationStats)
        ensures
            r == self@.stats,
    {
        self.stats
    }

    /// The peak of the last transmission, in millionths of full scale. Nothing until this
    /// station has transmitted.
    pub fn tx_peak(&self) -> (r: Option<u32>)
        ensures
            r == self@.tx_peak_last,
    {
        self.tx_peak_last
    }

    /// Samples waiting for the sound card.
    pub fn queued(&self) -> (r: u128)
        ensures
            r == self@.queued,
    {
        self.queued
    }

    /// How many transmissions are waiting.
    pub fn waiting_to_go(&self) -> (r: usize)
        ensures
            r == self@.pending.len(),
    {
        self.pending.len()
    }

    /// Tell the recording, where one runs, of something that happened.
    fn tell(&mut self, us: u64, event: &str, detail: &str, word: &str)
        requires
            old(self).wf(),
            us <= CLOCK_END_US,
        ensures
            final(self).wf(),
            final(self).radio() == old(self).radio(),
            final(self)@ == told(old(self)@, us, event@, detail@, word@),
    {
        match &mut self.recording {
            Some(r) => r.event(us as i64, event, detail, word),
            None => {},
        }
    }

    /// Say something to whoever drains the events.
    fn say(&mut self, line: String)
        requires
            old(self).wf(),
        ensures
            final(self).wf(),
            final(self).radio() == old(self).radio(),
            final(self)@ == said(old(self)@, line@),
    {
        let ghost before = self.events@;
        self.events.push(line);
        proof {
            assert(views(self.events@) =~= views(before).push(line@));
        }
    }

    /// Report something: to whoever drains the events, and to the recording.
    pub fn note(&mut self, event: &str, detail: &str, word: &str)
        requires
            old(self).wf(),
        ensures
            final(self).wf(),
            final(self).radio() == old(self).radio(),
            final(self)@ == noted_event(old(self)@, event@, detail@, word@),
    {
        let mut line = cat(event, ":");
        line.append(detail);
        self.say(line);
        let now: u64 = self.now();
        self.tell(now, event, detail, word);
    }
}

} // verus!
