//! The regulatory gate: every transmission, whatever it is, is judged before it is rendered, and
//! keyed only with the leave the policy gives.
//!
//! Times are in microseconds of the station's clock.
use vstd::prelude::*;

use crate::regulatory::occupancy::{
    clip, clipped, AirOccupancy, Edges, Millihertz, CW_HALF_WIDTH_HZ, TONE_HALF_WIDTH_HZ,
};
use crate::regulatory::{
    dial_views, first_refused, is_floor, ladder_edges, rung_emission, Authorization, Ceiling, ControlMode,
    Decision, DialSource, Direction, Emission, EmissionKind, LicenseClass, Policy, Ruling, SafeDial, Settings,
    Sideband, Situation, Transmission, Verdict,
};
use crate::station::frames::Container;
use crate::station::queue::{DataKind, Outgoing, TxFrame};
use crate::text::{cat, digits, lowercase, same, strip_prefixes, to_lower, whole, without_prefixes};

verus! {

/// How old the radio's reading of its dial may be when a transmission is judged: older, and it
/// is asked again first, for the dial may have moved since.
pub const DIAL_FRESH_US: u64 = 2_000_000;

/// How old a reading may be and still stand for the dial at all, when the radio does not answer
/// the fresh question.
pub const DIAL_STALE_US: u64 = 15_000_000;

/// How long a radio that answered is left alone.
pub const ASK_AGAIN_US: u64 = 10_000_000;

/// How long a radio that did not answer is left alone.
pub const ASK_LATER_US: u64 = 60_000_000;

/// How often the regulatory ceiling on the link's rungs is worked out again.
pub const CEILING_EVERY_US: u64 = 500_000;

/// Decisions held for the daemon between two calls that take them.
pub const MAX_UNTAKEN_DECISIONS: usize = 64;

/// How long a refusal of the same kind goes unreported after the last: the regulatory gate refuses every
/// time, the log says so once.
pub const REPORT_QUIET_US: u64 = 10_000_000;

/// The audio the modem occupies is centred here, in thousandths of a hertz.
pub const AUDIO_CENTER: i64 = 1_500_000;

/// The dial frequency, asked of the radio now and then rather than on every frame.
#[derive(Clone, Copy, PartialEq, Eq, Structural, Debug)]
pub struct FrequencyCache {
    /// What the radio last said, hertz.
    pub value: Option<u64>,
    /// When it may be asked again.
    pub next_ask_us: u64,
    /// When it last said (or took a tune).
    pub read_at_us: Option<u64>,
}

/// So much later, as far as the clock goes.
pub open spec fn later(now_us: u64, by: u64) -> u64 {
    if now_us + by <= u64::MAX { (now_us + by) as u64 } else { u64::MAX }
}

fn after(now_us: u64, by: u64) -> (r: u64)
    ensures
        r == later(now_us, by),
{
    if now_us <= u64::MAX - by { now_us + by } else { u64::MAX }
}

/// Whether more than a while has passed since a moment.
pub open spec fn past(then: u64, now_us: u64, while_us: u64) -> bool {
    now_us - then > while_us
}

fn is_past(then: u64, now_us: u64, while_us: u64) -> (r: bool)
    ensures
        r == past(then, now_us, while_us),
{
    now_us > then && now_us - then > while_us
}

impl FrequencyCache {
    /// Nothing known yet.
    pub open spec fn unknown() -> FrequencyCache {
        FrequencyCache { value: None, next_ask_us: 0, read_at_us: None }
    }

    /// Nothing known yet.
    pub fn new() -> (r: Self)
        ensures
            r == FrequencyCache::unknown(),
    {
        FrequencyCache { value: None, next_ask_us: 0, read_at_us: None }
    }

    /// What is known once the radio was asked for a display: asked at most every ten seconds,
    /// every minute after it did not answer.
    pub open spec fn polled(self, now_us: u64, answer: Option<u64>) -> FrequencyCache {
        match answer {
            Some(hz) => FrequencyCache {
                value: Some(hz),
                next_ask_us: later(now_us, ASK_AGAIN_US),
                read_at_us: Some(now_us),
            },
            None => FrequencyCache { next_ask_us: later(now_us, ASK_LATER_US), ..self },
        }
    }

    /// What is known once the radio was asked before a transmission: no answer changes nothing.
    pub open spec fn refreshed(self, now_us: u64, answer: Option<u64>) -> FrequencyCache {
        match answer {
            Some(hz) => FrequencyCache {
                value: Some(hz),
                next_ask_us: later(now_us, ASK_AGAIN_US),
                read_at_us: Some(now_us),
            },
            None => self,
        }
    }

    /// What is known once the radio took a tune.
    pub open spec fn tuned(self, now_us: u64, hz: u64) -> FrequencyCache {
        FrequencyCache { value: Some(hz), next_ask_us: later(now_us, DIAL_FRESH_US), read_at_us: Some(now_us) }
    }

    /// Whether the radio is asked for a display: not while transmitting, and not too often.
    pub open spec fn may_poll(self, now_us: u64, transmitting: bool) -> bool {
        !transmitting && now_us >= self.next_ask_us
    }

    /// Whether the reading is too old for a transmission to be judged by.
    pub open spec fn stale(self, now_us: u64) -> bool {
        match self.read_at_us {
            Some(t) => past(t, now_us, DIAL_FRESH_US),
            None => true,
        }
    }

    /// Whether the reading still stands for the dial at all.
    pub open spec fn stands(self, now_us: u64) -> bool {
        match self.read_at_us {
            Some(t) => !past(t, now_us, DIAL_STALE_US),
            None => false,
        }
    }

    /// Take the radio's answer for a display.
    pub fn poll(self, now_us: u64, answer: Option<u64>) -> (r: Self)
        ensures
            r == self.polled(now_us, answer),
    {
        match answer {
            Some(hz) => FrequencyCache {
                value: Some(hz),
                next_ask_us: after(now_us, ASK_AGAIN_US),
                read_at_us: Some(now_us),
            },
            None => FrequencyCache {
                value: self.value,
                next_ask_us: after(now_us, ASK_LATER_US),
                read_at_us: self.read_at_us,
            },
        }
    }

    /// Take the radio's answer before a transmission.
    pub fn refresh(self, now_us: u64, answer: Option<u64>) -> (r: Self)
        ensures
            r == self.refreshed(now_us, answer),
    {
        match answer {
            Some(hz) => FrequencyCache {
                value: Some(hz),
                next_ask_us: after(now_us, ASK_AGAIN_US),
                read_at_us: Some(now_us),
            },
            None => self,
        }
    }

    /// The radio took a tune: what it now reads, and a fresh reading soon after.
    pub fn tune(self, now_us: u64, hz: u64) -> (r: Self)
        ensures
            r == self.tuned(now_us, hz),
    {
        FrequencyCache { value: Some(hz), next_ask_us: after(now_us, DIAL_FRESH_US), read_at_us: Some(now_us) }
    }
}

/// A dial in thousandths of a hertz.
pub open spec fn dial_of(hz: u64) -> Millihertz {
    clip(hz * 1000) as i64
}

fn dial_from(hz: u64) -> (r: Millihertz)
    ensures
        r == dial_of(hz),
{
    clipped((hz as i128) * 1000)
}

/// The situation the rules judge: the dial is the radio's, while its reading stands, where the
/// radio can report it, or the one the operator entered; unknown otherwise.
pub open spec fn situation_of(
    settings: Settings,
    power_mw: Option<i64>,
    can_tune: bool,
    frequency: FrequencyCache,
    now_us: u64,
) -> Situation {
    let dial = if can_tune {
        match frequency.value {
            Some(hz) => if frequency.stands(now_us) { Some(dial_of(hz)) } else { None },
            None => None,
        }
    } else {
        match settings.dial_hz {
            Some(hz) => Some(dial_of(hz)),
            None => None,
        }
    };
    Situation {
        dial,
        dial_source: if dial is None {
            None
        } else if can_tune {
            Some(DialSource::Radio)
        } else {
            Some(DialSource::Declared)
        },
        sideband: settings.sideband,
        control: settings.control,
        license: settings.license,
        itu_region: settings.itu_region,
        margin: settings.margin,
        band_plan: settings.band_plan,
        power_mw,
    }
}

/// The situation the rules judge.
pub fn situation_from(
    settings: &Settings,
    power_mw: Option<i64>,
    can_tune: bool,
    frequency: FrequencyCache,
    now_us: u64,
) -> (r: Situation)
    ensures
        r == situation_of(*settings, power_mw, can_tune, frequency, now_us),
{
    let dial: Option<Millihertz> = if can_tune {
        let stands: bool = match frequency.read_at_us {
            Some(t) => !is_past(t, now_us, DIAL_STALE_US),
            None => false,
        };
        match frequency.value {
            Some(hz) => if stands { Some(dial_from(hz)) } else { None },
            None => None,
        }
    } else {
        match settings.dial_hz {
            Some(hz) => Some(dial_from(hz)),
            None => None,
        }
    };
    Situation {
        dial,
        dial_source: if dial.is_none() {
            None
        } else if can_tune {
            Some(DialSource::Radio)
        } else {
            Some(DialSource::Declared)
        },
        sideband: settings.sideband,
        control: settings.control,
        license: settings.license,
        itu_region: settings.itu_region,
        margin: settings.margin,
        band_plan: settings.band_plan,
        power_mw,
    }
}

/// What a frame occupies, where it is measured.
pub open spec fn frame_edges(air: AirOccupancy, f: TxFrame) -> Option<Edges> {
    match f.container {
        Container::Data => if f.mode < air.rungs@.len() { Some(air.rungs@[f.mode as int].edges) } else { None },
        Container::Control => Some(air.controls(f.floor)),
    }
}

/// The first frame, from `from` on, that is not measured.
pub open spec fn first_unmeasured(air: AirOccupancy, frames: Seq<TxFrame>, from: nat) -> nat
    decreases frames.len() - from,
{
    if from >= frames.len() || frame_edges(air, frames[from as int]) is None {
        from
    } else {
        first_unmeasured(air, frames, from + 1)
    }
}

/// What the first `n` frames of a burst occupy together.
pub open spec fn burst_edges(air: AirOccupancy, frames: Seq<TxFrame>, n: nat) -> Edges
    recommends
        0 < n <= frames.len(),
    decreases n,
{
    let own = frame_edges(air, frames[n - 1])->0;
    if n <= 1 { own } else { burst_edges(air, frames, (n - 1) as nat).with(own) }
}

/// What a burst of frames is, in words, and who began its exchange: a call, a probe and a beacon
/// start one; an acceptance and a probe's answer answer one; everything else belongs to the
/// session.
pub open spec fn burst_words(air: AirOccupancy, frames: Seq<TxFrame>, session: Direction) -> (Seq<char>, Direction) {
    if frames.len() == 0 {
        ("nothing"@, session)
    } else {
        let first = frames[0];
        match first.container {
            Container::Data => match first.data {
                Some(DataKind::ConnectReq) => ("a call"@, Direction::Originate),
                Some(DataKind::ConnectAck) => ("the answer to a call"@, Direction::Respond),
                Some(DataKind::Beacon) => ("a beacon"@, Direction::Originate),
                Some(DataKind::Probe) => ("a probe"@, Direction::Originate),
                Some(DataKind::ProbeAck) => ("the answer to a probe"@, Direction::Respond),
                Some(DataKind::Datagram) => ("a KISS client's datagram"@, Direction::Originate),
                _ => (
                    "a data burst at rung "@ + digits(first.mode as nat) + " ("@ + (if first.mode < air.rungs@.len() {
                        air.rungs@[first.mode as int].name@
                    } else {
                        ""@
                    }) + ")"@,
                    session,
                ),
            },
            Container::Control => (
                "a "@ + lowercase(
                    match first.control {
                        Some(kind) => kind@,
                        None => "control"@,
                    },
                ) + " frame"@,
                session,
            ),
        }
    }
}

/// A burst of frames as the rules class it, or why it cannot be classed.
pub open spec fn burst_emission(
    air: AirOccupancy,
    frames: Seq<TxFrame>,
    drive: bool,
    session: Direction,
) -> Result<Emission, Seq<char>> {
    let bad = first_unmeasured(air, frames, 0);
    if bad < frames.len() {
        Err("rung "@ + digits(frames[bad as int].mode as nat) + " is not measured"@)
    } else if frames.len() == 0 {
        Err("an empty burst"@)
    } else {
        let (what, direction) = if drive {
            ("a drive burst"@, Direction::Operator)
        } else {
            burst_words(air, frames, session)
        };
        Ok(Emission { what, kind: EmissionKind::Data, audio: burst_edges(air, frames, frames.len()), direction })
    }
}

/// The audio a tone occupies.
pub open spec fn tone_edges(centre: Millihertz, half: Millihertz) -> Edges {
    let low = clip(centre - half) as i64;
    let high = clip(centre + half) as i64;
    Edges { power: (low, high), spectral: (low, high) }
}

/// What the Morse identifier is, as the rules class it.
pub open spec fn identifier_emission(tone: Millihertz, direction: Option<Direction>) -> Emission {
    Emission {
        what: "the Morse identifier"@,
        kind: EmissionKind::Cw,
        audio: tone_edges(tone, CW_HALF_WIDTH_HZ),
        direction: match direction {
            Some(d) => d,
            None => Direction::Originate,
        },
    }
}

/// What is known of the station that a queued transmission is classed by.
#[derive(Clone, Copy, PartialEq, Eq, Structural, Debug)]
pub struct Bearings {
    /// The air's nominal bandwidth, hertz.
    pub bandwidth_hz: u64,
    /// Who began the session now up, or the last one.
    pub session_direction: Option<Direction>,
    /// The identifier's tone, where one is set.
    pub cw_tone: Option<Millihertz>,
}

impl Bearings {
    /// Who began the exchange of a frame that does not say.
    pub open spec fn standing(self) -> Direction {
        match self.session_direction {
            Some(d) => d,
            None => Direction::Originate,
        }
    }

    /// The tone an identifier would have.
    pub open spec fn tone(self) -> Millihertz {
        match self.cw_tone {
            Some(t) => t,
            None => AUDIO_CENTER,
        }
    }
}

/// What a queued transmission is, as the rules class it: how wide, and who began it.
pub open spec fn emission_of(air: Option<AirOccupancy>, o: Outgoing, b: Bearings) -> Result<Emission, Seq<char>> {
    match air {
        None => Err("nothing is measured for the "@ + digits(b.bandwidth_hz as nat) + " Hz air"@),
        Some(air) => match o {
            Outgoing::Frames(frames) => burst_emission(air, frames@, false, b.standing()),
            Outgoing::Drive(frames) => burst_emission(air, frames@, true, b.standing()),
            Outgoing::Datagram(frames, _, _) => burst_emission(air, frames@, false, b.standing()),
            Outgoing::Identifier => Ok(identifier_emission(b.tone(), b.session_direction)),
            Outgoing::Audio(_, silent, _) => Ok(
                if silent {
                    Emission {
                        what: "a keying test"@,
                        kind: EmissionKind::Nothing,
                        audio: tone_edges(AUDIO_CENTER, 0),
                        direction: Direction::Operator,
                    }
                } else {
                    Emission {
                        what: "the tune tone"@,
                        kind: EmissionKind::Test,
                        audio: tone_edges(AUDIO_CENTER, TONE_HALF_WIDTH_HZ),
                        direction: Direction::Operator,
                    }
                },
            ),
            Outgoing::Pause(_, _) => Err("a pause is not a transmission"@),
        },
    }
}

fn edges_of(air: &AirOccupancy, f: &TxFrame) -> (r: Option<Edges>)
    ensures
        r == frame_edges(*air, *f),
{
    match f.container {
        Container::Data => air.rung(f.mode),
        Container::Control => Some(air.control(f.floor)),
    }
}

/// What a burst of frames is, in words, and who began its exchange.
pub fn describe_frames(air: &AirOccupancy, frames: &Vec<TxFrame>, session: Direction) -> (r: (String, Direction))
    ensures
        (r.0@, r.1) == burst_words(*air, frames@, session),
{
    if frames.len() == 0 {
        return ("nothing".to_owned(), session);
    }
    let first = &frames[0];
    match first.container {
        Container::Data => match first.data {
            Some(DataKind::ConnectReq) => ("a call".to_owned(), Direction::Originate),
            Some(DataKind::ConnectAck) => ("the answer to a call".to_owned(), Direction::Respond),
            Some(DataKind::Beacon) => ("a beacon".to_owned(), Direction::Originate),
            Some(DataKind::Probe) => ("a probe".to_owned(), Direction::Originate),
            Some(DataKind::ProbeAck) => ("the answer to a probe".to_owned(), Direction::Respond),
            Some(DataKind::Datagram) => ("a KISS client's datagram".to_owned(), Direction::Originate),
            _ => {
                let mut s = cat("a data burst at rung ", &whole(first.mode as u128));
                s.append(" (");
                if first.mode < air.rungs.len() {
                    s.append(&air.rungs[first.mode].name);
                } else {
                    s.append("");
                }
                s.append(")");
                (s, session)
            },
        },
        Container::Control => {
            let kind = match &first.control {
                Some(kind) => kind.clone(),
                None => "control".to_owned(),
            };
            let mut s = cat("a ", &to_lower(&kind));
            s.append(" frame");
            (s, session)
        },
    }
}

fn class_burst(air: &AirOccupancy, frames: &Vec<TxFrame>, drive: bool, session: Direction) -> (r: Result<
    Transmission,
    String,
>)
    ensures
        match r {
            Ok(tx) => burst_emission(*air, frames@, drive, session) == Ok::<Emission, Seq<char>>(tx@),
            Err(why) => burst_emission(*air, frames@, drive, session) == Err::<Emission, Seq<char>>(why@),
        },
{
    let mut edges: Option<Edges> = None;
    let mut i: usize = 0;
    while i < frames.len()
        invariant
            i <= frames.len(),
            first_unmeasured(*air, frames@, 0) == first_unmeasured(*air, frames@, i as nat),
            i == 0 ==> edges is None,
            i > 0 ==> edges == Some(burst_edges(*air, frames@, i as nat)),
        decreases frames.len() - i,
    {
        match edges_of(air, &frames[i]) {
            Some(own) => {
                edges = match edges {
                    Some(so_far) => Some(so_far.union(own)),
                    None => Some(own),
                };
            },
            None => {
                let mut s = cat("rung ", &whole(frames[i].mode as u128));
                s.append(" is not measured");
                return Err(s);
            },
        }
        i += 1;
    }
    let audio = match edges {
        Some(e) => e,
        None => return Err("an empty burst".to_owned()),
    };
    let (what, direction): (String, Direction) = if drive {
        ("a drive burst".to_owned(), Direction::Operator)
    } else {
        describe_frames(air, frames, session)
    };
    Ok(Transmission { what, kind: EmissionKind::Data, audio, direction })
}

/// What a queued transmission is, as the rules class it: how wide, and who began it.
pub fn transmission_of(air: &Option<AirOccupancy>, o: &Outgoing, b: &Bearings) -> (r: Result<Transmission, String>)
    ensures
        match r {
            Ok(tx) => emission_of(*air, *o, *b) == Ok::<Emission, Seq<char>>(tx@),
            Err(why) => emission_of(*air, *o, *b) == Err::<Emission, Seq<char>>(why@),
        },
{
    let air = match air {
        Some(a) => a,
        None => {
            let mut s = cat("nothing is measured for the ", &whole(b.bandwidth_hz as u128));
            s.append(" Hz air");
            return Err(s);
        },
    };
    let session: Direction = match b.session_direction {
        Some(d) => d,
        None => Direction::Originate,
    };
    match o {
        Outgoing::Frames(frames) => class_burst(air, frames, false, session),
        Outgoing::Drive(frames) => class_burst(air, frames, true, session),
        Outgoing::Datagram(frames, _, _) => class_burst(air, frames, false, session),
        Outgoing::Identifier => {
            let tone: Millihertz = match b.cw_tone {
                Some(t) => t,
                None => AUDIO_CENTER,
            };
            Ok(
                Transmission {
                    what: "the Morse identifier".to_owned(),
                    kind: EmissionKind::Cw,
                    audio: Edges::tone(tone, CW_HALF_WIDTH_HZ),
                    direction: session,
                },
            )
        },
        Outgoing::Audio(_, silent, _) => if *silent {
            Ok(
                Transmission {
                    what: "a keying test".to_owned(),
                    kind: EmissionKind::Nothing,
                    audio: Edges::tone(AUDIO_CENTER, 0),
                    direction: Direction::Operator,
                },
            )
        } else {
            Ok(
                Transmission {
                    what: "the tune tone".to_owned(),
                    kind: EmissionKind::Test,
                    audio: Edges::tone(AUDIO_CENTER, TONE_HALF_WIDTH_HZ),
                    direction: Direction::Operator,
                },
            )
        },
        Outgoing::Pause(_, _) => Err("a pause is not a transmission".to_owned()),
    }
}

/// What the regulatory gate says of a queued transmission.
pub open spec fn gate_ruling(policy: Policy, s: Situation, judged: Result<Emission, Seq<char>>) -> Ruling {
    match judged {
        Ok(tx) => policy.ruling(s, tx),
        Err(why) => policy.unmeasured_ruling(s, "this transmission"@, why),
    }
}

/// Judge a queued transmission: leave to send it, or the refusal.
pub fn judge(policy: &Policy, s: &Situation, judged: Result<Transmission, String>) -> (r: Result<
    Authorization,
    Box<Decision>,
>)
    ensures
        ({
            let e: Result<Emission, Seq<char>> = match judged {
                Ok(tx) => Ok(tx@),
                Err(why) => Err(why@),
            };
            match r {
                Ok(leave) => gate_ruling(*policy, *s, e).allows() && leave.basis() == gate_ruling(*policy, *s, e),
                Err(refusal) => !gate_ruling(*policy, *s, e).allows() && (*refusal)@ == gate_ruling(*policy, *s, e),
            }
        }),
{
    match judged {
        Ok(tx) => policy.authorize(s, &tx),
        Err(why) => Err(Box::new(policy.unmeasured(s, "this transmission", &why))),
    }
}

/// A transmission whose spectrum is not known is never allowed, whatever the policy.
pub proof fn what_is_not_measured_is_refused(policy: Policy, s: Situation, why: Seq<char>)
    ensures
        !gate_ruling(policy, s, Err(why)).allows(),
{
}

/// What was last reported: the decision's word, what it was about, and when.
#[derive(Debug)]
pub struct LastReport {
    /// The decision's word.
    pub code: &'static str,
    /// What it was about.
    pub what: String,
    /// When.
    pub at_us: u64,
}

/// Decisions for the log and the clients.
#[derive(Debug)]
pub struct DecisionLog {
    reports: Vec<Decision>,
    last: Option<LastReport>,
}

/// What the log of decisions is.
pub struct Logged {
    pub reports: Seq<Ruling>,
    pub last: Option<(Seq<char>, Seq<char>, u64)>,
}

/// What a run of decisions is.
pub open spec fn ruling_views(s: Seq<Decision>) -> Seq<Ruling> {
    s.map_values(|d: Decision| d@)
}

impl View for DecisionLog {
    type V = Logged;

    closed spec fn view(&self) -> Logged {
        Logged {
            reports: ruling_views(self.reports@),
            last: match self.last {
                Some(l) => Some((l.code@, l.what@, l.at_us)),
                None => None,
            },
        }
    }
}

/// Whether a decision is the last one again, a moment later.
pub open spec fn repeats(l: Logged, d: Ruling, now_us: u64) -> bool {
    match l.last {
        Some((code, what, at)) => code == d.code && what == d.what && now_us - at < REPORT_QUIET_US,
        None => false,
    }
}

/// The log with a decision in it, unless the same one went a moment ago.
pub open spec fn logged_with(l: Logged, d: Ruling, now_us: u64) -> Logged {
    if repeats(l, d, now_us) {
        l
    } else {
        Logged {
            reports: (if l.reports.len() >= MAX_UNTAKEN_DECISIONS { l.reports.drop_first() } else { l.reports }).push(d),
            last: Some((d.code, d.what, now_us)),
        }
    }
}

impl DecisionLog {
    /// Nothing decided yet.
    pub fn new() -> (r: Self)
        ensures
            r@ == (Logged { reports: Seq::empty(), last: None }),
    {
        let r = DecisionLog { reports: Vec::new(), last: None };
        proof {
            assert(ruling_views(r.reports@) =~= Seq::empty());
        }
        r
    }

    /// Put a decision in the log's and the clients' queue, unless the same one went a moment ago.
    pub fn report(&mut self, d: &Decision, now_us: u64)
        ensures
            final(self)@ == logged_with(old(self)@, d@, now_us),
    {
        let again: bool = match &self.last {
            Some(l) => same(l.code, d.code) && same(&l.what, &d.what) && (now_us < l.at_us || now_us - l.at_us
                < REPORT_QUIET_US),
            None => false,
        };
        if again {
            return;
        }
        self.last = Some(LastReport { code: d.code, what: d.what.clone(), at_us: now_us });
        let ghost before = self.reports@;
        if self.reports.len() >= MAX_UNTAKEN_DECISIONS {
            let _ = self.reports.remove(0);
            proof {
                assert(ruling_views(self.reports@) =~= ruling_views(before).drop_first());
            }
        }
        let ghost kept = self.reports@;
        let copy = d.clone();
        self.reports.push(copy);
        proof {
            assert(ruling_views(self.reports@) =~= ruling_views(kept).push(copy@));
        }
    }

    /// Decisions to log and publish since the last call.
    pub fn take(&mut self) -> (r: Vec<Decision>)
        ensures
            ruling_views(r@) == old(self)@.reports,
            final(self)@ == (Logged { reports: Seq::empty(), ..old(self)@ }),
    {
        let mut out: Vec<Decision> = Vec::new();
        std::mem::swap(&mut out, &mut self.reports);
        proof {
            assert(ruling_views(self.reports@) =~= Seq::empty());
        }
        out
    }
}

/// Who began the exchange the next transmission belongs to, outside a frame that says: the
/// session's direction while one is up, or, for a station with none, an answer when it is
/// automatically controlled and a call otherwise.
pub open spec fn standing_direction(idle: bool, session: Option<Direction>, control: Option<ControlMode>) -> Direction {
    if !idle && session is Some {
        session->0
    } else if control == Some(ControlMode::Automatic) {
        Direction::Respond
    } else {
        Direction::Originate
    }
}

/// Who began the exchange the next transmission belongs to.
pub fn direction_now(idle: bool, session: Option<Direction>, control: Option<ControlMode>) -> (r: Direction)
    ensures
        r == standing_direction(idle, session, control),
{
    if !idle {
        match session {
            Some(d) => return d,
            None => {},
        }
    }
    match control {
        Some(ControlMode::Automatic) => Direction::Respond,
        _ => Direction::Originate,
    }
}

/// What the engine is told of a ceiling: no limit where no rules apply, and the least where
/// nothing is allowed (the regulatory gate refuses whatever the engine offers).
pub open spec fn engine_ceiling(policy: Policy, rung: Option<usize>) -> Option<usize> {
    match policy {
        Policy::NoProfile => None,
        _ => Some(
            match rung {
                Some(r) => r,
                None => 0,
            },
        ),
    }
}

/// What the engine is told of a ceiling.
pub fn ceiling_for_engine(policy: &Policy, ceiling: &Ceiling) -> (r: Option<usize>)
    ensures
        r == engine_ceiling(*policy, ceiling.rung),
{
    match policy {
        Policy::NoProfile => None,
        _ => Some(
            match ceiling.rung {
                Some(r) => r,
                None => 0,
            },
        ),
    }
}

/// The audio of a transmission that is asked about: a rung's where it is data, no wider than the
/// ladder goes; nothing where it radiates nothing; a tone's otherwise.
pub open spec fn asked_audio(air: AirOccupancy, kind: EmissionKind, rung: Option<usize>) -> Edges {
    match (kind, rung) {
        (EmissionKind::Data, Some(r)) => if air.rungs@.len() == 0 {
            air.control_floor
        } else if r < air.rungs@.len() {
            air.rungs@[r as int].edges
        } else {
            air.rungs@[air.rungs@.len() - 1].edges
        },
        (EmissionKind::Nothing, _) => tone_edges(AUDIO_CENTER, 0),
        _ => tone_edges(AUDIO_CENTER, TONE_HALF_WIDTH_HZ),
    }
}

/// What the rules say of a transmission that is asked about.
pub open spec fn asked_ruling(
    policy: Policy,
    air: Option<AirOccupancy>,
    s: Situation,
    direction: Direction,
    kind: EmissionKind,
    rung: Option<usize>,
    what: Seq<char>,
) -> Ruling {
    match air {
        None => policy.unmeasured_ruling(s, what, "nothing is measured for this air"@),
        Some(air) => policy.ruling(s, Emission { what, kind, audio: asked_audio(air, kind, rung), direction }),
    }
}

/// Whether the rules allow a transmission that is asked about, or the refusal.
pub fn check(
    policy: &Policy,
    air: &Option<AirOccupancy>,
    s: &Situation,
    direction: Direction,
    kind: EmissionKind,
    rung: Option<usize>,
    what: &str,
) -> (r: Result<(), Box<Decision>>)
    ensures
        match r {
            Ok(_) => asked_ruling(*policy, *air, *s, direction, kind, rung, what@).allows(),
            Err(d) => !asked_ruling(*policy, *air, *s, direction, kind, rung, what@).allows() && (*d)@ == asked_ruling(
                *policy,
                *air,
                *s,
                direction,
                kind,
                rung,
                what@,
            ),
        },
{
    let air = match air {
        Some(a) => a,
        None => return Err(Box::new(policy.unmeasured(s, what, "nothing is measured for this air"))),
    };
    let audio: Edges = match (kind, rung) {
        (EmissionKind::Data, Some(r)) => if air.rungs.len() == 0 {
            air.control_floor
        } else if r < air.rungs.len() {
            air.rungs[r].edges
        } else {
            air.rungs[air.rungs.len() - 1].edges
        },
        (EmissionKind::Nothing, _) => Edges::tone(AUDIO_CENTER, 0),
        _ => Edges::tone(AUDIO_CENTER, TONE_HALF_WIDTH_HZ),
    };
    let tx = Transmission { what: what.to_owned(), kind, audio, direction };
    let decision = policy.evaluate(s, &tx);
    if decision.allowed() { Ok(()) } else { Err(Box::new(decision)) }
}

/// What an operator's test is judged as: its rung, where it is data, and its name.
pub open spec fn operator_test(kind: EmissionKind, top: usize) -> (Option<usize>, Seq<char>) {
    match kind {
        EmissionKind::Data => (Some(top), "drive bursts"@),
        EmissionKind::Nothing => (None, "a keying test"@),
        _ => (None, "the tune tone"@),
    }
}

/// What an operator's test is judged as.
pub fn operator_test_of(kind: EmissionKind, top: usize) -> (r: (Option<usize>, &'static str))
    ensures
        (r.0, r.1@) == operator_test(kind, top),
{
    match kind {
        EmissionKind::Data => (Some(top), "drive bursts"),
        EmissionKind::Nothing => (None, "a keying test"),
        _ => (None, "the tune tone"),
    }
}

fn floor_of(floors: &Vec<bool>, rung: usize) -> (r: bool)
    ensures
        r == is_floor(floors@, rung as nat),
{
    rung < floors.len() && floors[rung]
}

/// What a rung and every slower one occupy, with their control frames.
pub fn envelope(air: &AirOccupancy, floors: &Vec<bool>, top: usize) -> (r: Edges)
    requires
        top < air.rungs@.len(),
    ensures
        r == ladder_edges(*air, floors@, top as nat),
{
    let mut e: Edges = air.rungs[0].edges.union(air.control(floor_of(floors, 0)));
    let mut i: usize = 0;
    while i < top
        invariant
            i <= top < air.rungs@.len(),
            e == ladder_edges(*air, floors@, i as nat),
        decreases top - i,
    {
        i += 1;
        e = e.union(air.rungs[i].edges.union(air.control(floor_of(floors, i))));
    }
    e
}

/// The fastest rung that is asked about: no further than the ladder goes.
pub open spec fn top_of(air: AirOccupancy, max_mode: usize) -> nat {
    if max_mode < air.rungs@.len() { max_mode as nat } else { (air.rungs@.len() - 1) as nat }
}

/// The widest the station transmits, as the rules class it.
pub open spec fn widest_emission(air: AirOccupancy, floors: Seq<bool>, top: nat, direction: Direction) -> Emission {
    Emission {
        what: "the "@ + digits(air.bandwidth_hz as nat) + " Hz waveform up to rung "@ + digits(top) + " ("@
            + air.rungs@[top as int].name@ + ")"@,
        kind: EmissionKind::Data,
        audio: ladder_edges(air, floors, top),
        direction,
    }
}

/// The widest the station transmits, as the rules class it.
pub fn widest(air: &AirOccupancy, floors: &Vec<bool>, top: usize, direction: Direction) -> (r: Transmission)
    requires
        top < air.rungs@.len(),
    ensures
        r@ == widest_emission(*air, floors@, top as nat, direction),
{
    let mut what = cat("the ", &whole(air.bandwidth_hz as u128));
    what.append(" Hz waveform up to rung ");
    what.append(&whole(top as u128));
    what.append(" (");
    what.append(&air.rungs[top].name);
    what.append(")");
    Transmission { what, kind: EmissionKind::Data, audio: envelope(air, floors, top), direction }
}

/// What the indicator shows: the widest transmission's ruling, or, where that is refused and a
/// slower run of rungs is allowed, a warning that says so.
pub open spec fn indicated(
    policy: Policy,
    s: Situation,
    air: AirOccupancy,
    floors: Seq<bool>,
    top: nat,
    direction: Direction,
    ceiling: Option<usize>,
) -> Ruling {
    let wide = widest_emission(air, floors, top, direction);
    let full = policy.ruling(s, wide);
    match ceiling {
        Some(k) => if !full.allows() && k < top {
            let run = "rungs 0–"@ + digits(k as nat);
            let limited = policy.ruling(s, Emission { what: run, audio: ladder_edges(air, floors, k as nat), ..wide });
            Ruling {
                verdict: Verdict::Warning,
                summary: "FCC: "@ + run + " only here — "@ + without_prefixes(full.summary, "TX BLOCKED: "@),
                detail: full.detail + " The link stays on "@ + run + " ("@ + air.rungs@[k as int].name@ + "), which fit."@,
                ..limited
            }
        } else {
            full
        },
        None => full,
    }
}

fn indicate(
    policy: &Policy,
    s: &Situation,
    air: &AirOccupancy,
    floors: &Vec<bool>,
    top: usize,
    direction: Direction,
    ceiling: Option<usize>,
) -> (r: Decision)
    requires
        top < air.rungs@.len(),
    ensures
        r@ == indicated(*policy, *s, *air, floors@, top as nat, direction, ceiling),
{
    let wide = widest(air, floors, top, direction);
    let full = policy.evaluate(s, &wide);
    let k: usize = match ceiling {
        Some(k) => k,
        None => return full,
    };
    if full.allowed() || k >= top {
        return full;
    }
    let run = cat("rungs 0–", &whole(k as u128));
    let tx = Transmission {
        what: run.clone(),
        kind: EmissionKind::Data,
        audio: envelope(air, floors, k),
        direction,
    };
    let mut limited = policy.evaluate(s, &tx);
    limited.verdict = Verdict::Warning;
    let mut summary = cat("FCC: ", &run);
    summary.append(" only here — ");
    summary.append(&strip_prefixes(&full.summary, "TX BLOCKED: "));
    limited.summary = summary;
    let mut detail = cat(&full.detail, " The link stays on ");
    detail.append(&run);
    detail.append(" (");
    detail.append(&air.rungs[k].name);
    detail.append("), which fit.");
    limited.detail = detail;
    limited
}

/// How the policy stands, in a word.
pub open spec fn policy_word(policy: Policy) -> Seq<char> {
    match policy {
        Policy::Unset => "unset"@,
        Policy::NoProfile => "none"@,
        Policy::Rules(_) => "rules"@,
        Policy::Broken(_) => "broken"@,
    }
}

/// How the policy stands, in a word.
pub fn policy_state(policy: &Policy) -> (r: &'static str)
    ensures
        r@ == policy_word(*policy),
{
    match policy {
        Policy::Unset => "unset",
        Policy::NoProfile => "none",
        Policy::Rules(_) => "rules",
        Policy::Broken(_) => "broken",
    }
}

/// Where the station stands with the rules, for the panel's indicator and diagnostics.
#[derive(Debug)]
pub struct Standing {
    /// What the rules judge by.
    pub situation: Situation,
    /// Who began the exchange.
    pub direction: Direction,
    /// The fastest rung asked about.
    pub top: usize,
    /// What the indicator shows.
    pub indicator: Decision,
    /// What the widest transmission occupies.
    pub widest: Edges,
    /// What the tone floor occupies.
    pub floor: Edges,
    /// The dials where the widest transmission fits.
    pub safe_widest: Vec<SafeDial>,
    /// The dials where the tone floor fits.
    pub safe_floor: Vec<SafeDial>,
}

/// Where the station stands with the rules, where the air is measured: the situation, what its
/// widest transmission would be, what the indicator shows, and the dials where its waveforms fit.
/// `None` where the ladder is empty.
pub fn standing(
    policy: &Policy,
    s: &Situation,
    air: &AirOccupancy,
    floors: &Vec<bool>,
    max_mode: usize,
    direction: Direction,
    ceiling: &Option<Ceiling>,
) -> (r: Option<Standing>)
    ensures
        match r {
            None => air.rungs@.len() == 0,
            Some(x) => {
                let top = top_of(*air, max_mode);
                let capped: Option<usize> = match *ceiling {
                    Some(c) => c.rung,
                    None => None,
                };
                &&& air.rungs@.len() > 0
                &&& x.situation == *s
                &&& x.direction == direction
                &&& x.top == top
                &&& x.indicator@ == indicated(*policy, *s, *air, floors@, top, direction, capped)
                &&& x.widest == ladder_edges(*air, floors@, top)
                &&& x.floor == ladder_edges(*air, floors@, 0)
                &&& dial_views(x.safe_widest@) == policy.lawful_dials(*s, x.widest, direction)
                &&& dial_views(x.safe_floor@) == policy.lawful_dials(*s, x.floor, direction)
            },
        },
{
    if air.rungs.len() == 0 {
        return None;
    }
    let top: usize = if max_mode < air.rungs.len() { max_mode } else { air.rungs.len() - 1 };
    let capped: Option<usize> = match ceiling {
        Some(c) => c.rung,
        None => None,
    };
    let wide = envelope(air, floors, top);
    let floor = envelope(air, floors, 0);
    Some(
        Standing {
            situation: *s,
            direction,
            top,
            indicator: indicate(policy, s, air, floors, top, direction, capped),
            widest: wide,
            floor,
            safe_widest: policy.safe_dials(s, wide, direction),
            safe_floor: policy.safe_dials(s, floor, direction),
        },
    )
}

/// A "what if" for the regulatory policy: the station's facts, any of them replaced.
#[derive(Clone, Copy, PartialEq, Eq, Structural, Debug)]
pub struct RegulatoryQuery {
    /// A dial.
    pub dial: Option<Millihertz>,
    /// The station's control.
    pub control: Option<ControlMode>,
    /// The operator's class.
    pub license: Option<LicenseClass>,
    /// The sideband.
    pub sideband: Option<Sideband>,
    /// Who began the exchange.
    pub direction: Option<Direction>,
    /// The fastest rung, in place of the station's own.
    pub rung: Option<usize>,
}

/// A situation with the facts a query replaces.
pub open spec fn supposed(s: Situation, q: RegulatoryQuery) -> Situation {
    Situation {
        dial: if q.dial is Some { q.dial } else { s.dial },
        dial_source: if q.dial is Some { Some(DialSource::Declared) } else { s.dial_source },
        control: if q.control is Some { q.control } else { s.control },
        license: if q.license is Some { q.license } else { s.license },
        sideband: if q.sideband is Some { q.sideband } else { s.sideband },
        ..s
    }
}

/// A situation with the facts a query replaces.
pub fn suppose(s: &Situation, q: &RegulatoryQuery) -> (r: Situation)
    ensures
        r == supposed(*s, *q),
{
    let mut x = *s;
    if q.dial.is_some() {
        x.dial = q.dial;
        x.dial_source = Some(DialSource::Declared);
    }
    if q.control.is_some() {
        x.control = q.control;
    }
    if q.license.is_some() {
        x.license = q.license;
    }
    if q.sideband.is_some() {
        x.sideband = q.sideband;
    }
    x
}

/// What the rules would say: the decision, the dials where it would fit, and the ceiling on the
/// link.
#[derive(Debug)]
pub struct Answer {
    /// The decision.
    pub decision: Decision,
    /// The dials where it would fit.
    pub safe_dials: Vec<SafeDial>,
    /// The ceiling on the link.
    pub ceiling: Ceiling,
    /// What the rules judged by.
    pub situation: Situation,
}

/// What the rules would say about a transmission with any of the station's facts replaced.
/// `None` where the ladder is empty.
pub fn answer(
    policy: &Policy,
    s: &Situation,
    air: &AirOccupancy,
    floors: &Vec<bool>,
    max_mode: usize,
    direction: Direction,
    q: &RegulatoryQuery,
) -> (r: Option<Answer>)
    ensures
        match r {
            None => air.rungs@.len() == 0,
            Some(x) => {
                let asked = supposed(*s, *q);
                let who = match q.direction {
                    Some(d) => d,
                    None => direction,
                };
                let top = top_of(
                    *air,
                    match q.rung {
                        Some(k) => k,
                        None => max_mode,
                    },
                );
                let n = first_refused(*policy, asked, *air, floors@, who, 0);
                &&& air.rungs@.len() > 0
                &&& x.situation == asked
                &&& x.decision@ == policy.ruling(asked, widest_emission(*air, floors@, top, who))
                &&& dial_views(x.safe_dials@) == policy.lawful_dials(asked, ladder_edges(*air, floors@, top), who)
                &&& x.ceiling.rung == if n == 0 { None::<usize> } else { Some((n - 1) as usize) }
                &&& match x.ceiling.limit {
                    Some(d) => n < air.rungs@.len() && d@ == policy.ruling(asked, rung_emission(*air, floors@, n, who)),
                    None => n == air.rungs@.len(),
                }
            },
        },
{
    if air.rungs.len() == 0 {
        return None;
    }
    let asked = suppose(s, q);
    let who: Direction = match q.direction {
        Some(d) => d,
        None => direction,
    };
    let rung: usize = match q.rung {
        Some(k) => k,
        None => max_mode,
    };
    let top: usize = if rung < air.rungs.len() { rung } else { air.rungs.len() - 1 };
    let tx = widest(air, floors, top, who);
    Some(
        Answer {
            decision: policy.evaluate(&asked, &tx),
            safe_dials: policy.safe_dials(&asked, tx.audio, who),
            ceiling: policy.ceiling(&asked, air, who, floors),
            situation: asked,
        },
    )
}

/// An indicator that shows anything but a refusal is of something the rules allow: either the
/// widest transmission, or the run of rungs it names.
pub proof fn the_indicator_promises_nothing_unlawful(
    policy: Policy,
    s: Situation,
    air: AirOccupancy,
    floors: Seq<bool>,
    top: nat,
    direction: Direction,
    k: usize,
)
    requires
        top < air.rungs@.len(),
        k < first_refused(policy, s, air, floors, direction, 0),
        indicated(policy, s, air, floors, top, direction, Some(k)).allows(),
    ensures
        policy.ruling(s, widest_emission(air, floors, top, direction)).allows() || (k < top && policy.ruling(
            s,
            rung_emission(air, floors, k as nat, direction),
        ).allows()),
{
    lemma_allowed_below(policy, s, air, floors, direction, 0, k as nat);
}

proof fn lemma_allowed_below(
    policy: Policy,
    s: Situation,
    air: AirOccupancy,
    floors: Seq<bool>,
    direction: Direction,
    from: nat,
    k: nat,
)
    requires
        from <= k < first_refused(policy, s, air, floors, direction, from),
    ensures
        policy.ruling(s, rung_emission(air, floors, k, direction)).allows(),
    decreases k - from,
{
    if from < k {
        lemma_allowed_below(policy, s, air, floors, direction, from + 1, k);
    }
}

} // verus!
