//! What the physical layer made of a frame: for a display, for the list of stations heard, and
//! for a recording's sidecar.
//!
//! The callsigns are read off the frame itself where it carries them (a beacon, a connect
//! request or its answer) and otherwise attributed to the other end of the session when the
//! frame belongs to it. A frame from nobody this station can name has neither.
//!
//! Times are in microseconds, levels in thousandths of a decibel, offsets in thousandths of a
//! hertz and confidences in thousandths.
use vstd::prelude::*;

verus! {

/// Which of the two shapes of frame.
#[derive(Clone, Copy, PartialEq, Eq, Structural, Debug)]
pub enum Container {
    /// A data frame, at a rung of the ladder.
    Data,
    /// A control frame.
    Control,
}

/// How far above its acceptance threshold acquisition has to have seen a frame before the
/// detection is worth believing on its own.
///
/// It gates what an *unconfirmed* acquisition is allowed to do (report an offset, extend the
/// receive window, tell the engine a burst is arriving) and nothing about what the receiver
/// decodes: every candidate is still pursued, and a frame that decodes is real whatever its
/// acquisition looked like.
pub const DETECT_CONFIDENCE_TRUSTED: u32 = 1300;

/// The most constellation points kept from a frame, for the display.
pub const CONSTELLATION_POINTS: usize = 1024;

/// The most frame reports held between two calls that take them.
pub const MAX_UNTAKEN_REPORTS: usize = 1024;

/// The carrier offset worth reporting. It is real when the frame decoded, or when the mode chips
/// were read with at least `sure` confidence, or when acquisition itself was confident enough to
/// trust; nothing for a probable noise trigger, whose offset is the correlator locking onto
/// noise.
///
/// The mode confidence is read from the pilot chips, which only a data frame carries; the
/// detection's is defined for every frame.
pub fn reported_cfo(decoded: bool, confidence: u32, detect_confidence: u32, sure: u32, cfo_mhz: i64) -> (r: Option<i64>)
    ensures
        r == if decoded || confidence >= sure || detect_confidence >= DETECT_CONFIDENCE_TRUSTED {
            Some(cfo_mhz)
        } else {
            None
        },
        r is Some <==> decoded || confidence >= sure || detect_confidence >= 1300,
        r is Some ==> r == Some(cfo_mhz),
{
    if decoded || confidence >= sure || detect_confidence >= DETECT_CONFIDENCE_TRUSTED {
        Some(cfo_mhz)
    } else {
        None
    }
}

/// What a frame's payload says, as far as it could be read.
#[derive(Debug)]
pub enum Says {
    /// Nothing: it did not decode, or means nothing here.
    Nothing,
    /// A control frame's session, where it could be read, and its fields spelled out.
    Control(Option<u8>, Option<String>),
    /// A beacon, and whose.
    Beacon(Option<String>),
    /// A connect request: from whom, to whom.
    ConnectReq(Option<(String, String)>),
    /// A connect request's answer: from whom, to whom.
    ConnectAck(Option<(String, String)>),
    /// A probe: from whom, to whom.
    Probe(Option<(String, String)>),
    /// A probe's answer: from whom, to whom.
    ProbeAck(Option<(String, String)>),
    /// Data of a session.
    Data(u8),
    /// A piece of a datagram, and whose, when a first piece said.
    Datagram(Option<String>),
}

/// A frame the physical layer found.
#[derive(Debug)]
pub struct Heard {
    /// Whether it is a control frame.
    pub control: bool,
    /// The rung a data frame was sent at; none where its chips name no rung of the ladder.
    pub rung: Option<usize>,
    /// Redundancy version.
    pub rv: u8,
    /// SNR, 3 kHz reference.
    pub snr_mdb: i64,
    /// Carrier offset removed.
    pub cfo_mhz: i64,
    /// How sure the receiver was of the mode chips.
    pub confidence: u32,
    /// How far above its acceptance threshold acquisition saw the preamble.
    pub detect_confidence: u32,
    /// Whether the payload decoded.
    pub decoded: bool,
    /// Payload bytes, when it did.
    pub bytes: usize,
    /// What the payload says.
    pub says: Says,
}

/// What the physical layer made of one frame.
#[derive(Debug)]
pub struct FrameReport {
    /// Station time.
    pub t_us: u64,
    /// `data`, `control`, `beacon`, `connect` (a request), `answer`, `probe`, `probe-answer` or
    /// `datagram`.
    pub kind: &'static str,
    /// Mode index.
    pub mode: usize,
    /// Redundancy version.
    pub rv: u8,
    /// SNR, 3 kHz reference.
    pub snr_mdb: i64,
    /// Carrier offset removed: positive means the other station is high.
    pub cfo_mhz: i64,
    /// How sure the receiver was of the mode chips.
    pub confidence: u32,
    /// How far above its acceptance threshold acquisition saw the preamble.
    pub detect_confidence: u32,
    /// Whether the payload decoded.
    pub decoded: bool,
    /// Payload bytes, when it did.
    pub bytes: usize,
    /// Who sent it, when the frame says or the session implies.
    pub from: Option<String>,
    /// Who it was addressed to, when the frame says.
    pub to: Option<String>,
    /// A control frame's fields, spelled out.
    pub control: Option<String>,
}

/// What a report is.
pub struct Report {
    pub t_us: u64,
    pub kind: Seq<char>,
    pub mode: usize,
    pub rv: u8,
    pub snr_mdb: i64,
    pub cfo_mhz: i64,
    pub confidence: u32,
    pub detect_confidence: u32,
    pub decoded: bool,
    pub bytes: usize,
    pub from: Option<Seq<char>>,
    pub to: Option<Seq<char>>,
    pub control: Option<Seq<char>>,
}

/// What a text that may be missing is.
pub open spec fn words_of(s: Option<String>) -> Option<Seq<char>> {
    match s {
        Some(x) => Some(x@),
        None => None,
    }
}

impl View for FrameReport {
    type V = Report;

    open spec fn view(&self) -> Report {
        Report {
            t_us: self.t_us,
            kind: self.kind@,
            mode: self.mode,
            rv: self.rv,
            snr_mdb: self.snr_mdb,
            cfo_mhz: self.cfo_mhz,
            confidence: self.confidence,
            detect_confidence: self.detect_confidence,
            decoded: self.decoded,
            bytes: self.bytes,
            from: words_of(self.from),
            to: words_of(self.to),
            control: words_of(self.control),
        }
    }
}

/// What a run of reports is.
pub open spec fn report_views(s: Seq<FrameReport>) -> Seq<Report> {
    s.map_values(|r: FrameReport| r@)
}

fn copy(s: &Option<String>) -> (r: Option<String>)
    ensures
        words_of(r) == words_of(*s),
{
    match s {
        Some(x) => Some(x.clone()),
        None => None,
    }
}

impl Clone for FrameReport {
    fn clone(&self) -> (r: Self)
        ensures
            r@ == self@,
    {
        FrameReport {
            t_us: self.t_us,
            kind: self.kind,
            mode: self.mode,
            rv: self.rv,
            snr_mdb: self.snr_mdb,
            cfo_mhz: self.cfo_mhz,
            confidence: self.confidence,
            detect_confidence: self.detect_confidence,
            decoded: self.decoded,
            bytes: self.bytes,
            from: copy(&self.from),
            to: copy(&self.to),
            control: copy(&self.control),
        }
    }
}

/// The session that is up: its number and the other station.
#[derive(Debug)]
pub struct Talking {
    /// The session's number.
    pub session: u8,
    /// The other station's callsign.
    pub remote: String,
}

/// Who sent a frame of a session: the other station, where the session is the one that is up;
/// one with another number is somebody else's business and stays unattributed.
pub open spec fn ours(talking: Option<Talking>, session: u8) -> Option<Seq<char>> {
    match talking {
        Some(t) => if t.session == session { Some(t.remote@) } else { None },
        None => None,
    }
}

/// What a frame is called.
pub open spec fn kind_of(h: Heard) -> Seq<char> {
    if h.control {
        "control"@
    } else {
        match h.says {
            Says::Beacon(_) => "beacon"@,
            Says::ConnectReq(_) => "connect"@,
            Says::ConnectAck(_) => "answer"@,
            Says::Probe(_) => "probe"@,
            Says::ProbeAck(_) => "probe-answer"@,
            Says::Datagram(_) => "datagram"@,
            _ => "data"@,
        }
    }
}

/// Who sent a frame, when it says or the session implies.
pub open spec fn sender(h: Heard, talking: Option<Talking>) -> Option<Seq<char>> {
    if h.control {
        match h.says {
            Says::Control(Some(session), _) => ours(talking, session),
            _ => None,
        }
    } else {
        match h.says {
            Says::Beacon(call) => words_of(call),
            Says::ConnectReq(Some((src, _))) => Some(src@),
            Says::ConnectAck(Some((src, _))) => Some(src@),
            Says::Probe(Some((src, _))) => Some(src@),
            Says::ProbeAck(Some((src, _))) => Some(src@),
            Says::Data(session) => ours(talking, session),
            Says::Datagram(call) => words_of(call),
            _ => None,
        }
    }
}

/// Who a frame was addressed to, when it says.
pub open spec fn addressee(h: Heard) -> Option<Seq<char>> {
    if h.control {
        None
    } else {
        match h.says {
            Says::ConnectReq(Some((_, dst))) => Some(dst@),
            Says::ConnectAck(Some((_, dst))) => Some(dst@),
            Says::Probe(Some((_, dst))) => Some(dst@),
            Says::ProbeAck(Some((_, dst))) => Some(dst@),
            _ => None,
        }
    }
}

/// A control frame's fields, spelled out.
pub open spec fn spelled_out(h: Heard) -> Option<Seq<char>> {
    match h.says {
        Says::Control(_, text) => if h.control { words_of(text) } else { None },
        _ => None,
    }
}

/// A frame described for the displays.
pub open spec fn described(h: Heard, rung: usize, now_us: u64, talking: Option<Talking>) -> Report {
    Report {
        t_us: now_us,
        kind: kind_of(h),
        mode: rung,
        rv: h.rv,
        snr_mdb: h.snr_mdb,
        cfo_mhz: h.cfo_mhz,
        confidence: h.confidence,
        detect_confidence: h.detect_confidence,
        decoded: h.decoded,
        bytes: h.bytes,
        from: sender(h, talking),
        to: addressee(h),
        control: spelled_out(h),
    }
}

fn whose(talking: &Option<Talking>, session: u8) -> (r: Option<String>)
    ensures
        words_of(r) == ours(*talking, session),
{
    match talking {
        Some(t) => if t.session == session { Some(t.remote.clone()) } else { None },
        None => None,
    }
}

/// Describe a frame for the displays. `rung` is the rung of the ladder a data frame was sent at.
pub fn describe(h: &Heard, rung: usize, now_us: u64, talking: &Option<Talking>) -> (r: FrameReport)
    ensures
        r@ == described(*h, rung, now_us, *talking),
{
    let mut report = FrameReport {
        t_us: now_us,
        kind: if h.control { "control" } else { "data" },
        mode: rung,
        rv: h.rv,
        snr_mdb: h.snr_mdb,
        cfo_mhz: h.cfo_mhz,
        confidence: h.confidence,
        detect_confidence: h.detect_confidence,
        decoded: h.decoded,
        bytes: h.bytes,
        from: None,
        to: None,
        control: None,
    };
    if h.control {
        match &h.says {
            Says::Control(session, text) => {
                report.control = copy(text);
                match session {
                    Some(n) => report.from = whose(talking, *n),
                    None => {},
                }
            },
            _ => {},
        }
        return report;
    }
    match &h.says {
        Says::Beacon(call) => {
            report.kind = "beacon";
            report.from = copy(call);
        },
        Says::ConnectReq(ends) => {
            report.kind = "connect";
            match ends {
                Some((src, dst)) => {
                    report.from = Some(src.clone());
                    report.to = Some(dst.clone());
                },
                None => {},
            }
        },
        Says::ConnectAck(ends) => {
            report.kind = "answer";
            match ends {
                Some((src, dst)) => {
                    report.from = Some(src.clone());
                    report.to = Some(dst.clone());
                },
                None => {},
            }
        },
        Says::Probe(ends) => {
            report.kind = "probe";
            match ends {
                Some((src, dst)) => {
                    report.from = Some(src.clone());
                    report.to = Some(dst.clone());
                },
                None => {},
            }
        },
        Says::ProbeAck(ends) => {
            report.kind = "probe-answer";
            match ends {
                Some((src, dst)) => {
                    report.from = Some(src.clone());
                    report.to = Some(dst.clone());
                },
                None => {},
            }
        },
        Says::Data(session) => {
            report.from = whose(talking, *session);
        },
        Says::Datagram(call) => {
            report.kind = "datagram";
            report.from = copy(call);
        },
        _ => {},
    }
    report
}

/// The callsign in a beacon frame, if that is what this is.
pub open spec fn beacon_of(h: Heard) -> Option<Seq<char>> {
    match h.says {
        Says::Beacon(call) => if h.control { None } else { words_of(call) },
        _ => None,
    }
}

/// The callsign in a beacon frame, if that is what this is.
pub fn beacon_callsign(h: &Heard) -> (r: Option<&String>)
    ensures
        match r {
            Some(s) => beacon_of(*h) == Some(s@),
            None => beacon_of(*h) is None,
        },
{
    if h.control {
        return None;
    }
    match &h.says {
        Says::Beacon(Some(call)) => Some(call),
        _ => None,
    }
}

/// How many symbols apart the points of a constellation are taken, so a long frame costs a
/// display no more than a short one.
pub open spec fn thinning(symbols: nat) -> nat {
    if symbols == 0 { 1 } else { ((symbols + 1023) / 1024) as nat }
}

/// How many symbols apart the points of a constellation are taken.
pub fn constellation_step(symbols: usize) -> (r: usize)
    ensures
        r == thinning(symbols as nat),
        r >= 1,
{
    if symbols == 0 { 1 } else { (symbols - 1) / CONSTELLATION_POINTS + 1 }
}

/// No more points are taken than are shown.
pub proof fn the_constellation_is_bounded(symbols: nat)
    ensures
        (symbols + thinning(symbols) - 1) / thinning(symbols) as int <= CONSTELLATION_POINTS,
        (symbols + thinning(symbols) - 1) / thinning(symbols) as int <= 1024,
        symbols <= 1024 ==> thinning(symbols) == 1,
        thinning(symbols) > 1 ==> symbols > 1024 * (thinning(symbols) - 1),
{
    let step = thinning(symbols);
    if symbols > 0 {
        assert(symbols <= 1024 * step);
        assert((symbols + step - 1) / step as int <= 1024) by (nonlinear_arith)
            requires
                0 < symbols <= 1024 * step,
                step > 0,
        ;
    } else {
        assert(step == 1);
    }
}

/// Whether what a frame shows means a burst is there at all: one that decoded, or that acquired
/// well past its threshold.
pub open spec fn shows_a_burst(r: Report) -> bool {
    r.decoded || r.detect_confidence >= DETECT_CONFIDENCE_TRUSTED
}

/// The frames reported and not yet taken, and the last one.
#[derive(Debug)]
pub struct Reports {
    fresh: Vec<FrameReport>,
    last: Option<FrameReport>,
}

/// What the reports are.
pub struct Shown {
    pub fresh: Seq<Report>,
    pub last: Option<Report>,
}

impl View for Reports {
    type V = Shown;

    closed spec fn view(&self) -> Shown {
        Shown {
            fresh: report_views(self.fresh@),
            last: match self.last {
                Some(r) => Some(r@),
                None => None,
            },
        }
    }
}

/// The reports with one more: the oldest goes when nobody takes them.
pub open spec fn shown_with(s: Shown, r: Report) -> Shown {
    Shown {
        fresh: (if s.fresh.len() >= MAX_UNTAKEN_REPORTS { s.fresh.drop_first() } else { s.fresh }).push(r),
        last: Some(r),
    }
}

impl Reports {
    /// Nothing reported yet.
    pub fn new() -> (r: Self)
        ensures
            r@ == (Shown { fresh: Seq::empty(), last: None }),
    {
        let r = Reports { fresh: Vec::new(), last: None };
        proof {
            assert(report_views(r.fresh@) =~= Seq::empty());
        }
        r
    }

    /// Keep a report. Bounded, for a station nobody drains.
    pub fn keep(&mut self, report: FrameReport)
        ensures
            final(self)@ == shown_with(old(self)@, report@),
    {
        self.last = Some(report.clone());
        let ghost before = self.fresh@;
        if self.fresh.len() >= MAX_UNTAKEN_REPORTS {
            let _ = self.fresh.remove(0);
            proof {
                assert(report_views(self.fresh@) =~= report_views(before).drop_first());
            }
        }
        let ghost kept = self.fresh@;
        self.fresh.push(report);
        proof {
            assert(report_views(self.fresh@) =~= report_views(kept).push(report@));
        }
    }

    /// Frames reported since the last call.
    pub fn take(&mut self) -> (r: Vec<FrameReport>)
        ensures
            report_views(r@) == old(self)@.fresh,
            final(self)@ == (Shown { fresh: Seq::empty(), ..old(self)@ }),
    {
        let mut out: Vec<FrameReport> = Vec::new();
        std::mem::swap(&mut out, &mut self.fresh);
        proof {
            assert(report_views(self.fresh@) =~= Seq::empty());
        }
        out
    }

    /// The last frame the physical layer found, decoded or not.
    pub fn last(&self) -> (r: Option<&FrameReport>)
        ensures
            match r {
                Some(x) => self@.last == Some(x@),
                None => self@.last is None,
            },
    {
        match &self.last {
            Some(x) => Some(x),
            None => None,
        }
    }
}

/// A frame from nobody the station can name is attributed to nobody: only the session that is up
/// lends its other station's name, and only to its own frames.
pub proof fn strangers_stay_strangers(h: Heard, rung: usize, now_us: u64, talking: Option<Talking>, session: u8)
    requires
        (!h.control && h.says == Says::Data(session)) || (h.control && (h.says matches Says::Control(s, _) && s == Some(
            session,
        ))),
        talking matches Some(t) ==> t.session != session,
    ensures
        described(h, rung, now_us, talking).from is None,
{
}

} // verus!
