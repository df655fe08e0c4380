//! A session's account, kept from the moment it comes up to the moment it ends, and what the
//! session history will say of it.
use vstd::prelude::*;

use crate::sessions::{Role, Session};
use crate::station::frames::{Report, FrameReport};
use crate::text::{ends, ends_with, first_word, first_word_of, same};

verus! {

/// A session's account.
#[derive(Clone, Copy, PartialEq, Eq, Structural, Debug)]
pub struct LinkAccount {
    /// Station time when the session came up.
    pub started_us: u64,
    /// Application bytes handed to the link this session, before compression.
    pub bytes_sent: usize,
    /// Application bytes delivered this session, after decompression.
    pub bytes_received: usize,
}

/// How far back the throughput reading looks.
pub const THROUGHPUT_WINDOW_US: u64 = 30_000_000;

/// A second, in microseconds.
pub const SECOND_US: u64 = 1_000_000;

/// The most finished sessions held for the daemon between two calls that take them.
pub const MAX_UNTAKEN_SESSIONS: usize = 64;

/// Bytes that crossed the air, with when.
#[derive(Debug)]
pub struct Traffic {
    moved: Vec<(u64, u64)>,
    crossed: u64,
}

/// What crossed the air.
pub struct Crossing {
    /// When, and how many bytes, oldest first.
    pub moved: Seq<(u64, u64)>,
    /// The engine's count when this was last fed.
    pub crossed: u64,
}

impl View for Traffic {
    type V = Crossing;

    closed spec fn view(&self) -> Crossing {
        Crossing { moved: self.moved@, crossed: self.crossed }
    }
}

/// Whether something happened within the window.
pub open spec fn recent(t: u64, now_us: u64) -> bool {
    t + THROUGHPUT_WINDOW_US >= now_us
}

/// Crossings without the oldest, up to the first within the window.
pub open spec fn without_old(s: Seq<(u64, u64)>, now_us: u64) -> Seq<(u64, u64)>
    decreases s.len(),
{
    if s.len() == 0 || recent(s[0].0, now_us) { s } else { without_old(s.drop_first(), now_us) }
}

/// What crossed the air, once the engine's count is known: what is new in it counts, while a
/// session is up.
pub open spec fn accounted(c: Crossing, now_us: u64, crossed: u64, up: bool) -> Crossing {
    let bytes = if crossed > c.crossed { (crossed - c.crossed) as u64 } else { 0 };
    if bytes == 0 || !up {
        Crossing { crossed, ..c }
    } else {
        Crossing { crossed, moved: without_old(c.moved.push((now_us, bytes)), now_us) }
    }
}

/// The bytes that crossed within the window, of the first `n` crossings.
pub open spec fn moved_within(s: Seq<(u64, u64)>, now_us: u64, n: nat) -> nat
    decreases n,
{
    if n == 0 {
        0
    } else {
        moved_within(s, now_us, (n - 1) as nat) + if recent(s[n - 1].0, now_us) { s[n - 1].1 as nat } else { 0 }
    }
}

/// The time a throughput is taken over: since the session came up, at least a second and at most
/// the window.
pub open spec fn span(started_us: u64, now_us: u64) -> nat {
    let up = if now_us > started_us { (now_us - started_us) as nat } else { 0 };
    if up < SECOND_US { SECOND_US as nat } else if up > THROUGHPUT_WINDOW_US { THROUGHPUT_WINDOW_US as nat } else { up }
}

/// The throughput, in thousandths of a bit per second.
pub open spec fn throughput(c: Crossing, link: Option<LinkAccount>, now_us: u64) -> nat {
    match link {
        Some(l) => moved_within(c.moved, now_us, c.moved.len()) * 8_000_000_000 / span(l.started_us, now_us),
        None => 0,
    }
}

impl Traffic {
    /// Nothing has crossed.
    pub fn new() -> (r: Self)
        ensures
            r@ == (Crossing { moved: Seq::empty(), crossed: 0 }),
    {
        let r = Traffic { moved: Vec::new(), crossed: 0 };
        proof {
            assert(r.moved@ =~= Seq::empty());
        }
        r
    }

    /// Note what crossed the air since last time: payload bytes the other station acknowledged,
    /// and payload bytes received from it, by the engine's own count, so a burst that was sent
    /// but never acknowledged counts for nothing.
    pub fn account(&mut self, now_us: u64, crossed: u64, up: bool)
        ensures
            final(self)@ == accounted(old(self)@, now_us, crossed, up),
    {
        let bytes: u64 = if crossed > self.crossed { crossed - self.crossed } else { 0 };
        self.crossed = crossed;
        if bytes == 0 || !up {
            return;
        }
        self.moved.push((now_us, bytes));
        let ghost all = self.moved@;
        while self.moved.len() > 0 && now_us > self.moved[0].0 && now_us - self.moved[0].0 > THROUGHPUT_WINDOW_US
            invariant
                self.crossed == crossed,
                without_old(all, now_us) == without_old(self.moved@, now_us),
            decreases self.moved.len(),
        {
            let ghost before = self.moved@;
            let _ = self.moved.remove(0);
            proof {
                assert(self.moved@ =~= before.drop_first());
            }
        }
    }

    /// Forget what crossed: a session begins or ends.
    pub fn clear(&mut self)
        ensures
            final(self)@ == (Crossing { moved: Seq::empty(), ..old(self)@ }),
    {
        self.moved.clear();
        proof {
            assert(self.moved@ =~= Seq::empty());
        }
    }

    /// Payload bytes that crossed the air in either direction over the last half minute of the
    /// session, in thousandths of a bit per second. Nothing when no session is up.
    pub fn throughput_milli_bps(&self, link: Option<LinkAccount>, now_us: u64) -> (r: u128)
        requires
            moved_within(self@.moved, now_us, self@.moved.len()) <= u64::MAX,
        ensures
            r as nat == throughput(self@, link, now_us),
    {
        let l = match link {
            Some(l) => l,
            None => return 0,
        };
        let mut bytes: u128 = 0;
        let mut i: usize = 0;
        while i < self.moved.len()
            invariant
                i <= self.moved.len(),
                bytes as nat == moved_within(self.moved@, now_us, i as nat),
                bytes <= i * u64::MAX,
            decreases self.moved.len() - i,
        {
            proof {
                assert((i + 1) * u64::MAX == i * u64::MAX + u64::MAX) by (nonlinear_arith);
                assert(i * u64::MAX <= u64::MAX * u64::MAX) by (nonlinear_arith)
                    requires
                        i <= u64::MAX,
                ;
            }
            let t: u64 = self.moved[i].0;
            if now_us <= t || now_us - t <= THROUGHPUT_WINDOW_US {
                bytes = bytes + self.moved[i].1 as u128;
            }
            i += 1;
        }
        let up: u64 = if now_us > l.started_us { now_us - l.started_us } else { 0 };
        let over: u64 = if up < SECOND_US { SECOND_US } else if up > THROUGHPUT_WINDOW_US { THROUGHPUT_WINDOW_US } else {
            up
        };
        bytes * 8_000_000_000 / (over as u128)
    }
}

/// What the session history will say of the session now up, gathered as it runs: the engine
/// forgets its readings the moment a session ends, before the station hears of it.
#[derive(Debug)]
pub struct SessionNotes {
    /// The other station.
    pub remote: String,
    /// Whether this station placed the call.
    pub caller: bool,
    /// The dial when the session came up.
    pub frequency_hz: Option<u64>,
    /// The engine's acknowledged-bytes count when the session came up.
    pub acked_at_start: usize,
    /// The last decoded frame's SNR.
    pub snr_mdb: Option<i64>,
    /// The best.
    pub best_snr_mdb: Option<i64>,
    /// How the other station last said it heard this one.
    pub heard_there_mdb: Option<i64>,
    /// The fastest rung sent.
    pub top_rung_sent: Option<usize>,
    /// The fastest rung heard.
    pub top_rung_heard: Option<usize>,
}

/// What the notes are.
pub struct Notes {
    pub remote: Seq<char>,
    pub caller: bool,
    pub frequency_hz: Option<u64>,
    pub acked_at_start: usize,
    pub snr_mdb: Option<i64>,
    pub best_snr_mdb: Option<i64>,
    pub heard_there_mdb: Option<i64>,
    pub top_rung_sent: Option<usize>,
    pub top_rung_heard: Option<usize>,
}

impl View for SessionNotes {
    type V = Notes;

    open spec fn view(&self) -> Notes {
        Notes {
            remote: self.remote@,
            caller: self.caller,
            frequency_hz: self.frequency_hz,
            acked_at_start: self.acked_at_start,
            snr_mdb: self.snr_mdb,
            best_snr_mdb: self.best_snr_mdb,
            heard_there_mdb: self.heard_there_mdb,
            top_rung_sent: self.top_rung_sent,
            top_rung_heard: self.top_rung_heard,
        }
    }
}

/// The greater of a number that may be missing and another.
pub open spec fn best(a: Option<i64>, b: i64) -> Option<i64> {
    match a {
        Some(x) => if x > b { Some(x) } else { Some(b) },
        None => Some(b),
    }
}

/// The greater of a rung that may be missing and another.
pub open spec fn top(a: Option<usize>, b: usize) -> Option<usize> {
    match a {
        Some(x) => if x > b { Some(x) } else { Some(b) },
        None => Some(b),
    }
}

/// Whether the words a session came up with say that this station placed the call.
pub open spec fn placed_the_call(detail: Seq<char>) -> bool {
    ends(detail, "(iss)"@)
}

/// The notes of a session that just came up.
pub open spec fn first_notes(detail: Seq<char>, frequency_hz: Option<u64>, acked: usize) -> Notes {
    Notes {
        remote: first_word(detail),
        caller: placed_the_call(detail),
        frequency_hz,
        acked_at_start: acked,
        snr_mdb: None,
        best_snr_mdb: None,
        heard_there_mdb: None,
        top_rung_sent: None,
        top_rung_heard: None,
    }
}

/// The notes once a frame was reported: a decoded frame of the other station's counts.
pub open spec fn noted(n: Notes, r: Report) -> Notes {
    if r.decoded && r.from == Some(n.remote) {
        Notes {
            snr_mdb: Some(r.snr_mdb),
            best_snr_mdb: best(n.best_snr_mdb, r.snr_mdb),
            top_rung_heard: if r.kind == "data"@ { top(n.top_rung_heard, r.mode) } else { n.top_rung_heard },
            ..n
        }
    } else {
        n
    }
}

/// A time to the nearest tenth of a second, halves upwards.
pub open spec fn to_a_tenth(us: nat) -> nat {
    (us + 50_000) / 100_000 * 100_000
}

/// What is known of the station when a session ends.
#[derive(Clone, Copy, PartialEq, Eq, Structural, Debug)]
pub struct Ending {
    /// Station time.
    pub now_us: u64,
    /// The air, hertz.
    pub bandwidth_hz: u32,
    /// The dial, where the radio can say.
    pub frequency_hz: Option<u64>,
    /// The engine's acknowledged-bytes count.
    pub bytes_acked: usize,
    /// Whether a Test session is running.
    pub test: bool,
}

/// A session that ended, for the history.
pub open spec fn is_history(s: Session, n: Notes, l: LinkAccount, e: Ending, end: Seq<char>, recording: Option<Seq<char>>) -> bool {
    let up = if e.now_us > l.started_us { (e.now_us - l.started_us) as nat } else { 0 };
    &&& s.remote@ == n.remote
    &&& s.started_ms == 0
    &&& s.ended_ms == 0
    &&& s.duration_us as nat == to_a_tenth(up)
    &&& s.role == (if n.caller { Role::Caller } else { Role::Called })
    &&& s.bandwidth_hz == e.bandwidth_hz
    &&& s.frequency_hz == (if e.frequency_hz is Some { e.frequency_hz } else { n.frequency_hz })
    &&& s.bytes_sent == l.bytes_sent
    &&& s.bytes_acked == (if e.bytes_acked > n.acked_at_start { e.bytes_acked - n.acked_at_start } else { 0 })
    &&& s.bytes_received == l.bytes_received
    &&& s.end@ == end
    &&& s.snr_mdb == n.snr_mdb
    &&& s.best_snr_mdb == n.best_snr_mdb
    &&& s.heard_there_mdb == n.heard_there_mdb
    &&& s.top_rung_sent == n.top_rung_sent
    &&& s.top_rung_heard == n.top_rung_heard
    &&& s.test == e.test
    &&& match s.recording {
        Some(x) => recording == Some(x@),
        None => recording is None,
    }
}

impl SessionNotes {
    /// The notes of a session that just came up, in the words the link reports it with.
    pub fn began(detail: &str, frequency_hz: Option<u64>, acked: usize) -> (r: Self)
        ensures
            r@ == first_notes(detail@, frequency_hz, acked),
    {
        SessionNotes {
            remote: first_word_of(detail),
            caller: ends_with(detail, "(iss)"),
            frequency_hz,
            acked_at_start: acked,
            snr_mdb: None,
            best_snr_mdb: None,
            heard_there_mdb: None,
            top_rung_sent: None,
            top_rung_heard: None,
        }
    }

    /// A frame was reported.
    pub fn heard(&mut self, report: &FrameReport)
        ensures
            final(self)@ == noted(old(self)@, report@),
    {
        let mine: bool = match &report.from {
            Some(s) => same(s, &self.remote),
            None => false,
        };
        if report.decoded && mine {
            self.snr_mdb = Some(report.snr_mdb);
            self.best_snr_mdb = match self.best_snr_mdb {
                Some(x) => if x > report.snr_mdb { Some(x) } else { Some(report.snr_mdb) },
                None => Some(report.snr_mdb),
            };
            if same(report.kind, "data") {
                self.top_rung_heard = match self.top_rung_heard {
                    Some(x) => if x > report.mode { Some(x) } else { Some(report.mode) },
                    None => Some(report.mode),
                };
            }
        }
    }

    /// Data was sent at a rung.
    pub fn sent(&mut self, rung: usize)
        ensures
            final(self)@ == (Notes { top_rung_sent: top(old(self)@.top_rung_sent, rung), ..old(self)@ }),
    {
        self.top_rung_sent = match self.top_rung_sent {
            Some(x) => if x > rung { Some(x) } else { Some(rung) },
            None => Some(rung),
        };
    }

    /// The session ended: what the history keeps of it. `end` is how, in the link's words, and
    /// `recording` the recording it went into.
    pub fn finish(self, link: LinkAccount, e: Ending, end: &str, recording: Option<String>) -> (r: Session)
        requires
            e.now_us <= u64::MAX - 50_000,
        ensures
            is_history(
                r,
                self@,
                link,
                e,
                end@,
                match recording {
                    Some(x) => Some(x@),
                    None => None,
                },
            ),
    {
        let up: u64 = if e.now_us > link.started_us { e.now_us - link.started_us } else { 0 };
        Session {
            remote: self.remote,
            started_ms: 0,
            ended_ms: 0,
            duration_us: (up + 50_000) / 100_000 * 100_000,
            role: if self.caller { Role::Caller } else { Role::Called },
            bandwidth_hz: e.bandwidth_hz,
            frequency_hz: if e.frequency_hz.is_some() { e.frequency_hz } else { self.frequency_hz },
            bytes_sent: link.bytes_sent,
            bytes_acked: if e.bytes_acked > self.acked_at_start { e.bytes_acked - self.acked_at_start } else { 0 },
            bytes_received: link.bytes_received,
            end: end.to_owned(),
            snr_mdb: self.snr_mdb,
            best_snr_mdb: self.best_snr_mdb,
            heard_there_mdb: self.heard_there_mdb,
            top_rung_sent: self.top_rung_sent,
            top_rung_heard: self.top_rung_heard,
            test: e.test,
            recording,
        }
    }
}

/// The sessions that ended and were not yet taken, with one more: the oldest goes when nobody
/// takes them.
pub open spec fn finished_with(s: Seq<Session>, one: Session) -> Seq<Session> {
    (if s.len() >= MAX_UNTAKEN_SESSIONS { s.drop_first() } else { s }).push(one)
}

/// Keep a session that ended until it is taken.
pub fn keep_finished(v: &mut Vec<Session>, one: Session)
    ensures
        final(v)@ == finished_with(old(v)@, one),
{
    let ghost before = v@;
    if v.len() >= MAX_UNTAKEN_SESSIONS {
        let _ = v.remove(0);
        proof {
            assert(v@ =~= before.drop_first());
        }
    }
    v.push(one);
}

/// What is kept of the traffic is the window's: nothing in front of it is older.
pub proof fn the_traffic_kept_is_recent(c: Crossing, now_us: u64, crossed: u64)
    requires
        crossed > c.crossed,
    ensures
        accounted(c, now_us, crossed, true).moved.len() > 0,
        recent(accounted(c, now_us, crossed, true).moved[0].0, now_us),
{
    let all = c.moved.push((now_us, (crossed - c.crossed) as u64));
    assert(all.last().0 == now_us);
    lemma_without_old(all, now_us);
}

proof fn lemma_without_old(s: Seq<(u64, u64)>, now_us: u64)
    requires
        s.len() > 0,
        recent(s.last().0, now_us),
    ensures
        without_old(s, now_us).len() > 0,
        recent(without_old(s, now_us)[0].0, now_us),
    decreases s.len(),
{
    if !recent(s[0].0, now_us) {
        let rest = s.drop_first();
        if rest.len() == 0 {
            assert(s.last() == s[0]);
        } else {
            assert(rest.last() == s.last());
            lemma_without_old(rest, now_us);
        }
    }
}

} // verus!
