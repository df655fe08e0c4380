//! The sessions this station has had.
//!
//! One entry per session, newest first, written when the session ends: when it came up, how
//! long it lasted, who called whom, what crossed, how fast it ran and how it ended. Bounded,
//! and kept in a file beside the configuration, so a restart does not forget it.
//!
//! Durations are in microseconds and levels in thousandths of a decibel.
use vstd::prelude::*;

use crate::text::{ascii_uppercase, same, to_ascii_upper, trim, trimmed};

verus! {

/// The most sessions kept; the oldest goes when a new one arrives past it.
pub const LIMIT: usize = 500;

/// Which end of the session this station was.
#[derive(Clone, Copy, PartialEq, Eq, Structural, Debug)]
pub enum Role {
    /// This station placed the call.
    Caller,
    /// The other station called this one.
    Called,
}

/// One session, as the list keeps it.
#[derive(PartialEq, Eq, Debug)]
pub struct Session {
    /// The other station's callsign.
    pub remote: String,
    /// When it came up, milliseconds since the Unix epoch.
    pub started_ms: u64,
    /// When it ended.
    pub ended_ms: u64,
    /// How long it was up.
    pub duration_us: u64,
    /// Which end this station was.
    pub role: Role,
    /// The air it ran on, hertz: 2300 or 500.
    pub bandwidth_hz: u32,
    /// The dial frequency, when the radio could say.
    pub frequency_hz: Option<u64>,
    /// Application bytes handed to the link, before compression.
    pub bytes_sent: usize,
    /// Link bytes the other station acknowledged: what actually crossed, after compression.
    pub bytes_acked: usize,
    /// Application bytes received, after decompression.
    pub bytes_received: usize,
    /// How it ended, in the link's words: `closed` (this station's disconnect, acknowledged),
    /// `closed (no disc ack)`, `peer disconnected`, `link timeout`, `no response`, `aborted`.
    pub end: String,
    /// The SNR of the last frame decoded from the other station (3 kHz reference).
    pub snr_mdb: Option<i64>,
    /// The best SNR any of its decoded frames had.
    pub best_snr_mdb: Option<i64>,
    /// How the other station last said it heard this one, from its acknowledgements.
    pub heard_there_mdb: Option<i64>,
    /// The fastest rung this station sent data at.
    pub top_rung_sent: Option<usize>,
    /// The fastest rung of data this station decoded from the other.
    pub top_rung_heard: Option<usize>,
    /// Whether the session was a Test session's.
    pub test: bool,
    /// The recording it went into, by file name, when it was recorded.
    pub recording: Option<String>,
}

impl Clone for Session {
    fn clone(&self) -> (r: Self)
        ensures
            r == *self,
    {
        Session {
            remote: self.remote.clone(),
            started_ms: self.started_ms,
            ended_ms: self.ended_ms,
            duration_us: self.duration_us,
            role: self.role,
            bandwidth_hz: self.bandwidth_hz,
            frequency_hz: self.frequency_hz,
            bytes_sent: self.bytes_sent,
            bytes_acked: self.bytes_acked,
            bytes_received: self.bytes_received,
            end: self.end.clone(),
            snr_mdb: self.snr_mdb,
            best_snr_mdb: self.best_snr_mdb,
            heard_there_mdb: self.heard_there_mdb,
            top_rung_sent: self.top_rung_sent,
            top_rung_heard: self.top_rung_heard,
            test: self.test,
            recording: match &self.recording {
                Some(s) => Some(s.clone()),
                None => None,
            },
        }
    }
}

impl Session {
    /// The session with its wall-clock times, given when it ended: the station keeps its own
    /// clock, the audio's, and it is the daemon that knows the date.
    pub fn ended_at(self, ended_ms: u64) -> (r: Self)
        ensures
            r == (Session {
                ended_ms,
                started_ms: if self.duration_us / 1000 <= ended_ms {
                    (ended_ms - self.duration_us / 1000) as u64
                } else {
                    0
                },
                ..self
            }),
    {
        let mut s = self;
        let lasted: u64 = s.duration_us / 1000;
        s.ended_ms = ended_ms;
        s.started_ms = if lasted <= ended_ms { ended_ms - lasted } else { 0 };
        s
    }
}

/// What the file of the list holds.
#[derive(Debug)]
pub struct File {
    /// The shape of the file.
    pub schema: u32,
    /// The sessions.
    pub sessions: Vec<Session>,
}

/// The list, and the file it lives in.
#[derive(Debug)]
pub struct SessionLog {
    sessions: Vec<Session>,
    path: Option<String>,
}

impl View for SessionLog {
    type V = Seq<Session>;

    closed spec fn view(&self) -> Seq<Session> {
        self.sessions@
    }
}

/// Sessions with one more, behind all that ended no earlier.
pub open spec fn filed(s: Seq<Session>, one: Session) -> Seq<Session>
    decreases s.len(),
{
    if s.len() == 0 || s.last().ended_ms >= one.ended_ms {
        s.push(one)
    } else {
        filed(s.drop_last(), one).push(s.last())
    }
}

/// The first `n` of some sessions, newest first; those that ended together as they stood.
pub open spec fn newest_first(s: Seq<Session>, n: nat) -> Seq<Session>
    decreases n,
{
    if n == 0 { Seq::empty() } else { filed(newest_first(s, (n - 1) as nat), s[n - 1]) }
}

/// No more sessions than are kept.
pub open spec fn bounded(s: Seq<Session>) -> Seq<Session> {
    if s.len() > LIMIT { s.subrange(0, LIMIT as int) } else { s }
}

/// The sessions among the first `n` that were with a station, or all of them where none is
/// named.
pub open spec fn with_station(s: Seq<Session>, remote: Option<Seq<char>>, n: nat) -> Seq<Session>
    decreases n,
{
    if n == 0 {
        Seq::empty()
    } else {
        let before = with_station(s, remote, (n - 1) as nat);
        let wanted = match remote {
            Some(call) => s[n - 1].remote@ == call,
            None => true,
        };
        if wanted { before.push(s[n - 1]) } else { before }
    }
}

/// How a station is asked for: without white space round it, in capitals.
pub open spec fn station_asked(remote: Option<&str>) -> Option<Seq<char>> {
    match remote {
        Some(r) => Some(ascii_uppercase(trimmed(r@))),
        None => None,
    }
}

fn keep_newest(v: &mut Vec<Session>)
    ensures
        final(v)@ == bounded(old(v)@),
{
    if v.len() > LIMIT {
        v.truncate(LIMIT);
    }
}

fn file_one(out: &mut Vec<Session>, one: Session)
    ensures
        final(out)@ == filed(old(out)@, one),
{
    let ghost s = out@;
    let mut at: usize = out.len();
    proof {
        assert(s.subrange(0, s.len() as int) =~= s);
        assert(filed(s, one) + Seq::<Session>::empty() =~= filed(s, one));
        assert(s.subrange(s.len() as int, s.len() as int) =~= Seq::empty());
    }
    while at > 0 && out[at - 1].ended_ms < one.ended_ms
        invariant
            at <= out.len(),
            out@ == s,
            filed(s, one) == filed(s.subrange(0, at as int), one) + s.subrange(at as int, s.len() as int),
        decreases at,
    {
        proof {
            let p = s.subrange(0, at as int);
            assert(p.last() == s[at - 1]);
            assert(p.drop_last() =~= s.subrange(0, at - 1));
            let q = filed(s.subrange(0, at - 1), one);
            assert(q.push(p.last()) + s.subrange(at as int, s.len() as int) =~= q + s.subrange(at - 1, s.len() as int));
        }
        at -= 1;
    }
    proof {
        let p = s.subrange(0, at as int);
        if at > 0 {
            assert(p.last() == s[at - 1]);
        }
        assert(filed(p, one) == p.push(one));
        assert(s.insert(at as int, one) =~= p.push(one) + s.subrange(at as int, s.len() as int));
    }
    out.insert(at, one);
}

impl SessionLog {
    /// A list kept in `path`, with what its file holds, if it could be read. A file that could
    /// not be read means an empty list: a history is not worth refusing to start.
    pub fn open(path: Option<String>, file: Option<File>) -> (r: Self)
        ensures
            r@ == match file {
                Some(f) => if f.schema == 1 {
                    bounded(newest_first(f.sessions@, f.sessions@.len()))
                } else {
                    Seq::empty()
                },
                None => Seq::empty(),
            },
            r.kept_in() == path,
    {
        let mut sessions: Vec<Session> = Vec::new();
        match file {
            Some(f) => {
                if f.schema == 1 {
                    let mut i: usize = 0;
                    while i < f.sessions.len()
                        invariant
                            i <= f.sessions.len(),
                            sessions@ == newest_first(f.sessions@, i as nat),
                        decreases f.sessions.len() - i,
                    {
                        file_one(&mut sessions, f.sessions[i].clone());
                        i += 1;
                    }
                    keep_newest(&mut sessions);
                }
            },
            None => {},
        }
        SessionLog { sessions, path }
    }

    /// Where the list is kept, if anywhere.
    pub closed spec fn kept_in(self) -> Option<String> {
        self.path
    }

    /// Add a session that has ended.
    pub fn add(&mut self, session: Session)
        ensures
            final(self)@ == bounded(seq![session] + old(self)@),
            final(self).kept_in() == old(self).kept_in(),
    {
        let ghost before = self.sessions@;
        self.sessions.insert(0, session);
        proof {
            assert(self.sessions@ =~= seq![session] + before);
        }
        keep_newest(&mut self.sessions);
    }

    /// The sessions, newest first: with one station, when `remote` names it.
    pub fn sessions(&self, remote: Option<&str>) -> (r: Vec<Session>)
        ensures
            r@ == with_station(self@, station_asked(remote), self@.len()),
    {
        let asked: Option<String> = match remote {
            Some(s) => Some(to_ascii_upper(&trim(s))),
            None => None,
        };
        let mut out: Vec<Session> = Vec::new();
        let mut i: usize = 0;
        while i < self.sessions.len()
            invariant
                i <= self.sessions.len(),
                match asked {
                    Some(s) => station_asked(remote) == Some(s@),
                    None => station_asked(remote) is None,
                },
                out@ == with_station(self.sessions@, station_asked(remote), i as nat),
            decreases self.sessions.len() - i,
        {
            let wanted: bool = match &asked {
                Some(s) => same(&self.sessions[i].remote, s),
                None => true,
            };
            if wanted {
                out.push(self.sessions[i].clone());
            }
            i += 1;
        }
        out
    }

    /// Forget them all. Returns how many there were.
    pub fn clear(&mut self) -> (r: usize)
        ensures
            r == old(self)@.len(),
            final(self)@ == Seq::<Session>::empty(),
            final(self).kept_in() == old(self).kept_in(),
    {
        let count: usize = self.sessions.len();
        self.sessions.clear();
        count
    }

    /// Where the list is kept, if anywhere.
    pub fn path(&self) -> (r: Option<&String>)
        ensures
            match r {
                Some(s) => self.kept_in() == Some(*s),
                None => self.kept_in() is None,
            },
    {
        match &self.path {
            Some(s) => Some(s),
            None => None,
        }
    }

    /// What the file of the list is to hold.
    pub fn save(&self) -> (r: File)
        ensures
            r.schema == 1,
            r.sessions@ == self@,
    {
        let mut out: Vec<Session> = Vec::new();
        let mut i: usize = 0;
        while i < self.sessions.len()
            invariant
                i <= self.sessions.len(),
                out@ == self.sessions@.subrange(0, i as int),
            decreases self.sessions.len() - i,
        {
            out.push(self.sessions[i].clone());
            proof {
                assert(self.sessions@.subrange(0, i + 1) =~= self.sessions@.subrange(0, i as int).push(
                    self.sessions@[i as int],
                ));
            }
            i += 1;
        }
        proof {
            assert(self.sessions@.subrange(0, i as int) =~= self.sessions@);
        }
        File { schema: 1, sessions: out }
    }
}

/// Whether sessions are newest first.
pub open spec fn in_order(s: Seq<Session>) -> bool {
    forall|i: int, j: int| 0 <= i <= j < s.len() ==> (#[trigger] s[i]).ended_ms >= (#[trigger] s[j]).ended_ms
}

proof fn lemma_filed(s: Seq<Session>, one: Session)
    requires
        in_order(s),
    ensures
        in_order(filed(s, one)),
        filed(s, one).len() == s.len() + 1,
        filed(s, one).to_multiset() =~= s.to_multiset().insert(one),
        s.len() > 0 && one.ended_ms < s.last().ended_ms ==> filed(s, one).last() == one,
        forall|i: int|
            0 <= i < filed(s, one).len() ==> (#[trigger] filed(s, one)[i]).ended_ms == one.ended_ms || exists|j: int|
                0 <= j < s.len() && (#[trigger] s[j]).ended_ms == filed(s, one)[i].ended_ms,
    decreases s.len(),
{
    broadcast use vstd::seq_lib::group_to_multiset_ensures;

    let r = filed(s, one);
    if s.len() == 0 || s.last().ended_ms >= one.ended_ms {
        assert(r == s.push(one));
        assert forall|i: int, j: int| 0 <= i <= j < r.len() implies (#[trigger] r[i]).ended_ms >= (
        #[trigger] r[j]).ended_ms by {
            if j == s.len() && i < s.len() {
                assert(s[i].ended_ms >= s[s.len() - 1].ended_ms);
            }
        }
        assert forall|i: int| 0 <= i < r.len() implies (#[trigger] r[i]).ended_ms == one.ended_ms || exists|j: int|
            0 <= j < s.len() && (#[trigger] s[j]).ended_ms == r[i].ended_ms by {
            if i < s.len() {
                assert(s[i] == r[i]);
            }
        }
    } else {
        let rest = s.drop_last();
        assert forall|i: int, j: int| 0 <= i <= j < rest.len() implies (#[trigger] rest[i]).ended_ms >= (
        #[trigger] rest[j]).ended_ms by {
            assert(rest[i] == s[i] && rest[j] == s[j]);
        }
        lemma_filed(rest, one);
        let q = filed(rest, one);
        assert(r == q.push(s.last()));
        assert(rest.push(s.last()) =~= s);
        assert(s.to_multiset() =~= rest.to_multiset().insert(s.last()));
        assert forall|i: int| 0 <= i < q.len() implies (#[trigger] q[i]).ended_ms >= s.last().ended_ms by {
            if q[i].ended_ms != one.ended_ms {
                let k = choose|k: int| 0 <= k < rest.len() && (#[trigger] rest[k]).ended_ms == q[i].ended_ms;
                assert(s[k] == rest[k]);
                assert(s[k].ended_ms >= s[s.len() - 1].ended_ms);
            }
        }
        assert forall|i: int, j: int| 0 <= i <= j < r.len() implies (#[trigger] r[i]).ended_ms >= (
        #[trigger] r[j]).ended_ms by {
            if j < q.len() {
                assert(r[i] == q[i] && r[j] == q[j]);
            } else if i < q.len() {
                assert(r[i] == q[i]);
            }
        }
        assert forall|i: int| 0 <= i < r.len() implies (#[trigger] r[i]).ended_ms == one.ended_ms || exists|j: int|
            0 <= j < s.len() && (#[trigger] s[j]).ended_ms == r[i].ended_ms by {
            if i < q.len() {
                assert(r[i] == q[i]);
                if q[i].ended_ms != one.ended_ms {
                    let k = choose|k: int| 0 <= k < rest.len() && (#[trigger] rest[k]).ended_ms == q[i].ended_ms;
                    assert(s[k] == rest[k]);
                }
            } else {
                assert(s[s.len() - 1] == r[i]);
            }
        }
    }
}

/// Putting sessions in order loses none and makes none up, and the newest come first.
pub proof fn the_sessions_are_newest_first(s: Seq<Session>, n: nat)
    requires
        n <= s.len(),
    ensures
        in_order(newest_first(s, n)),
        newest_first(s, n).len() == n,
        newest_first(s, n).to_multiset() =~= s.subrange(0, n as int).to_multiset(),
    decreases n,
{
    broadcast use vstd::seq_lib::group_to_multiset_ensures;

    if n == 0 {
        assert(s.subrange(0, 0) =~= Seq::empty());
    } else {
        let m = (n - 1) as nat;
        the_sessions_are_newest_first(s, m);
        lemma_filed(newest_first(s, m), s[n - 1]);
        assert(s.subrange(0, n as int) =~= s.subrange(0, m as int).push(s[n - 1]));
    }
}

/// The list is bounded, and a session that ends last is first in it.
pub proof fn a_new_session_is_first(s: Seq<Session>, one: Session)
    requires
        s.len() <= LIMIT,
    ensures
        bounded(seq![one] + s).len() <= LIMIT,
        bounded(seq![one] + s)[0] == one,
        in_order(s) && (s.len() > 0 ==> one.ended_ms >= s[0].ended_ms) ==> in_order(bounded(seq![one] + s)),
{
    let r = bounded(seq![one] + s);
    if in_order(s) && (s.len() > 0 ==> one.ended_ms >= s[0].ended_ms) {
        assert forall|i: int, j: int| 0 <= i <= j < r.len() implies (#[trigger] r[i]).ended_ms >= (
        #[trigger] r[j]).ended_ms by {
            if j > 0 {
                assert(r[j] == s[j - 1]);
                if i > 0 {
                    assert(r[i] == s[i - 1]);
                } else {
                    assert(s[0].ended_ms >= s[j - 1].ended_ms);
                }
            }
        }
    }
}

/// The sessions survive a restart in their file: what is saved and opened again is the list
/// that was.
pub proof fn the_sessions_survive_a_restart(s: Seq<Session>)
    requires
        in_order(s),
        s.len() <= LIMIT,
    ensures
        bounded(newest_first(s, s.len())) == s,
{
    lemma_in_order_stays(s, s.len());
    assert(s.subrange(0, s.len() as int) =~= s);
}

proof fn lemma_in_order_stays(s: Seq<Session>, n: nat)
    requires
        in_order(s),
        n <= s.len(),
    ensures
        newest_first(s, n) == s.subrange(0, n as int),
    decreases n,
{
    if n == 0 {
        assert(s.subrange(0, 0) =~= Seq::empty());
    } else {
        lemma_in_order_stays(s, (n - 1) as nat);
        let p = s.subrange(0, n - 1);
        if n > 1 {
            assert(p.last() == s[n - 2]);
            assert(s[n - 2].ended_ms >= s[n - 1].ended_ms);
        }
        assert(p.push(s[n - 1]) =~= s.subrange(0, n as int));
    }
}

} // verus!
