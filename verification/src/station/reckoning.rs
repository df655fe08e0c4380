//! What a session's figures mean: its throughput, the readings that are kept of it, and how long it
//! was up.
use vstd::prelude::*;

use crate::sessions::{Role, Session};
use crate::station::account::{
    accounted, best, finished_with, first_notes, is_history, moved_within, noted, recent, throughput, top, without_old,
    Crossing, Ending, LinkAccount, Notes,
};
use crate::station::frames::Report;

verus! {

/// The bytes of the crossings at or after a time.
pub open spec fn bytes_since(s: Seq<(u64, u64)>, from_us: int) -> nat
    decreases s.len(),
{
    if s.len() == 0 {
        0
    } else {
        (if s[0].0 >= from_us { s[0].1 as nat } else { 0 }) + bytes_since(s.drop_first(), from_us)
    }
}

proof fn lemma_since_push(s: Seq<(u64, u64)>, one: (u64, u64), from_us: int)
    ensures
        bytes_since(s.push(one), from_us) == bytes_since(s, from_us) + if one.0 >= from_us { one.1 as nat } else { 0 },
    decreases s.len(),
{
    if s.len() == 0 {
        assert(s.push(one).drop_first() =~= Seq::empty());
        assert(bytes_since(s.push(one).drop_first(), from_us) == 0);
    } else {
        assert(s.push(one).drop_first() =~= s.drop_first().push(one));
        lemma_since_push(s.drop_first(), one, from_us);
    }
}

proof fn lemma_within_is_since(s: Seq<(u64, u64)>, now_us: u64, n: nat)
    requires
        n <= s.len(),
    ensures
        moved_within(s, now_us, n) == bytes_since(s.subrange(0, n as int), now_us - 30_000_000),
    decreases n,
{
    if n > 0 {
        lemma_within_is_since(s, now_us, (n - 1) as nat);
        assert(s.subrange(0, n as int) =~= s.subrange(0, n - 1).push(s[n - 1]));
        lemma_since_push(s.subrange(0, n - 1), s[n - 1], now_us - 30_000_000);
    } else {
        assert(s.subrange(0, 0).len() == 0);
    }
}

/// The throughput is the bits that crossed over the time they crossed in. In thousandths of a bit
/// per second, times the microseconds it is taken over, it is eight bits for every byte that crossed
/// in the last thirty seconds, to the last thousandth below; and it is taken over the time the
/// session is up, a second at least and thirty at most.
pub proof fn throughput_is_bits_over_time(c: Crossing, link: LinkAccount, now_us: u64)
    ensures
        ({
            let r = throughput(c, Some(link), now_us);
            let up = now_us - link.started_us;
            let over: int = if up < 1_000_000 {
                1_000_000
            } else if up > 30_000_000 {
                30_000_000
            } else {
                up
            };
            let bits = 8 * bytes_since(c.moved, now_us - 30_000_000);
            r * over <= bits * 1_000_000_000 < (r + 1) * over
        }),
        throughput(c, None, now_us) == 0,
{
    let up = now_us - link.started_us;
    let over: int = if up < 1_000_000 {
        1_000_000
    } else if up > 30_000_000 {
        30_000_000
    } else {
        up
    };
    lemma_within_is_since(c.moved, now_us, c.moved.len());
    assert(c.moved.subrange(0, c.moved.len() as int) =~= c.moved);
    let bits = 8 * bytes_since(c.moved, now_us - 30_000_000);
    let all = (bits * 1_000_000_000) as int;
    let r = throughput(c, Some(link), now_us);
    assert(r as int == all / over);
    assert(r * over <= all < (r + 1) * over) by (nonlinear_arith)
        requires
            r as int == all / over,
            over > 0,
    ;
}

proof fn lemma_nothing_recent_goes(s: Seq<(u64, u64)>, now_us: u64)
    ensures
        bytes_since(without_old(s, now_us), now_us - 30_000_000) == bytes_since(s, now_us - 30_000_000),
    decreases s.len(),
{
    if s.len() > 0 && !recent(s[0].0, now_us) {
        lemma_nothing_recent_goes(s.drop_first(), now_us);
    }
}

/// The account is of what crossed: while a session is up, what the engine's count has grown by is
/// added to the bytes of the last thirty seconds, no more and no less, and nothing of them is lost;
/// otherwise, or where the count has not grown, they stay as they were. The count is taken over
/// either way, so that nothing counts twice.
pub proof fn what_crossed_is_counted_once(c: Crossing, now_us: u64, crossed: u64, up: bool)
    ensures
        ({
            let after = accounted(c, now_us, crossed, up);
            let grown: int = if up && crossed > c.crossed { crossed - c.crossed } else { 0 };
            &&& after.crossed == crossed
            &&& bytes_since(after.moved, now_us - 30_000_000) == bytes_since(c.moved, now_us - 30_000_000) + grown
            &&& accounted(after, now_us, crossed, up) == after
        }),
{
    let grown: int = if up && crossed > c.crossed { crossed - c.crossed } else { 0 };
    if grown > 0 {
        let all = c.moved.push((now_us, grown as u64));
        lemma_since_push(c.moved, (now_us, grown as u64), now_us - 30_000_000);
        lemma_nothing_recent_goes(all, now_us);
    }
}

/// A session that crossed `n` bytes at once reads eight thousand thousandths of a bit per second for
/// each, over the whole seconds it has been up, one to thirty.
pub proof fn a_session_reads_its_rate(started_us: u64, seconds: u64, n: u64, link: LinkAccount)
    requires
        1 <= seconds <= 30,
        started_us <= 1_000_000_000_000_000,
        link.started_us == started_us,
        n > 0,
    ensures
        ({
            let now = (started_us + seconds * 1_000_000) as u64;
            let c = accounted(Crossing { moved: Seq::empty(), crossed: 0 }, now, n, true);
            throughput(c, Some(link), now) == 8000 * n / seconds as int
        }),
{
    let now = (started_us + seconds * 1_000_000) as u64;
    let empty = Crossing { moved: Seq::<(u64, u64)>::empty(), crossed: 0 };
    what_crossed_is_counted_once(empty, now, n, true);
    let c = accounted(empty, now, n, true);
    assert(bytes_since(empty.moved, now - 30_000_000) == 0);
    assert(bytes_since(c.moved, now - 30_000_000) == n);
    throughput_is_bits_over_time(c, link, now);
    let r = throughput(c, Some(link), now);
    let k = seconds as int;
    assert(r * (k * 1_000_000) <= 8 * n * 1_000_000_000 < (r + 1) * (k * 1_000_000));
    assert(r * (k * 1_000_000) == (r * k) * 1_000_000) by (nonlinear_arith);
    assert((r + 1) * (k * 1_000_000) == ((r + 1) * k) * 1_000_000) by (nonlinear_arith);
    assert(r * k <= 8000 * n < (r + 1) * k);
    assert(r as int == 8000 * n / k) by (nonlinear_arith)
        requires
            r * k <= 8000 * n < (r + 1) * k,
            k > 0,
    ;
}

/// The best reading is the best: no worse than any that counted, and one of them.
pub proof fn the_best_is_the_best(a: Option<i64>, b: i64, rung: Option<usize>, mode: usize)
    ensures
        best(a, b) is Some && best(a, b)->0 >= b && (a is Some ==> best(a, b)->0 >= a->0) && (best(a, b) == Some(b)
            || best(a, b) == a),
        top(rung, mode) is Some && top(rung, mode)->0 >= mode && (rung is Some ==> top(rung, mode)->0 >= rung->0) && (top(
            rung,
            mode,
        ) == Some(mode) || top(rung, mode) == rung),
{
}

/// Only what the other station sent, and was decoded, counts for what is kept of its signal: the
/// last such frame's, and the best of all; and its rung only where it was data. Nothing that was
/// heard changes who the session is with, who called, or what was sent.
pub proof fn only_the_other_stations_frames_count(n: Notes, r: Report)
    ensures
        ({
            let after = noted(n, r);
            let counts = r.decoded && r.from == Some(n.remote);
            &&& !counts ==> after == n
            &&& counts ==> after.snr_mdb == Some(r.snr_mdb) && after.best_snr_mdb is Some && after.best_snr_mdb->0
                >= r.snr_mdb && (n.best_snr_mdb is Some ==> after.best_snr_mdb->0 >= n.best_snr_mdb->0)
            &&& counts && r.kind == "data"@ ==> after.top_rung_heard is Some && after.top_rung_heard->0 >= r.mode && (
            n.top_rung_heard is Some ==> after.top_rung_heard->0 >= n.top_rung_heard->0) && (after.top_rung_heard == Some(
                r.mode,
            ) || after.top_rung_heard == n.top_rung_heard)
            &&& r.kind != "data"@ ==> after.top_rung_heard == n.top_rung_heard
            &&& after.remote == n.remote && after.caller == n.caller && after.top_rung_sent == n.top_rung_sent
            &&& after.acked_at_start == n.acked_at_start && after.frequency_hz == n.frequency_hz && after.heard_there_mdb
                == n.heard_there_mdb
        }),
{
}

/// A session that just came up has heard and sent nothing.
pub proof fn a_new_session_has_no_readings(detail: Seq<char>, frequency_hz: Option<u64>, acked: usize)
    ensures
        ({
            let n = first_notes(detail, frequency_hz, acked);
            &&& n.snr_mdb is None && n.best_snr_mdb is None && n.heard_there_mdb is None
            &&& n.top_rung_sent is None && n.top_rung_heard is None
            &&& n.frequency_hz == frequency_hz && n.acked_at_start == acked
        }),
{
}

/// What the history says of a session is what happened: how long it was up to the nearest tenth of
/// a second, the bytes acknowledged since it came up, and the dial at its end where that is known.
pub proof fn the_history_is_what_happened(
    s: Session,
    n: Notes,
    l: LinkAccount,
    e: Ending,
    end: Seq<char>,
    recording: Option<Seq<char>>,
)
    requires
        is_history(s, n, l, e, end, recording),
        l.started_us <= e.now_us,
    ensures
        s.duration_us % 100_000 == 0,
        -50_000 <= s.duration_us - (e.now_us - l.started_us) <= 50_000,
        e.bytes_acked >= n.acked_at_start ==> s.bytes_acked + n.acked_at_start == e.bytes_acked,
        e.bytes_acked < n.acked_at_start ==> s.bytes_acked == 0,
        s.frequency_hz == e.frequency_hz || (e.frequency_hz is None && s.frequency_hz == n.frequency_hz),
        s.role == Role::Caller <==> n.caller,
        s.bytes_sent == l.bytes_sent,
        s.bytes_received == l.bytes_received,
        s.remote@ == n.remote,
        s.end@ == end,
        s.bandwidth_hz == e.bandwidth_hz,
        s.test == e.test,
        s.snr_mdb == n.snr_mdb,
        s.best_snr_mdb == n.best_snr_mdb,
        s.heard_there_mdb == n.heard_there_mdb,
        s.top_rung_sent == n.top_rung_sent,
        s.top_rung_heard == n.top_rung_heard,
{
}

/// A session that ended is held behind those before it, the newest sixty-four of them.
pub proof fn the_newest_sessions_are_held(s: Seq<Session>, one: Session)
    ensures
        finished_with(s, one).last() == one,
        s.len() < 64 ==> finished_with(s, one) =~= s.push(one),
        s.len() >= 64 ==> finished_with(s, one) =~= s.drop_first().push(one),
        s.len() <= 64 ==> finished_with(s, one).len() <= 64,
{
}

} // verus!
