//! What is kept of the air: recordings, their replay, the history of sessions, and what crosses a
//! simulated channel.
use vstd::prelude::*;

use crate::json::{field, lookup, Number, Tree};
use crate::record::{
    clean_call, compact, decoded_among, event_tree, frame_tree, frame_trees, header, le32, name_of, pcm, pcm_bytes,
    sent_tree, sidecar_tree, FrameRecord, SentRecord, Tape,
};
use crate::replay::{covers, deaf, keying_step, Keying, Muted};
use crate::sessions::{with_station, Session};
use crate::sim::{after_capture, captured, consumed_by, words, Wire};

verus! {

/// A number in four bytes, the least first.
pub open spec fn four(b: Seq<u8>, at: int) -> int {
    b[at] + 256 * (b[at + 1] + 256 * (b[at + 2] + 256 * b[at + 3]))
}

proof fn lemma_four_bytes(n: nat)
    requires
        n <= u32::MAX,
    ensures
        le32(n).len() == 4,
        four(le32(n), 0) == n,
{
    let a = n / 256;
    let b = n / 65_536;
    let c = n / 16_777_216;
    assert(b == a / 256);
    assert(c == b / 256);
    assert(c < 256);
}

proof fn lemma_four_at(b: Seq<u8>, at: int, n: nat)
    requires
        0 <= at,
        at + 4 <= b.len(),
        n <= u32::MAX,
        b.subrange(at, at + 4) == le32(n),
    ensures
        four(b, at) == n,
{
    lemma_four_bytes(n);
    let s = b.subrange(at, at + 4);
    assert(s[0] == b[at] && s[1] == b[at + 1] && s[2] == b[at + 2] && s[3] == b[at + 3]);
}

/// A recording's file says what it is: a RIFF WAVE of one channel of sixteen-bit samples at its rate,
/// with as many bytes behind the header as its samples take, two each.
pub proof fn a_header_says_what_follows(rate: nat, samples: nat)
    requires
        2 * rate <= u32::MAX,
        36 + 2 * samples <= u32::MAX,
    ensures
        ({
            let b = header(rate, samples);
            &&& b.len() == 44
            &&& b[0] == 0x52 && b[1] == 0x49 && b[2] == 0x46 && b[3] == 0x46
            &&& four(b, 4) == 36 + 2 * samples
            &&& b[8] == 0x57 && b[9] == 0x41 && b[10] == 0x56 && b[11] == 0x45
            &&& b[12] == 0x66 && b[13] == 0x6d && b[14] == 0x74 && b[15] == 0x20
            &&& four(b, 16) == 16
            &&& b[20] == 1 && b[21] == 0 && b[22] == 1 && b[23] == 0
            &&& four(b, 24) == rate
            &&& four(b, 28) == 2 * rate
            &&& b[32] == 2 && b[33] == 0 && b[34] == 16 && b[35] == 0
            &&& b[36] == 0x64 && b[37] == 0x61 && b[38] == 0x74 && b[39] == 0x61
            &&& four(b, 40) == 2 * samples
        }),
{
    let b = header(rate, samples);
    lemma_four_bytes(36 + 2 * samples);
    lemma_four_bytes(16);
    lemma_four_bytes(rate);
    lemma_four_bytes(2 * rate);
    lemma_four_bytes(2 * samples);
    assert(b.len() == 44);
    assert(b.subrange(0, 4) =~= seq![82u8, 73u8, 70u8, 70u8]);
    assert(b[0] == b.subrange(0, 4)[0] && b[1] == b.subrange(0, 4)[1] && b[2] == b.subrange(0, 4)[2] && b[3] == b.subrange(
        0,
        4,
    )[3]);
    assert(b.subrange(4, 8) =~= le32(36 + 2 * samples));
    lemma_four_at(b, 4, 36 + 2 * samples);
    assert(b.subrange(8, 16) =~= seq![87u8, 65u8, 86u8, 69u8, 102u8, 109u8, 116u8, 32u8]);
    assert(forall|k: int| 0 <= k < 8 ==> b[8 + k] == #[trigger] b.subrange(8, 16)[k]);
    assert(b.subrange(16, 20) =~= le32(16));
    lemma_four_at(b, 16, 16);
    assert(b.subrange(20, 24) =~= seq![1u8, 0u8, 1u8, 0u8]);
    assert(forall|k: int| 0 <= k < 4 ==> b[20 + k] == #[trigger] b.subrange(20, 24)[k]);
    assert(b.subrange(24, 28) =~= le32(rate));
    lemma_four_at(b, 24, rate);
    assert(b.subrange(28, 32) =~= le32(2 * rate));
    lemma_four_at(b, 28, 2 * rate);
    assert(b.subrange(32, 36) =~= seq![2u8, 0u8, 16u8, 0u8]);
    assert(forall|k: int| 0 <= k < 4 ==> b[32 + k] == #[trigger] b.subrange(32, 36)[k]);
    assert(b.subrange(36, 40) =~= seq![100u8, 97u8, 116u8, 97u8]);
    assert(forall|k: int| 0 <= k < 4 ==> b[36 + k] == #[trigger] b.subrange(36, 40)[k]);
    assert(b.subrange(40, 44) =~= le32(2 * samples));
    lemma_four_at(b, 40, 2 * samples);
}

/// A sample is kept in two bytes, the lower first, a negative one as its complement.
pub proof fn a_sample_is_two_bytes(samples: Seq<int>, i: int)
    requires
        0 <= i < samples.len(),
        -32_768 <= samples[i] < 32_768,
    ensures
        pcm_bytes(samples).len() == 2 * samples.len(),
        ({
            let n = pcm_bytes(samples)[2 * i] + 256 * pcm_bytes(samples)[2 * i + 1];
            n == samples[i] || n == samples[i] + 65_536
        }),
{
    assert((2 * i) / 2 == i && (2 * i) % 2 == 0);
    assert((2 * i + 1) / 2 == i && (2 * i + 1) % 2 == 1);
}

/// Of audio in several channels the first is read: each sample is the number in the two bytes its frame
/// begins with.
pub proof fn the_first_channel_is_read(b: Seq<u8>, start: int, end: int, width: int, i: int)
    requires
        0 <= start <= end <= b.len(),
        width >= 2,
        0 <= i < (end - start) / width,
    ensures
        pcm(b, start, end, width).len() == (end - start) / width,
        ({
            let n = b[start + i * width] + 256 * b[start + i * width + 1];
            pcm(b, start, end, width)[i] == if n < 32_768 { n } else { n - 65_536 }
        }),
{
}

/// The decoded frames of a recording are counted, each once.
pub proof fn every_decoded_frame_counts(frames: Seq<FrameRecord>, n: nat)
    requires
        n < frames.len(),
    ensures
        decoded_among(frames, 0) == 0,
        decoded_among(frames, n + 1) == decoded_among(frames, n) + if frames[n as int].decoded { 1int } else { 0int },
{
}

proof fn lemma_names()
    ensures
        "t_s"@ != "detail"@,
        "t_s"@ != "event"@,
        "t_s"@ != "state"@,
        "detail"@ != "event"@,
        "state"@ != "detail"@,
        "state"@ != "event"@,
{
    reveal_strlit("t_s");
    reveal_strlit("detail");
    reveal_strlit("event");
    reveal_strlit("state");
    assert("t_s"@.len() == 3 && "detail"@.len() == 6 && "event"@.len() == 5 && "state"@.len() == 5);
    assert("event"@[0] == 'e' && "state"@[0] == 's');
}

proof fn lemma_four(t: Seq<(Seq<char>, Tree)>, key: Seq<char>)
    requires
        t.len() == 4,
    ensures
        lookup(t, key) == if t[0].0 == key {
            Some(t[0].1)
        } else if t[1].0 == key {
            Some(t[1].1)
        } else if t[2].0 == key {
            Some(t[2].1)
        } else if t[3].0 == key {
            Some(t[3].1)
        } else {
            None
        },
{
    reveal_with_fuel(lookup, 5);
    let a = t.drop_first();
    let b = a.drop_first();
    let c = b.drop_first();
    assert(a[0] == t[1] && b[0] == t[2] && c[0] == t[3] && c.drop_first().len() == 0);
}

/// An event in a recording says what happened, in what state, and when, in seconds from its beginning.
pub proof fn an_event_says_what_and_when(us: int, event: Seq<char>, detail: Seq<char>, state: Seq<char>)
    requires
        -1_000_000_000_000_000_000 <= us <= 1_000_000_000_000_000_000,
    ensures
        ({
            let t = event_tree(us, event, detail, state);
            &&& field(t, "event"@) == Some(Tree::Text(event))
            &&& field(t, "detail"@) == Some(Tree::Text(detail))
            &&& field(t, "state"@) == Some(Tree::Text(state))
            &&& field(t, "t_s"@) matches Some(Tree::Number(n)) && n.nano() == us * 1000
        }),
{
    lemma_names();
    let t = event_tree(us, event, detail, state)->Table_0;
    lemma_four(t, "event"@);
    lemma_four(t, "detail"@);
    lemma_four(t, "state"@);
    lemma_four(t, "t_s"@);
}

/// A keying that was recorded is found again: where the key went down at one time and came up at
/// another, the station was deaf from the one to the other, and until the end where it never came up.
pub proof fn a_recorded_keying_is_found_again(k: Keying, down: int, up: int, word: Seq<char>, also: Seq<char>)
    requires
        k.since is None,
        0 <= down <= 1_000_000_000_000_000_000,
        0 <= up <= 1_000_000_000_000_000_000,
    ensures
        ({
            let a = keying_step(k, event_tree(down, "ptt"@, "keyed"@, word));
            let b = keying_step(a, event_tree(up, "ptt"@, "released"@, also));
            &&& a.since == Some((down * 1000) as i128) && a.muted == k.muted
            &&& b.since is None && b.muted == k.muted.push(
                Muted { from: (down * 1000) as i128, until: Some((up * 1000) as i128) },
            )
        }),
{
    an_event_says_what_and_when(down, "ptt"@, "keyed"@, word);
    an_event_says_what_and_when(up, "ptt"@, "released"@, also);
}

/// An event that is not of the key changes nothing of when the station was deaf.
pub proof fn only_the_key_makes_deaf(k: Keying, us: int, event: Seq<char>, detail: Seq<char>, word: Seq<char>)
    requires
        -1_000_000_000_000_000_000 <= us <= 1_000_000_000_000_000_000,
        event != "ptt"@,
    ensures
        keying_step(k, event_tree(us, event, detail, word)) == k,
{
    an_event_says_what_and_when(us, event, detail, word);
}

/// A station is deaf in a replay exactly while its key was down: at a sample whose time, by the rate,
/// is at or after a keying and before its release, if it had one.
pub proof fn deaf_is_while_keyed(muted: Seq<Muted>, seen: nat, rate: nat)
    ensures
        deaf(muted, seen, rate) <==> exists|i: int|
            0 <= i < muted.len() && (#[trigger] muted[i]).from * rate <= 1_000_000_000 * seen && (muted[i].until is Some
                ==> 1_000_000_000 * seen < muted[i].until->0 * rate),
{
    if deaf(muted, seen, rate) {
        let i = choose|i: int| 0 <= i < muted.len() && covers(#[trigger] muted[i], seen, rate);
        assert(muted[i].from * rate <= 1_000_000_000 * seen);
    }
    if exists|i: int|
        0 <= i < muted.len() && (#[trigger] muted[i]).from * rate <= 1_000_000_000 * seen && (muted[i].until is Some
            ==> 1_000_000_000 * seen < muted[i].until->0 * rate) {
        let i = choose|i: int|
            0 <= i < muted.len() && (#[trigger] muted[i]).from * rate <= 1_000_000_000 * seen && (muted[i].until is Some
                ==> 1_000_000_000 * seen < muted[i].until->0 * rate);
        assert(covers(muted[i], seen, rate));
    }
}

/// A frame in a recording says what was measured of it: its numbers with their decimals, its time in
/// seconds from the beginning.
pub proof fn a_frame_says_what_was_measured(f: FrameRecord)
    ensures
        ({
            let t = frame_tree(f)->Table_0;
            &&& t.len() == 11
            &&& t[0] == ("bytes"@, Tree::Number(Number::Unsigned(f.bytes as u64)))
            &&& f.cfo_mhz is None ==> t[1] == ("cfo_hz"@, Tree::Null)
            &&& f.cfo_mhz matches Some(x) ==> t[1].0 == "cfo_hz"@ && (t[1].1 matches Tree::Number(n) && n.nano() == x * 1_000_000)
            &&& t[2].0 == "confidence"@ && (t[2].1 matches Tree::Number(n) && n.nano() == f.confidence * 1_000_000)
            &&& t[4] == ("decoded"@, Tree::Bool(f.decoded))
            &&& t[5].0 == "detect_confidence"@ && (t[5].1 matches Tree::Number(n) && n.nano() == f.detect_confidence * 1_000_000)
            &&& t[6] == ("kind"@, Tree::Text(f.kind@))
            &&& t[7] == ("mode"@, Tree::Number(Number::Unsigned(f.mode as u64)))
            &&& t[9].0 == "snr_3k_db"@ && (t[9].1 matches Tree::Number(n) && n.nano() == f.snr_3k_mdb * 1_000_000)
            &&& t[10].0 == "t_s"@ && (t[10].1 matches Tree::Number(n) && n.nano() == f.t_us * 1000)
        }),
{
}

/// A frame that was sent is kept with what it was and when.
pub proof fn a_sent_frame_says_what_it_was(us: int, f: SentRecord)
    requires
        -1_000_000_000_000_000_000 <= us <= 1_000_000_000_000_000_000,
    ensures
        ({
            let t = sent_tree(us, f)->Table_0;
            &&& t.len() == 6
            &&& t[0] == ("bytes"@, Tree::Number(Number::Unsigned(f.bytes as u64)))
            &&& t[1] == ("floor"@, Tree::Bool(f.floor))
            &&& t[2] == ("kind"@, Tree::Text(f.kind@))
            &&& t[3] == ("mode"@, Tree::Number(Number::Unsigned(f.mode as u64)))
            &&& t[4] == ("rv"@, Tree::Number(Number::Unsigned(f.rv as u64)))
            &&& t[5].0 == "t_s"@ && (t[5].1 matches Tree::Number(n) && n.nano() == us * 1000)
        }),
{
}

proof fn lemma_frame_trees(frames: Seq<FrameRecord>, n: nat, i: int)
    requires
        0 <= i < n <= frames.len(),
    ensures
        frame_trees(frames, n).len() == n,
        frame_trees(frames, n)[i] == frame_tree(frames[i]),
    decreases n,
{
    if n > 1 {
        if i < n - 1 {
            lemma_frame_trees(frames, (n - 1) as nat, i);
        } else {
            lemma_frame_trees(frames, (n - 1) as nat, 0);
        }
    } else {
        assert(frame_trees(frames, 0).len() == 0);
    }
}

/// A recording's sidecar holds the recording: every frame in its order, what was sent, every event, and
/// of the audio its file, its samples, and how long they last, to the billionth of a second.
pub proof fn a_sidecar_holds_the_recording(t: Tape, version: Seq<char>, ended: Tree, counters: Tree, i: int)
    requires
        t.sample_rate > 0,
        0 <= i < t.frames.len(),
    ensures
        ({
            let s = sidecar_tree(t, version, ended, counters)->Table_0;
            let audio = s[0].1->Table_0;
            &&& s.len() == 10
            &&& s[0].0 == "audio"@ && audio.len() == 6
            &&& audio[2] == ("file"@, Tree::Text(t.wav))
            &&& audio[3] == ("sample_rate"@, Tree::Number(Number::Unsigned(t.sample_rate as u64)))
            &&& audio[4] == ("samples"@, Tree::Number(Number::Unsigned(t.samples)))
            &&& audio[5].0 == "seconds"@ && (audio[5].1 matches Tree::Number(n) && n.nano() * t.sample_rate <= t.samples
                * 1_000_000_000 < (n.nano() + 1) * t.sample_rate)
            &&& s[1] == ("counters"@, counters) && s[2] == ("ended"@, ended) && s[3] == ("events"@, Tree::List(t.events))
            &&& s[5].0 == "frames"@ && s[5].1->List_0.len() == t.frames.len() && s[5].1->List_0[i] == frame_tree(t.frames[i])
            &&& s[6] == ("sent"@, Tree::List(t.sent)) && s[7] == ("session"@, t.meta) && s[8] == (
                "started"@,
                Tree::Text(t.started),
            )
        }),
{
    lemma_frame_trees(t.frames, t.frames.len(), i);
    let rate = t.sample_rate as int;
    let all = t.samples * 1_000_000_000;
    let q = all / rate;
    assert(q * rate <= all < (q + 1) * rate) by (nonlinear_arith)
        requires
            q == all / rate,
            rate > 0,
    ;
    assert(0 <= q <= all) by (nonlinear_arith)
        requires
            q == all / rate,
            rate > 0,
            all >= 0,
    ;
}

/// A recording is named after when it began and who is on it: the other station, or that nobody is.
pub proof fn a_recording_is_named_after_who_is_on_it(stamp: Seq<char>, callsign: Seq<char>, remote: Option<Seq<char>>)
    ensures
        ({
            let begun = compact(stamp, if stamp.len() < 19 { stamp.len() } else { 19 });
            let other = if remote is Some { clean_call(remote->0) } else { "listen"@ };
            name_of(stamp, callsign, remote) == begun + "_"@ + clean_call(callsign) + "_"@ + other
        }),
        clean_call(callsign).len() == callsign.len(),
        forall|i: int|
            0 <= i < callsign.len() && callsign[i] != '/' && callsign[i] != '\\' && callsign[i] != ':' ==> #[trigger] clean_call(
                callsign,
            )[i] == callsign[i],
{
}

proof fn lemma_session_filter(s: Seq<Session>, keep: spec_fn(Session) -> bool)
    requires
        s.len() > 0,
    ensures
        s.filter(keep) == if keep(s.last()) { s.drop_last().filter(keep).push(s.last()) } else { s.drop_last().filter(keep) },
{
    reveal(Seq::filter);
}

/// The sessions with a station are those with that station and no others, in their order; where no
/// station is asked for, all of them.
pub proof fn the_sessions_with_a_station_are_its_own(s: Seq<Session>, remote: Option<Seq<char>>, n: nat)
    requires
        n <= s.len(),
    ensures
        with_station(s, remote, n) == s.subrange(0, n as int).filter(|x: Session| remote is None || x.remote@ == remote->0),
    decreases n,
{
    let keep = |x: Session| remote is None || x.remote@ == remote->0;
    if n == 0 {
        reveal(Seq::filter);
    } else {
        the_sessions_with_a_station_are_its_own(s, remote, (n - 1) as nat);
        let p = s.subrange(0, n as int);
        assert(p.drop_last() =~= s.subrange(0, n - 1));
        lemma_session_filter(p, keep);
    }
}

/// What is played is used up at the card's rate: never more than was played, and, until then, as many
/// samples as the time holds.
pub proof fn playing_keeps_the_rate(w: Wire, now_us: u64)
    requires
        w.wf(),
        w.consumed_at_us <= now_us,
    ensures
        w.consumed <= consumed_by(w, now_us) <= w.played,
        consumed_by(w, now_us) < w.played ==> {
            let n = consumed_by(w, now_us) - w.consumed;
            n * 1_000_000 <= (now_us - w.consumed_at_us) * w.sample_rate < (n + 1) * 1_000_000
        },
{
    assert((now_us - w.consumed_at_us) * w.sample_rate >= 0) by (nonlinear_arith)
        requires
            w.consumed_at_us <= now_us,
    ;
}

/// What is captured is what the other end sent, in its order, and silence where it has sent no more;
/// what is left waits for the next time.
pub proof fn what_is_captured_is_what_was_sent(w: Wire, now_us: u64, i: int)
    requires
        0 <= i < captured(w, now_us).len(),
    ensures
        i < w.from_peer.len() ==> captured(w, now_us)[i] == w.from_peer[i],
        i >= w.from_peer.len() ==> captured(w, now_us)[i] == 0,
        captured(w, now_us).len() <= w.from_peer.len() ==> after_capture(w, now_us).from_peer =~= w.from_peer.subrange(
            captured(w, now_us).len() as int,
            w.from_peer.len() as int,
        ),
        captured(w, now_us).len() >= w.from_peer.len() ==> after_capture(w, now_us).from_peer.len() == 0,
{
}

/// A sample on the wire is four bytes, the lowest first.
pub proof fn a_wire_sample_is_four_bytes(b: Seq<u8>, i: int)
    requires
        0 <= i < b.len() / 4,
    ensures
        words(b).len() == b.len() / 4,
        words(b)[i] == four(b, 4 * i),
{
}

/// What comes in is handed over in blocks of a fiftieth of a second or longer: sooner there is
/// nothing and nothing changes, and then as many samples as the card made, the part of one
/// carried over to the next.
pub proof fn captures_come_in_blocks(w: Wire, now_us: u64)
    requires
        w.last_capture_us <= now_us,
    ensures
        now_us < w.last_capture_us + 20_000 ==> captured(w, now_us).len() == 0 && after_capture(w, now_us) == w,
        now_us >= w.last_capture_us + 20_000 ==> {
            &&& captured(w, now_us).len() * 1_000_000 + after_capture(w, now_us).carry == (now_us - w.last_capture_us)
                * w.sample_rate + w.carry
            &&& after_capture(w, now_us).last_capture_us == now_us
            &&& after_capture(w, now_us).carry < 1_000_000
        },
{
    if now_us >= w.last_capture_us + 20_000 {
        crate::sim::captures_keep_the_rate(w, now_us);
    }
}

} // verus!
