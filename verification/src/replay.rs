//! Replaying a recording through the receiver, and holding it to what was recorded.
//!
//! A recorded session is only worth keeping if it can be run again. A replay feeds a
//! recording's audio through the same front end and streaming receiver a live station uses,
//! with the receiver muted where the sidecar says the transmitter was keyed, as it was at the
//! time, and lists every frame it finds. With the sidecar as the expectation, it fails when
//! fewer frames decode than did on the day: a change to the receiver that loses a frame on real
//! air is a regression.
//!
//! Times are in billionths of a second of the recording, as its sidecar writes them.
use vstd::prelude::*;

use crate::json::read::{document_view, json_value};
use crate::json::{field, lemma_trees, tree_of, trees_of, Json, Tree};
use crate::record::{count_decoded, decoded_among, FrameRecord, FORMAT};
use crate::text::{
    cat, digits, hundredths, hundredths_text, left, left_text, right, right_text, same, signed_tenths,
    signed_tenths_text, whole,
};

verus! {

/// The audio blocks a second is fed in: twenty milliseconds each, as the daemon's loop uses.
pub const BLOCKS_PER_SECOND: u32 = 50;

/// An interval of the recording during which the receiver is muted.
#[derive(Clone, Copy, PartialEq, Eq, Structural, Debug)]
pub struct Muted {
    /// Start, inclusive.
    pub from: i128,
    /// End, exclusive; none when the key was never released on record.
    pub until: Option<i128>,
}

/// How far the reading of the key's events has come.
pub struct Keying {
    /// The intervals that are closed.
    pub muted: Seq<Muted>,
    /// When the key went down, where it has not come up.
    pub since: Option<i128>,
}

/// When an event happened: at the start where it does not say.
pub open spec fn event_time(e: Tree) -> i128 {
    match field(e, "t_s"@) {
        Some(Tree::Number(n)) => n.nano() as i128,
        _ => 0,
    }
}

/// One event read: the key going down opens an interval, the key coming up closes it, and
/// nothing else does.
pub open spec fn keying_step(so_far: Keying, e: Tree) -> Keying {
    if field(e, "event"@) != Some(Tree::Text("ptt"@)) {
        so_far
    } else {
        match so_far.since {
            None => if field(e, "detail"@) == Some(Tree::Text("keyed"@)) {
                Keying { since: Some(event_time(e)), ..so_far }
            } else {
                so_far
            },
            Some(from) => if field(e, "detail"@) == Some(Tree::Text("released"@)) {
                Keying { muted: so_far.muted.push(Muted { from, until: Some(event_time(e)) }), since: None }
            } else {
                so_far
            },
        }
    }
}

/// The first `n` events read.
pub open spec fn keying_read(events: Seq<Tree>, n: nat) -> Keying
    decreases n,
{
    if n == 0 {
        Keying { muted: Seq::empty(), since: None }
    } else {
        keying_step(keying_read(events, (n - 1) as nat), events[n - 1])
    }
}

/// The events of a sidecar.
pub open spec fn events_in(document: Tree) -> Seq<Tree> {
    match field(document, "events"@) {
        Some(Tree::List(s)) => s,
        _ => Seq::empty(),
    }
}

/// When the transmitter was keyed: each interval from the key going down to its coming up, the
/// last without an end where it never did.
pub open spec fn muted_in(document: Tree) -> Seq<Muted> {
    let k = keying_read(events_in(document), events_in(document).len());
    match k.since {
        Some(from) => k.muted.push(Muted { from, until: None }),
        None => k.muted,
    }
}

/// What a sidecar says a replay should reproduce.
#[derive(Debug)]
pub struct Expectation {
    /// The frames the recording station found.
    pub frames: Vec<FrameRecord>,
    /// When its transmitter was keyed, which is when its receiver was deaf.
    pub muted: Vec<Muted>,
}

fn is_text(value: Option<&Json>, want: &str) -> (r: bool)
    ensures
        r == (value matches Some(v) && v@ == Tree::Text(want@)),
{
    match value {
        Some(Json::Text(s)) => same(s, want),
        _ => false,
    }
}

fn time_of(e: &Json) -> (r: i128)
    ensures
        r == event_time(e@),
{
    match e.get("t_s") {
        Some(Json::Number(n)) => n.billionths(),
        _ => 0,
    }
}

/// When the transmitter was keyed, by a sidecar's events.
pub fn keyed_intervals(document: &Json) -> (r: Vec<Muted>)
    ensures
        r@ == muted_in(document@),
{
    let mut muted: Vec<Muted> = Vec::new();
    let mut since: Option<i128> = None;
    match document.get("events") {
        Some(Json::List(list)) => {
            let ghost events = trees_of(list@);
            let mut i: usize = 0;
            proof {
                lemma_trees(list@);
                assert(muted@ =~= Seq::empty());
            }
            while i < list.len()
                invariant
                    i <= list.len(),
                    events.len() == list@.len(),
                    forall|j: int| 0 <= j < list@.len() ==> #[trigger] events[j] == tree_of(list@[j]),
                    keying_read(events, i as nat) == (Keying { muted: muted@, since }),
                decreases list.len() - i,
            {
                proof {
                    assert(events[i as int] == list@[i as int]@);
                }
                if is_text(list[i].get("event"), "ptt") {
                    match since {
                        None => {
                            if is_text(list[i].get("detail"), "keyed") {
                                since = Some(time_of(&list[i]));
                            }
                        },
                        Some(from) => {
                            if is_text(list[i].get("detail"), "released") {
                                muted.push(Muted { from, until: Some(time_of(&list[i])) });
                                since = None;
                            }
                        },
                    }
                }
                i += 1;
            }
        },
        _ => {
            proof {
                assert(muted@ =~= Seq::empty());
            }
        },
    }
    match since {
        Some(from) => muted.push(Muted { from, until: None }),
        None => {},
    }
    muted
}

/// Why a sidecar cannot be used, if it cannot.
pub open spec fn sidecar_fault(
    path: Seq<char>,
    document: Result<Tree, Seq<char>>,
    frames: Result<(), Seq<char>>,
) -> Option<Seq<char>> {
    match document {
        Err(e) => Some(path + ": "@ + e),
        Ok(t) => if field(t, "format"@) != Some(Tree::Text(FORMAT@)) {
            Some(path + " is not a session sidecar ("@ + FORMAT@ + " expected)"@)
        } else {
            match frames {
                Err(e) => Some(path + ": frames: "@ + e),
                Ok(_) => None,
            }
        },
    }
}

/// Whether this is what a sidecar's document says to expect, or why it cannot be read.
pub open spec fn is_expected(
    r: Result<Expectation, String>,
    path: Seq<char>,
    document: Result<Tree, Seq<char>>,
    frames: Result<Vec<FrameRecord>, String>,
) -> bool {
    let f: Result<(), Seq<char>> = match frames {
        Ok(_) => Ok(()),
        Err(e) => Err(e@),
    };
    match sidecar_fault(path, document, f) {
        Some(why) => r matches Err(e) && e@ == why,
        None => r matches Ok(x) && Ok::<Vec<FrameRecord>, String>(x.frames) == frames && x.muted@ == muted_in(
            document->Ok_0,
        ),
    }
}

impl Expectation {
    /// Read the sidecar at `path` from its text; `frames` is what its frames are, or the reason
    /// where they cannot be read.
    pub fn from_sidecar(path: &str, text: &str, frames: Result<Vec<FrameRecord>, String>) -> (r: Result<Self, String>)
        ensures
            is_expected(r, path@, json_value(text@), frames),
    {
        Expectation::from_document(path, &Json::parse(text), frames)
    }

    /// Read a sidecar from its document, or the reason where its text is none.
    pub fn from_document(path: &str, document: &Result<Json, String>, frames: Result<Vec<FrameRecord>, String>) -> (r:
        Result<Self, String>)
        ensures
            is_expected(r, path@, document_view(*document), frames),
    {
        let document = match document {
            Ok(d) => d,
            Err(e) => {
                let mut s = cat(path, ": ");
                s.append(e);
                return Err(s);
            },
        };
        if !is_text(document.get("format"), FORMAT) {
            let mut s = cat(path, " is not a session sidecar (");
            s.append(FORMAT);
            s.append(" expected)");
            return Err(s);
        }
        match frames {
            Ok(frames) => Ok(Expectation { frames, muted: keyed_intervals(document) }),
            Err(e) => {
                let mut s = cat(path, ": frames: ");
                s.append(&e);
                Err(s)
            },
        }
    }
}

/// Whether an interval covers the moment `seen` samples are behind at a rate.
pub open spec fn covers(m: Muted, seen: nat, rate: nat) -> bool {
    seen * 1_000_000_000 >= m.from * rate && match m.until {
        Some(until) => seen * 1_000_000_000 < until * rate,
        None => true,
    }
}

/// Whether the receiver is deaf at a moment.
pub open spec fn deaf(muted: Seq<Muted>, seen: nat, rate: nat) -> bool {
    exists|i: int| 0 <= i < muted.len() && covers(#[trigger] muted[i], seen, rate)
}

/// Whether so many billionths of a sample's time are at or past a time, at a rate.
fn reached(now: i128, t: i128, rate: u32) -> (r: bool)
    requires
        0 <= now <= u64::MAX * 1_000_000_000,
    ensures
        r == (now >= t * rate),
{
    if rate == 0 {
        proof {
            assert(t * rate == 0) by (nonlinear_arith)
                requires
                    rate == 0,
            ;
        }
        return true;
    }
    if t > now {
        proof {
            assert(t * rate >= t) by (nonlinear_arith)
                requires
                    t > 0,
                    rate >= 1,
            ;
        }
        return false;
    }
    if t < 0 {
        proof {
            assert(t * rate < 0) by (nonlinear_arith)
                requires
                    t < 0,
                    rate >= 1,
            ;
        }
        return true;
    }
    proof {
        assert(0 <= t * rate <= u64::MAX * 1_000_000_000 * 4_294_967_296) by (nonlinear_arith)
            requires
                0 <= t <= u64::MAX * 1_000_000_000,
                0 <= rate < 4_294_967_296,
        ;
    }
    now >= t * (rate as i128)
}

/// Whether the receiver is deaf at the moment `seen` samples are behind: muted where the
/// station was transmitting, since what the card captured then was its own sidetone.
pub fn is_deaf(muted: &Vec<Muted>, seen: u64, rate: u32) -> (r: bool)
    ensures
        r == deaf(muted@, seen as nat, rate as nat),
{
    let now: i128 = seen as i128 * 1_000_000_000;
    let mut i: usize = 0;
    while i < muted.len()
        invariant
            i <= muted.len(),
            now == seen * 1_000_000_000,
            forall|j: int| 0 <= j < i ==> !covers(#[trigger] muted@[j], seen as nat, rate as nat),
        decreases muted.len() - i,
    {
        let m = muted[i];
        let started: bool = reached(now, m.from, rate);
        let running: bool = match m.until {
            Some(until) => !reached(now, until, rate),
            None => true,
        };
        if started && running {
            proof {
                assert(covers(muted@[i as int], seen as nat, rate as nat));
            }
            return true;
        }
        i += 1;
    }
    false
}

/// A stretch of audio a replay feeds at once.
#[derive(Clone, Copy, PartialEq, Eq, Structural, Debug)]
pub struct Block {
    /// The first sample.
    pub from: usize,
    /// The sample behind the last.
    pub to: usize,
    /// Whether the receiver hears silence in its place.
    pub deaf: bool,
}

/// The blocks of a recording from a sample on.
pub open spec fn blocks(from: nat, total: nat, size: nat, muted: Seq<Muted>, rate: nat) -> Seq<Block>
    decreases total - from,
{
    if from >= total || size == 0 {
        Seq::empty()
    } else {
        let to = if from + size < total { from + size } else { total };
        seq![Block { from: from as usize, to: to as usize, deaf: deaf(muted, from, rate) }] + blocks(
            to,
            total,
            size,
            muted,
            rate,
        )
    }
}

/// How a recording of `total` samples is fed to the receiver: in blocks of twenty milliseconds,
/// silence in place of those that start while the station was transmitting.
pub fn run(total: usize, rate: u32, muted: &Vec<Muted>) -> (r: Vec<Block>)
    ensures
        r@ == blocks(0, total as nat, (rate / BLOCKS_PER_SECOND) as nat, muted@, rate as nat),
        r@ == blocks(0, total as nat, (rate / 50) as nat, muted@, rate as nat),
{
    let size: usize = (rate / BLOCKS_PER_SECOND) as usize;
    let mut out: Vec<Block> = Vec::new();
    let ghost all = blocks(0, total as nat, size as nat, muted@, rate as nat);
    if size == 0 {
        return out;
    }
    let mut from: usize = 0;
    proof {
        assert(out@ + all =~= all);
    }
    while from < total
        invariant
            from <= total,
            size > 0,
            all == out@ + blocks(from as nat, total as nat, size as nat, muted@, rate as nat),
        decreases total - from,
    {
        let to: usize = if size < total - from { from + size } else { total };
        let b = Block { from, to, deaf: is_deaf(muted, from as u64, rate) };
        let ghost before = out@;
        out.push(b);
        proof {
            let rest = blocks(to as nat, total as nat, size as nat, muted@, rate as nat);
            assert(before + (seq![b] + rest) =~= out@ + rest);
        }
        from = to;
    }
    proof {
        assert(out@ + Seq::<Block>::empty() =~= out@);
    }
    out
}

/// Why a recording at a rate cannot be replayed, if it cannot.
pub open spec fn rate_fault(path: Seq<char>, found: nat, rate: nat) -> Option<Seq<char>> {
    if found != rate {
        Some(
            path + " is at "@ + digits(found) + " Hz and the modem runs at "@ + digits(rate) + " Hz; resample it first"@,
        )
    } else {
        None
    }
}

/// Whether a recording is at the modem's sample rate.
pub fn check_rate(path: &str, found: u32, rate: u32) -> (r: Result<(), String>)
    ensures
        match rate_fault(path@, found as nat, rate as nat) {
            Some(why) => (r matches Err(e) && e@ == why),
            None => r is Ok,
        },
{
    if found != rate {
        let mut s = cat(path, " is at ");
        s.append(&whole(found as u128));
        s.append(" Hz and the modem runs at ");
        s.append(&whole(rate as u128));
        s.append(" Hz; resample it first");
        return Err(s);
    }
    Ok(())
}

/// How a replay compares with what was recorded.
#[derive(Clone, Copy, PartialEq, Eq, Structural, Debug)]
pub struct Verdict {
    /// Decoded frames on the day.
    pub recorded: usize,
    /// Decoded frames now.
    pub replayed: usize,
    /// Frames found now, decoded or not.
    pub found: usize,
}

impl Verdict {
    /// Whether the replay is at least as good as the day: a receiver may improve, but losing a
    /// frame that once decoded is the regression this exists to catch.
    pub fn holds(&self) -> (r: bool)
        ensures
            r == (self.replayed >= self.recorded),
    {
        self.replayed >= self.recorded
    }
}

/// Compare a replay's frames with a sidecar's.
pub fn compare(expected: &Vec<FrameRecord>, found: &Vec<FrameRecord>) -> (r: Verdict)
    ensures
        r.recorded == decoded_among(expected@, expected@.len()),
        r.replayed == decoded_among(found@, found@.len()),
        r.found == found@.len(),
{
    Verdict { recorded: count_decoded(expected), replayed: count_decoded(found), found: found.len() }
}

/// How a frame came out, for a person.
pub open spec fn outcome(f: FrameRecord) -> Seq<char> {
    match f.control {
        Some(control) => control@,
        None => if f.decoded { "decoded "@ + digits(f.bytes as nat) + " bytes"@ } else { "failed"@ },
    }
}

/// The carrier offset of a frame; none where it is not worth reporting.
pub open spec fn offset(f: FrameRecord) -> i64 {
    match f.cfo_mhz {
        Some(x) => x,
        None => 0,
    }
}

/// One line per frame, for a person.
pub open spec fn frame_line(f: FrameRecord) -> Seq<char> {
    right(hundredths(f.t_us as int), 8) + " s  "@ + left(f.kind@, 7) + " mode "@ + right(digits(f.mode as nat), 2)
        + " rv "@ + digits(f.rv as nat) + "  "@ + right(signed_tenths(f.snr_3k_mdb as int, 100), 6) + " dB  cfo "@ + right(
        signed_tenths(offset(f) as int, 100),
        6,
    ) + " Hz  "@ + outcome(f)
}

/// One line per frame, for a person.
pub fn describe(f: &FrameRecord) -> (r: String)
    ensures
        r@ == frame_line(*f),
{
    let mut s = right_text(&hundredths_text(f.t_us as i128), 8);
    s.append(" s  ");
    s.append(&left_text(&f.kind, 7));
    s.append(" mode ");
    s.append(&right_text(&whole(f.mode as u128), 2));
    s.append(" rv ");
    s.append(&whole(f.rv as u128));
    s.append("  ");
    s.append(&right_text(&signed_tenths_text(f.snr_3k_mdb as i128, 100), 6));
    s.append(" dB  cfo ");
    let cfo: i64 = match f.cfo_mhz {
        Some(x) => x,
        None => 0,
    };
    s.append(&right_text(&signed_tenths_text(cfo as i128, 100), 6));
    s.append(" Hz  ");
    match &f.control {
        Some(control) => s.append(control),
        None => if f.decoded {
            let mut d = cat("decoded ", &whole(f.bytes as u128));
            d.append(" bytes");
            s.append(&d);
        } else {
            s.append("failed");
        },
    }
    s
}

/// A recording is fed whole: the blocks follow one another from its first sample to its last.
pub proof fn a_replay_feeds_the_whole_recording(from: nat, total: nat, size: nat, muted: Seq<Muted>, rate: nat)
    requires
        size > 0,
        from < total <= usize::MAX,
    ensures
        ({
            let b = blocks(from, total, size, muted, rate);
            &&& b.len() > 0
            &&& b[0].from == from
            &&& b.last().to == total
            &&& forall|i: int| 0 <= i < b.len() - 1 ==> (#[trigger] b[i]).to == b[i + 1].from
            &&& forall|i: int|
                0 <= i < b.len() ==> (#[trigger] b[i]).from < b[i].to <= b[i].from + size && b[i].deaf == deaf(
                    muted,
                    b[i].from as nat,
                    rate,
                )
        }),
    decreases total - from,
{
    let to = if from + size < total { from + size } else { total };
    let b = blocks(from, total, size, muted, rate);
    let rest = blocks(to, total, size, muted, rate);
    assert(b.drop_first() =~= rest);
    if to < total {
        a_replay_feeds_the_whole_recording(to, total, size, muted, rate);
        assert forall|i: int| 0 <= i < b.len() - 1 implies (#[trigger] b[i]).to == b[i + 1].from by {
            assert(b[i + 1] == rest[i]);
            if i > 0 {
                assert(b[i] == rest[i - 1]);
            }
        }
        assert forall|i: int| 0 <= i < b.len() implies (#[trigger] b[i]).from < b[i].to <= b[i].from + size && b[i].deaf
            == deaf(muted, b[i].from as nat, rate) by {
            if i > 0 {
                assert(b[i] == rest[i - 1]);
            }
        }
        assert(b.last() == rest.last());
    } else {
        assert(rest.len() == 0);
    }
}

} // verus!
