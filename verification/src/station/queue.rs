//! What waits to be transmitted.
use vstd::prelude::*;

use crate::station::frames::Container;

verus! {

/// What a data frame carries.
#[derive(Clone, Copy, PartialEq, Eq, Structural, Debug)]
pub enum DataKind {
    /// A session's data.
    Data,
    /// A call.
    ConnectReq,
    /// A call's answer.
    ConnectAck,
    /// A beacon.
    Beacon,
    /// A probe.
    Probe,
    /// A probe's answer.
    ProbeAck,
    /// A client's datagram.
    Datagram,
}

/// A frame to be modulated.
#[derive(Debug)]
pub struct TxFrame {
    /// Which of the two shapes.
    pub container: Container,
    /// What its header says a data frame carries, where it can be read.
    pub data: Option<DataKind>,
    /// What a control frame is called, where it can be read.
    pub control: Option<String>,
    /// The rung of a data frame.
    pub mode: usize,
    /// Redundancy version.
    pub rv: u8,
    /// Whether a control frame is the tone floor's.
    pub floor: bool,
    /// Whether a data frame's rung is the tone floor's.
    pub floor_rung: bool,
    /// How long it is on the air, microseconds.
    pub air_us: u64,
    /// What it carries.
    pub payload: Vec<u8>,
}

/// Something waiting to be transmitted.
#[derive(Debug)]
pub enum Outgoing {
    /// Link-layer frames, to be modulated.
    Frames(Vec<TxFrame>),
    /// A drive-setting burst: the real waveform, modulated exactly as traffic is, so the rig's
    /// ALC sees the peaks traffic will actually present it with. The operator may cut it short
    /// like a tune tone.
    Drive(Vec<TxFrame>),
    /// A pause between drive bursts, with the transmitter unkeyed: how long, in microseconds,
    /// and until when once it has reached the front of the queue. Cut with the bursts.
    Pause(u64, Option<u64>),
    /// The Morse identifier on its own: the end of a session whose last transmission did not
    /// carry one.
    Identifier,
    /// A burst of a client's datagram: its frames, the client's reference, and whether it is the
    /// datagram's last burst.
    Datagram(Vec<TxFrame>, Option<String>, bool),
    /// Audio to play as it is (a keying test, or a tune tone): how many samples, whether it is
    /// silence, and whether it is a tune tone, which the operator may cut short.
    Audio(u64, bool, bool),
}

/// Whether a queued burst is a probe answer: one data frame that says so. Such a burst is a
/// response to a frame addressed to this station and is not held for a busy channel.
pub open spec fn answers_a_probe(frames: Seq<TxFrame>) -> bool {
    frames.len() == 1 && frames[0].container == Container::Data && frames[0].data == Some(DataKind::ProbeAck)
}

/// Whether a queued burst is a probe answer.
pub fn is_probe_answer(frames: &Vec<TxFrame>) -> (r: bool)
    ensures
        r == answers_a_probe(frames@),
{
    if frames.len() != 1 {
        return false;
    }
    frames[0].container == Container::Data && frames[0].data == Some(DataKind::ProbeAck)
}

impl Outgoing {
    /// Whether an operator may cut this short: a tune tone, a drive burst, or the pause between
    /// two.
    pub open spec fn a_test(self) -> bool {
        match self {
            Outgoing::Audio(_, _, tone) => tone,
            Outgoing::Drive(_) => true,
            Outgoing::Pause(_, _) => true,
            _ => false,
        }
    }

    /// Whether an operator may cut this short.
    pub fn is_test(&self) -> (r: bool)
        ensures
            r == self.a_test(),
    {
        match self {
            Outgoing::Audio(_, _, tone) => *tone,
            Outgoing::Drive(_) => true,
            Outgoing::Pause(_, _) => true,
            _ => false,
        }
    }

    /// Whether this waits for a clear channel: silence radiates nothing, a probe's answer is a
    /// response, and a datagram has had its own channel access already.
    pub open spec fn starts_something(self) -> bool {
        match self {
            Outgoing::Audio(_, silent, _) => !silent,
            Outgoing::Frames(frames) => !answers_a_probe(frames@),
            Outgoing::Datagram(_, _, _) => false,
            _ => true,
        }
    }

    /// Whether this waits for a clear channel.
    pub fn waits_for_clear(&self) -> (r: bool)
        ensures
            r == self.starts_something(),
    {
        match self {
            Outgoing::Audio(_, silent, _) => !*silent,
            Outgoing::Frames(frames) => !is_probe_answer(frames),
            Outgoing::Datagram(_, _, _) => false,
            _ => true,
        }
    }
}

/// What is left of a queue without the operator's tests.
pub open spec fn without_tests(q: Seq<Outgoing>) -> Seq<Outgoing>
    decreases q.len(),
{
    if q.len() == 0 {
        q
    } else {
        let before = without_tests(q.drop_last());
        if q.last().a_test() { before } else { before.push(q.last()) }
    }
}

/// What is left of a queue without link-layer bursts.
pub open spec fn without_frames(q: Seq<Outgoing>) -> Seq<Outgoing>
    decreases q.len(),
{
    if q.len() == 0 {
        q
    } else {
        let before = without_frames(q.drop_last());
        if q.last() is Frames { before } else { before.push(q.last()) }
    }
}

/// Whether a link-layer burst is queued.
pub open spec fn has_frames(q: Seq<Outgoing>) -> bool {
    exists|i: int| 0 <= i < q.len() && (#[trigger] q[i]) is Frames
}

fn is_frames(o: &Outgoing) -> (r: bool)
    ensures
        r == (*o is Frames),
{
    match o {
        Outgoing::Frames(_) => true,
        _ => false,
    }
}

/// Whether a link-layer burst is queued.
pub fn holds_frames(q: &Vec<Outgoing>) -> (r: bool)
    ensures
        r == has_frames(q@),
{
    let mut i: usize = 0;
    while i < q.len()
        invariant
            i <= q.len(),
            forall|j: int| 0 <= j < i ==> !((#[trigger] q@[j]) is Frames),
        decreases q.len() - i,
    {
        if is_frames(&q[i]) {
            return true;
        }
        i += 1;
    }
    false
}

proof fn lemma_tests_split(a: Seq<Outgoing>, o: Outgoing, b: Seq<Outgoing>)
    ensures
        without_tests(a + seq![o] + b) == if o.a_test() {
            without_tests(a + b)
        } else {
            without_tests(a).push(o) + without_tests(b)
        },
        without_tests(a + b) == without_tests(a) + without_tests(b),
    decreases b.len(),
{
    if b.len() == 0 {
        assert((a + seq![o] + b).drop_last() =~= a);
        assert((a + seq![o] + b).last() == o);
        assert(a + b =~= a);
        assert(without_tests(a) + without_tests(b) =~= without_tests(a));
        assert(without_tests(a).push(o) + without_tests(b) =~= without_tests(a).push(o));
    } else {
        let c = b.drop_last();
        lemma_tests_split(a, o, c);
        assert((a + seq![o] + b).drop_last() =~= a + seq![o] + c);
        assert((a + b).drop_last() =~= a + c);
        assert((a + seq![o] + b).last() == b.last());
        assert((a + b).last() == b.last());
        if b.last().a_test() {
            assert(without_tests(a + b) =~= without_tests(a) + without_tests(b));
        } else {
            assert(without_tests(b) =~= without_tests(c).push(b.last()));
            assert(without_tests(a + b) =~= without_tests(a) + without_tests(b));
            assert(without_tests(a + seq![o] + b) =~= if o.a_test() {
                without_tests(a + b)
            } else {
                without_tests(a).push(o) + without_tests(b)
            });
        }
    }
}

proof fn lemma_frames_split(a: Seq<Outgoing>, o: Outgoing, b: Seq<Outgoing>)
    ensures
        without_frames(a + seq![o] + b) == if o is Frames {
            without_frames(a + b)
        } else {
            without_frames(a).push(o) + without_frames(b)
        },
        without_frames(a + b) == without_frames(a) + without_frames(b),
    decreases b.len(),
{
    if b.len() == 0 {
        assert((a + seq![o] + b).drop_last() =~= a);
        assert((a + seq![o] + b).last() == o);
        assert(a + b =~= a);
        assert(without_frames(a) + without_frames(b) =~= without_frames(a));
        assert(without_frames(a).push(o) + without_frames(b) =~= without_frames(a).push(o));
    } else {
        let c = b.drop_last();
        lemma_frames_split(a, o, c);
        assert((a + seq![o] + b).drop_last() =~= a + seq![o] + c);
        assert((a + b).drop_last() =~= a + c);
        assert((a + seq![o] + b).last() == b.last());
        assert((a + b).last() == b.last());
        if b.last() is Frames {
            assert(without_frames(a + b) =~= without_frames(a) + without_frames(b));
        } else {
            assert(without_frames(b) =~= without_frames(c).push(b.last()));
            assert(without_frames(a + b) =~= without_frames(a) + without_frames(b));
            assert(without_frames(a + seq![o] + b) =~= if o is Frames {
                without_frames(a + b)
            } else {
                without_frames(a).push(o) + without_frames(b)
            });
        }
    }
}

/// Take the operator's tests out of a queue. Says whether there was one.
pub fn drop_tests(q: &mut Vec<Outgoing>) -> (r: bool)
    ensures
        final(q)@ == without_tests(old(q)@),
        r == (final(q)@.len() != old(q)@.len()),
{
    let before: usize = q.len();
    let ghost all = q@;
    let mut i: usize = 0;
    proof {
        assert(q@.subrange(0, 0) =~= Seq::empty());
        assert(without_tests(q@.subrange(0, 0)) =~= Seq::empty());
    }
    while i < q.len()
        invariant
            i <= q.len() <= before,
            without_tests(q@) == without_tests(all),
            without_tests(q@.subrange(0, i as int)) == q@.subrange(0, i as int),
        decreases q.len() - i,
    {
        let ghost now = q@;
        let ghost a = now.subrange(0, i as int);
        let ghost o = now[i as int];
        let ghost b = now.subrange(i + 1, now.len() as int);
        proof {
            assert(now =~= a + seq![o] + b);
            lemma_tests_split(a, o, b);
        }
        if q[i].is_test() {
            let _ = q.remove(i);
            proof {
                assert(q@ =~= a + b);
                assert(q@.subrange(0, i as int) =~= a);
            }
        } else {
            proof {
                assert(now.subrange(0, i + 1) =~= a.push(o));
                assert(a.push(o).drop_last() =~= a);
            }
            i += 1;
        }
    }
    proof {
        assert(q@.subrange(0, i as int) =~= q@);
    }
    q.len() != before
}

/// Take the link-layer bursts out of a queue.
pub fn drop_frames(q: &mut Vec<Outgoing>)
    ensures
        final(q)@ == without_frames(old(q)@),
{
    let ghost all = q@;
    let mut i: usize = 0;
    proof {
        assert(q@.subrange(0, 0) =~= Seq::empty());
        assert(without_frames(q@.subrange(0, 0)) =~= Seq::empty());
    }
    while i < q.len()
        invariant
            i <= q.len(),
            without_frames(q@) == without_frames(all),
            without_frames(q@.subrange(0, i as int)) == q@.subrange(0, i as int),
        decreases q.len() - i,
    {
        let ghost now = q@;
        let ghost a = now.subrange(0, i as int);
        let ghost o = now[i as int];
        let ghost b = now.subrange(i + 1, now.len() as int);
        proof {
            assert(now =~= a + seq![o] + b);
            lemma_frames_split(a, o, b);
        }
        if is_frames(&q[i]) {
            let _ = q.remove(i);
            proof {
                assert(q@ =~= a + b);
                assert(q@.subrange(0, i as int) =~= a);
            }
        } else {
            proof {
                assert(now.subrange(0, i + 1) =~= a.push(o));
                assert(a.push(o).drop_last() =~= a);
            }
            i += 1;
        }
    }
    proof {
        assert(q@.subrange(0, i as int) =~= q@);
    }
}

/// Cutting a test short never touches a session's burst: only an operator's own transmission is
/// ever taken from the queue, and all of those are.
pub proof fn only_tests_are_cut(q: Seq<Outgoing>)
    ensures
        forall|i: int| 0 <= i < without_tests(q).len() ==> !(#[trigger] without_tests(q)[i]).a_test(),
        forall|i: int| 0 <= i < q.len() && !(#[trigger] q[i]).a_test() ==> without_tests(q).contains(q[i]),
    decreases q.len(),
{
    if q.len() > 0 {
        let rest = q.drop_last();
        only_tests_are_cut(rest);
        let r = without_tests(q);
        assert forall|i: int| 0 <= i < q.len() && !(#[trigger] q[i]).a_test() implies r.contains(q[i]) by {
            if i < rest.len() {
                assert(rest[i] == q[i]);
                let k = choose|k: int| 0 <= k < without_tests(rest).len() && without_tests(rest)[k] == q[i];
                assert(r[k] == q[i]);
            } else {
                assert(r[r.len() - 1] == q[i]);
            }
        }
    }
}

} // verus!
