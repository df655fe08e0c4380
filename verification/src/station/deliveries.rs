//! What became of the messages sent with a reference.
//!
//! A message is delivered once the other station has all of it, in order, by the link's
//! acknowledgements, so after every byte before it too; or the session ends first.
use vstd::prelude::*;

use crate::text::views;

verus! {

/// A message sent with a reference, waiting for the other station to have all of it: `end` is
/// where it ends in the session's stream of link bytes.
#[derive(Debug)]
pub struct SentMark {
    /// The sender's reference for the message.
    pub reference: String,
    /// Its size, application bytes.
    pub bytes: usize,
    /// Where it ends in the stream.
    pub end: u64,
}

/// What became of a message sent with a reference: the other station has all of it, or the
/// session ended first.
#[derive(PartialEq, Eq, Debug)]
pub struct Delivery {
    /// The sender's reference for the message.
    pub reference: String,
    /// Its size, application bytes.
    pub bytes: usize,
    /// Whether the other station has all of it, in order.
    pub delivered: bool,
    /// Why not, when not: how the session ended, or that there was none.
    pub reason: Option<String>,
}

impl Clone for Delivery {
    fn clone(&self) -> (r: Self)
        ensures
            r@ == self@,
    {
        Delivery {
            reference: self.reference.clone(),
            bytes: self.bytes,
            delivered: self.delivered,
            reason: match &self.reason {
                Some(s) => Some(s.clone()),
                None => None,
            },
        }
    }
}

/// What a mark is.
pub struct Mark {
    pub reference: Seq<char>,
    pub bytes: usize,
    pub end: u64,
}

/// What a delivery is.
pub struct Outcome {
    pub reference: Seq<char>,
    pub bytes: usize,
    pub delivered: bool,
    pub reason: Option<Seq<char>>,
}

impl View for SentMark {
    type V = Mark;

    open spec fn view(&self) -> Mark {
        Mark { reference: self.reference@, bytes: self.bytes, end: self.end }
    }
}

impl View for Delivery {
    type V = Outcome;

    open spec fn view(&self) -> Outcome {
        Outcome {
            reference: self.reference@,
            bytes: self.bytes,
            delivered: self.delivered,
            reason: match self.reason {
                Some(s) => Some(s@),
                None => None,
            },
        }
    }
}

/// What a run of marks is.
pub open spec fn mark_views(s: Seq<SentMark>) -> Seq<Mark> {
    s.map_values(|m: SentMark| m@)
}

/// What a run of deliveries is.
pub open spec fn outcome_views(s: Seq<Delivery>) -> Seq<Outcome> {
    s.map_values(|d: Delivery| d@)
}

/// The most deliveries kept for a status display, and held between two calls that take them.
pub const RECENT_DELIVERIES: usize = 32;

/// The messages followed, and what became of them.
#[derive(Debug)]
pub struct Deliveries {
    /// Link bytes handed to the engine this session: where the stream has got to.
    sent: u64,
    marks: Vec<SentMark>,
    fresh: Vec<Delivery>,
    recent: Vec<Delivery>,
}

/// What is known of the messages followed.
pub struct Ledger {
    /// Link bytes handed to the engine this session.
    pub sent: u64,
    /// Messages not yet all acknowledged, oldest first.
    pub marks: Seq<Mark>,
    /// Deliveries resolved since they were last taken.
    pub fresh: Seq<Outcome>,
    /// The last deliveries resolved.
    pub recent: Seq<Outcome>,
}

impl View for Deliveries {
    type V = Ledger;

    closed spec fn view(&self) -> Ledger {
        Ledger {
            sent: self.sent,
            marks: mark_views(self.marks@),
            fresh: outcome_views(self.fresh@),
            recent: outcome_views(self.recent@),
        }
    }
}

/// The newest of some outcomes with one more: the oldest goes when there are too many.
pub open spec fn pushed(s: Seq<Outcome>, d: Outcome) -> Seq<Outcome> {
    (if s.len() >= RECENT_DELIVERIES { s.drop_first() } else { s }).push(d)
}

/// A ledger with one more outcome.
pub open spec fn resolved(l: Ledger, d: Outcome) -> Ledger {
    Ledger { fresh: pushed(l.fresh, d), recent: pushed(l.recent, d), ..l }
}

/// A mark's message delivered.
pub open spec fn arrived(m: Mark) -> Outcome {
    Outcome { reference: m.reference, bytes: m.bytes, delivered: true, reason: None }
}

/// A mark's message not delivered, and why.
pub open spec fn lost(m: Mark, why: Seq<char>) -> Outcome {
    Outcome { reference: m.reference, bytes: m.bytes, delivered: false, reason: Some(why) }
}

/// A ledger once the first messages that end no later than a place have arrived.
pub open spec fn after_arrivals(l: Ledger, up_to: u64) -> Ledger
    decreases l.marks.len(),
{
    if l.marks.len() == 0 || l.marks[0].end > up_to {
        l
    } else {
        after_arrivals(resolved(Ledger { marks: l.marks.drop_first(), ..l }, arrived(l.marks[0])), up_to)
    }
}

/// A ledger once every message still waiting is lost.
pub open spec fn after_loss(l: Ledger, why: Seq<char>) -> Ledger
    decreases l.marks.len(),
{
    if l.marks.len() == 0 {
        l
    } else {
        after_loss(resolved(Ledger { marks: l.marks.drop_first(), ..l }, lost(l.marks[0], why)), why)
    }
}

fn keep_newest(v: &mut Vec<Delivery>, d: Delivery)
    ensures
        outcome_views(final(v)@) == pushed(outcome_views(old(v)@), d@),
{
    let ghost before = v@;
    if v.len() >= RECENT_DELIVERIES {
        let _ = v.remove(0);
        proof {
            assert(v@ =~= before.drop_first());
            assert(outcome_views(v@) =~= outcome_views(before).drop_first());
        }
    }
    let ghost kept = v@;
    v.push(d);
    proof {
        assert(outcome_views(v@) =~= outcome_views(kept).push(d@));
    }
}

impl Deliveries {
    /// Nothing followed yet.
    pub fn new() -> (r: Self)
        ensures
            r@ == (Ledger { sent: 0, marks: Seq::empty(), fresh: Seq::empty(), recent: Seq::empty() }),
    {
        let r = Deliveries { sent: 0, marks: Vec::new(), fresh: Vec::new(), recent: Vec::new() };
        proof {
            assert(mark_views(r.marks@) =~= Seq::empty());
            assert(outcome_views(r.fresh@) =~= Seq::empty());
            assert(outcome_views(r.recent@) =~= Seq::empty());
        }
        r
    }

    /// A session came up: the stream is counted from nothing again.
    pub fn began(&mut self)
        ensures
            final(self)@ == (Ledger { sent: 0, ..old(self)@ }),
    {
        self.sent = 0;
    }

    /// So many link bytes more were handed to the engine.
    pub fn handed(&mut self, bytes: usize)
        requires
            old(self)@.sent + bytes <= u64::MAX,
        ensures
            final(self)@ == (Ledger { sent: (old(self)@.sent + bytes) as u64, ..old(self)@ }),
    {
        self.sent = self.sent + bytes as u64;
    }

    /// Follow a message that ends where the stream has got to.
    pub fn follow(&mut self, reference: &str, bytes: usize)
        ensures
            final(self)@ == (Ledger {
                marks: old(self)@.marks.push(Mark { reference: reference@, bytes, end: old(self)@.sent }),
                ..old(self)@
            }),
    {
        let ghost before = self.marks@;
        let m = SentMark { reference: reference.to_owned(), bytes, end: self.sent };
        self.marks.push(m);
        proof {
            assert(mark_views(self.marks@) =~= mark_views(before).push(m@));
        }
    }

    /// What became of a message is known.
    pub fn resolve(&mut self, d: Delivery)
        ensures
            final(self)@ == resolved(old(self)@, d@),
    {
        let again = d.clone();
        keep_newest(&mut self.recent, again);
        keep_newest(&mut self.fresh, d);
    }

    /// A message given with no session up: it is not queued, and undelivered at once.
    pub fn refuse(&mut self, reference: &str, bytes: usize)
        ensures
            final(self)@ == resolved(
                old(self)@,
                Outcome { reference: reference@, bytes, delivered: false, reason: Some("no session"@) },
            ),
    {
        self.resolve(
            Delivery {
                reference: reference.to_owned(),
                bytes,
                delivered: false,
                reason: Some("no session".to_owned()),
            },
        );
    }

    /// Resolve the messages the other station now has all of: the stream handed to the engine
    /// this session, less what it has not yet delivered in order.
    pub fn note_arrivals(&mut self, undelivered: u64)
        ensures
            final(self)@ == after_arrivals(
                old(self)@,
                if old(self)@.sent > undelivered { (old(self)@.sent - undelivered) as u64 } else { 0 },
            ),
    {
        let up_to: u64 = if self.sent > undelivered { self.sent - undelivered } else { 0 };
        let ghost goal = after_arrivals(self@, up_to);
        proof {
            if self.marks@.len() > 0 {
                assert(self@.marks[0] == self.marks@[0]@);
            }
        }
        while self.marks.len() > 0 && self.marks[0].end <= up_to
            invariant
                goal == after_arrivals(self@, up_to),
            decreases self.marks.len(),
        {
            let ghost before = self@;
            let ghost marks = self.marks@;
            proof {
                assert(before.marks[0] == marks[0]@);
            }
            let m = self.marks.remove(0);
            proof {
                assert(self.marks@ =~= marks.drop_first());
                assert(mark_views(self.marks@) =~= before.marks.drop_first());
            }
            self.resolve(Delivery { reference: m.reference, bytes: m.bytes, delivered: true, reason: None });
        }
        proof {
            if self.marks@.len() > 0 {
                assert(self@.marks[0] == self.marks@[0]@);
            }
        }
    }

    /// The session ended: what the other station did not have all of never will be.
    pub fn ended(&mut self, why: &str)
        ensures
            final(self)@ == after_loss(old(self)@, why@),
    {
        let ghost goal = after_loss(self@, why@);
        while self.marks.len() > 0
            invariant
                goal == after_loss(self@, why@),
            decreases self.marks.len(),
        {
            let ghost before = self@;
            let ghost marks = self.marks@;
            proof {
                assert(before.marks[0] == marks[0]@);
            }
            let m = self.marks.remove(0);
            proof {
                assert(self.marks@ =~= marks.drop_first());
                assert(mark_views(self.marks@) =~= before.marks.drop_first());
            }
            self.resolve(
                Delivery {
                    reference: m.reference,
                    bytes: m.bytes,
                    delivered: false,
                    reason: Some(why.to_owned()),
                },
            );
        }
    }

    /// Deliveries resolved since the last call.
    pub fn take(&mut self) -> (r: Vec<Delivery>)
        ensures
            outcome_views(r@) == old(self)@.fresh,
            final(self)@ == (Ledger { fresh: Seq::empty(), ..old(self)@ }),
    {
        let mut out: Vec<Delivery> = Vec::new();
        std::mem::swap(&mut out, &mut self.fresh);
        proof {
            assert(outcome_views(self.fresh@) =~= Seq::empty());
        }
        out
    }

    /// The references still waiting, oldest first.
    pub fn waiting(&self) -> (r: Vec<String>)
        ensures
            views(r@) == self@.marks.map_values(|m: Mark| m.reference),
    {
        let mut out: Vec<String> = Vec::new();
        let ghost want = self@.marks.map_values(|m: Mark| m.reference);
        let mut i: usize = 0;
        proof {
            assert(views(out@) =~= want.subrange(0, 0));
        }
        while i < self.marks.len()
            invariant
                i <= self.marks.len(),
                want == self@.marks.map_values(|m: Mark| m.reference),
                views(out@) == want.subrange(0, i as int),
            decreases self.marks.len() - i,
        {
            let ghost before = out@;
            out.push(self.marks[i].reference.clone());
            proof {
                assert(views(out@) =~= views(before).push(want[i as int]));
                assert(want.subrange(0, i + 1) =~= want.subrange(0, i as int).push(want[i as int]));
            }
            i += 1;
        }
        proof {
            assert(want.subrange(0, i as int) =~= want);
        }
        out
    }

    /// The last deliveries resolved, for a status display.
    pub fn recent(&self) -> (r: &Vec<Delivery>)
        ensures
            outcome_views(r@) == self@.recent,
    {
        &self.recent
    }
}

/// Whether the marks of a ledger stand in the order of the stream, none beyond where it has got
/// to.
pub open spec fn in_stream_order(l: Ledger) -> bool {
    &&& forall|i: int, j: int| 0 <= i <= j < l.marks.len() ==> (#[trigger] l.marks[i]).end <= (#[trigger] l.marks[j]).end
    &&& forall|i: int| 0 <= i < l.marks.len() ==> (#[trigger] l.marks[i]).end <= l.sent
}

/// Once everything sent has been delivered, no message followed is left waiting.
pub proof fn all_arrives_in_the_end(l: Ledger)
    requires
        in_stream_order(l),
    ensures
        after_arrivals(l, l.sent).marks.len() == 0,
    decreases l.marks.len(),
{
    if l.marks.len() > 0 {
        assert(l.marks[0].end <= l.sent);
        let next = resolved(Ledger { marks: l.marks.drop_first(), ..l }, arrived(l.marks[0]));
        assert(in_stream_order(next)) by {
            assert forall|i: int, j: int| 0 <= i <= j < next.marks.len() implies (#[trigger] next.marks[i]).end <= (
            #[trigger] next.marks[j]).end by {
                assert(next.marks[i] == l.marks[i + 1] && next.marks[j] == l.marks[j + 1]);
            }
            assert forall|i: int| 0 <= i < next.marks.len() implies (#[trigger] next.marks[i]).end <= next.sent by {
                assert(next.marks[i] == l.marks[i + 1]);
            }
        }
        all_arrives_in_the_end(next);
    }
}

/// A message is never said to be delivered while a byte of it, or of one before it, is not: what
/// is left waiting first ends past what has arrived.
pub proof fn nothing_arrives_early(l: Ledger, up_to: u64)
    ensures
        after_arrivals(l, up_to).marks.len() > 0 ==> after_arrivals(l, up_to).marks[0].end > up_to,
    decreases l.marks.len(),
{
    if l.marks.len() > 0 && l.marks[0].end <= up_to {
        nothing_arrives_early(resolved(Ledger { marks: l.marks.drop_first(), ..l }, arrived(l.marks[0])), up_to);
    }
}

/// When a session ends every message still followed is resolved, and none stays behind.
pub proof fn the_end_resolves_them_all(l: Ledger, why: Seq<char>)
    ensures
        after_loss(l, why).marks.len() == 0,
    decreases l.marks.len(),
{
    if l.marks.len() > 0 {
        the_end_resolves_them_all(resolved(Ledger { marks: l.marks.drop_first(), ..l }, lost(l.marks[0], why)), why);
    }
}

/// What is kept of the outcomes is bounded.
pub proof fn the_outcomes_are_bounded(s: Seq<Outcome>, d: Outcome)
    requires
        s.len() <= RECENT_DELIVERIES,
    ensures
        pushed(s, d).len() <= RECENT_DELIVERIES,
        pushed(s, d).last() == d,
{
}

} // verus!
