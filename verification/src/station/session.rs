//! A session: what the application sends over it, what the link engine decided, its beginning
//! and its end, and the recording made of it.
use vstd::prelude::*;

use crate::json::{entries_of, Json, Number, Tree};
use crate::ptt::Ptt;
use crate::record::{entry, fraction, name_of, number, session_name, text, Recording, Summary, Tape};
use crate::regulatory::Direction;
use crate::sessions::Session;
use crate::station::account::{
    finished_with, first_notes, is_history, keep_finished, placed_the_call, Crossing, Ending, LinkAccount, Notes,
    SessionNotes,
};
use crate::station::config::{count_more, more, StationConfig, StationStats};
use crate::station::deliveries::{after_arrivals, after_loss, resolved, Ledger, Mark, Outcome};
use crate::station::queue::{has_frames, holds_frames, Outgoing, TxFrame};
use crate::station::rules::ceiling_found;
use crate::station::transmit::can_answer;
use crate::station::{noted_event, said, IdentifierState, Link, Modem, Order, Phase, Station};
use crate::text::{cat, digits, ends_with, nearest, same, strip_suffix, views, whole, without_suffix};

verus! {

/// What the link engine decided.
#[derive(Debug)]
pub enum Action {
    /// Transmit some frames.
    Transmit(Vec<TxFrame>),
    /// Deliver bytes to the application, decompressed; and whether that failed.
    Deliver(Vec<u8>, bool),
    /// Something happened: its name, and what it was.
    Event(String, String),
}

/// What the station reads of the link engine.
#[derive(Clone, Copy, PartialEq, Eq, Structural, Debug)]
pub struct Engine {
    /// Payload bytes acknowledged.
    pub acked: usize,
    /// Payload bytes acknowledged and delivered.
    pub crossed: u64,
    /// Bytes of the stream the other station does not have in order yet.
    pub undelivered: u64,
    /// How the other station last said it heard this one, thousandths of a decibel.
    pub peer_snr_mdb: Option<i64>,
    /// Whether a Test session is running.
    pub test: bool,
}

/// What becomes of a recording at an event.
#[derive(Debug)]
pub enum ForTape {
    /// Nothing.
    Nothing,
    /// One is started, with these notes.
    Start(Option<String>),
    /// The one running is stopped.
    Stop,
}

/// What follows from an action.
#[derive(Debug)]
pub struct Followed {
    /// What the engine is told.
    pub order: Option<Order>,
    /// Whether a session came up: the coders are built anew, and what waits is sent once every
    /// action is taken.
    pub began: bool,
    /// Whether a session ended: the coders go.
    pub ended: bool,
    /// What becomes of a recording.
    pub tape: ForTape,
}

/// A message's way into the session.
#[derive(Debug)]
pub enum Message {
    /// No session is up: it is not queued, and undelivered at once.
    Refused,
    /// What is to be compressed and handed to the engine, where there is anything; the message
    /// is then followed.
    Send(Option<Vec<u8>>),
}

/// The station once what the application queued is taken for the compressor.
pub open spec fn flushed(m: Modem) -> Modem {
    if m.outbound.len() == 0 {
        m
    } else {
        Modem {
            outbound: Seq::empty(),
            link: match m.link {
                Some(l) => Some(LinkAccount { bytes_sent: more(l.bytes_sent, m.outbound.len() as usize), ..l }),
                None => None,
            },
            ..m
        }
    }
}

/// The station as a session comes up, in the words the link reports it with: the stream is
/// counted from nothing, and its frames are the call's or the answer's.
pub open spec fn came_up(m: Modem, detail: Seq<char>) -> Modem {
    Modem {
        link: Some(LinkAccount { started_us: m.now(), bytes_sent: 0, bytes_received: 0 }),
        deliveries: Ledger { sent: 0, ..m.deliveries },
        session_direction: Some(if placed_the_call(detail) { Direction::Originate } else { Direction::Respond }),
        ..m
    }
}

/// The station once a session has come up and the ceiling is known.
pub open spec fn session_up(m: Modem, detail: Seq<char>, acked: usize) -> Modem {
    Modem {
        session_notes: Some(first_notes(detail, m.frequency.value, acked)),
        traffic: Crossing { moved: Seq::empty(), ..m.traffic },
        ..m
    }
}

/// What is known of the station as a session ends.
pub open spec fn ending_of(m: Modem, e: Engine) -> Ending {
    Ending {
        now_us: m.now(),
        bandwidth_hz: if m.config.bandwidth_hz <= u32::MAX { m.config.bandwidth_hz as u32 } else { u32::MAX },
        frequency_hz: m.frequency.value,
        bytes_acked: e.acked,
        test: e.test,
    }
}

/// The recording a session went into.
pub open spec fn tape_name(m: Modem) -> Option<Seq<char>> {
    match m.tape {
        Some(t) => Some(without_suffix(t.wav, ".wav"@)),
        None => None,
    }
}

/// The station once a session ended: its identifier falls due, it joins the history, what it did
/// not deliver is said to be undelivered, and callsigns that waited for it are taken.
pub open spec fn session_down(m: Modem, detail: Seq<char>, finished: Seq<Session>) -> Modem {
    Modem {
        identifier: IdentifierState {
            final_due: m.identifier.final_due || (m.config.cw_id is Some && m.identifier.transmitted_since),
            ..m.identifier
        },
        session_notes: None,
        finished,
        deliveries: after_loss(m.deliveries, detail),
        link: None,
        traffic: Crossing { moved: Seq::empty(), ..m.traffic },
        pending_callsigns: None,
        ..m
    }
}

/// Whether these are the finished sessions once the one that is up ended.
pub open spec fn history_after(m: Modem, e: Engine, detail: Seq<char>, finished: Seq<Session>) -> bool {
    match (m.session_notes, m.link) {
        (Some(n), Some(l)) => exists|s: Session| #[trigger]
            is_history(s, n, l, ending_of(m, e), detail, tape_name(m)) && finished == finished_with(m.finished, s),
        _ => finished == m.finished,
    }
}

/// The station once bytes were delivered.
pub open spec fn delivered_to(m: Modem, bytes: Seq<u8>, failed: bool, word: Seq<char>) -> Modem {
    let noted = if failed {
        noted_event(m, "error"@, "the peer sent a compressed stream this station cannot read"@, word)
    } else {
        m
    };
    Modem {
        link: match m.link {
            Some(l) => Some(LinkAccount { bytes_received: more(l.bytes_received, bytes.len() as usize), ..l }),
            None => None,
        },
        delivered: m.delivered + bytes,
        ..noted
    }
}

/// The station once every action is taken: the other station's reading is noted, the messages it
/// now has are resolved, an identifier that is owed and that no frames will carry is queued on
/// its own, and what crossed the air is accounted.
pub open spec fn pumped(m: Modem, e: Engine) -> Modem {
    let arrived = if m.link is Some {
        after_arrivals(
            m.deliveries,
            if m.deliveries.sent > e.undelivered { (m.deliveries.sent - e.undelivered) as u64 } else { 0 },
        )
    } else {
        m.deliveries
    };
    let alone = m.identifier.final_due && !has_frames(m.pending);
    Modem {
        session_notes: match (m.session_notes, e.peer_snr_mdb) {
            (Some(n), Some(heard)) => Some(Notes { heard_there_mdb: Some(heard), ..n }),
            _ => m.session_notes,
        },
        deliveries: arrived,
        identifier: if alone { IdentifierState { final_due: false, ..m.identifier } } else { m.identifier },
        pending: if alone { m.pending.push(Outgoing::Identifier) } else { m.pending },
        traffic: crate::station::account::accounted(m.traffic, m.now(), e.crossed, m.link is Some),
        ..m
    }
}

/// Whether a recording is started or stopped at an event: a session is the unit of a field
/// recording, unless a Test session is recording itself.
pub open spec fn tape_at(m: Modem, name: Seq<char>, test: bool, t: ForTape) -> bool {
    if m.config.record_auto && !test && name == "connected"@ {
        t matches ForTape::Start(notes) && match m.record_notes {
            Some(given) => notes matches Some(x) && x@ == given,
            None => if m.config.record_notes@.len() == 0 {
                notes is None
            } else {
                notes matches Some(x) && x@ == m.config.record_notes@
            },
        }
    } else if m.config.record_auto && !test && name == "disconnected"@ {
        t is Stop
    } else {
        t is Nothing
    }
}

/// The station once the notes for a recording that starts on its own were taken.
pub open spec fn notes_taken(m: Modem, name: Seq<char>, test: bool) -> Modem {
    if m.config.record_auto && !test && name == "connected"@ { Modem { record_notes: None, ..m } } else { m }
}

/// What a text that may be missing is in a document.
pub open spec fn maybe_text(s: Option<Seq<char>>) -> Tree {
    match s {
        Some(x) => Tree::Text(x),
        None => Tree::Null,
    }
}

/// What a number that may be missing is in a document.
pub open spec fn maybe_number(n: Option<u64>) -> Tree {
    match n {
        Some(x) => Tree::Number(Number::Unsigned(x)),
        None => Tree::Null,
    }
}

/// What a recording says about the session besides what the modem observes.
pub open spec fn meta_tree(
    c: StationConfig,
    call: Seq<char>,
    remote: Option<Seq<char>>,
    notes: Option<Seq<char>>,
    frequency_hz: Option<u64>,
    state: Seq<char>,
) -> Tree {
    Tree::Table(
        seq![
            ("bandwidth_hz"@, Tree::Number(Number::Unsigned(c.bandwidth_hz))),
            ("callsign"@, Tree::Text(call)),
            ("compress"@, Tree::Bool(c.compress)),
            ("frequency_hz"@, maybe_number(frequency_hz)),
            ("max_mode"@, Tree::Number(Number::Unsigned(c.max_mode as u64))),
            ("notes"@, maybe_text(notes)),
            (
                "operator"@,
                Tree::Table(
                    seq![
                        ("antenna"@, Tree::Text(c.operator.antenna@)),
                        ("grid"@, Tree::Text(c.operator.grid@)),
                        (
                            "power_w"@,
                            match c.operator.power_mw {
                                Some(mw) => Tree::Number(Number::Real((mw * 1_000_000) as i128)),
                                None => Tree::Null,
                            },
                        ),
                        ("rig"@, Tree::Text(c.operator.rig@)),
                    ],
                ),
            ),
            ("remote"@, maybe_text(remote)),
            ("state"@, Tree::Text(state)),
            ("tx_level"@, Tree::Number(Number::Real(c.tx_level as i128))),
            ("wait_for_clear"@, Tree::Bool(c.wait_for_clear)),
        ],
    )
}

fn text_of_maybe(s: Option<&str>) -> (r: Json)
    ensures
        r@ == maybe_text(
            match s {
                Some(x) => Some(x@),
                None => None,
            },
        ),
{
    match s {
        Some(x) => text(x),
        None => Json::Null,
    }
}

fn meta_json(
    c: &StationConfig,
    call: &str,
    remote: Option<&str>,
    notes: Option<&str>,
    frequency_hz: Option<u64>,
    state: &str,
) -> (r: Json)
    ensures
        r@ == meta_tree(
            *c,
            call@,
            match remote {
                Some(x) => Some(x@),
                None => None,
            },
            match notes {
                Some(x) => Some(x@),
                None => None,
            },
            frequency_hz,
            state@,
        ),
{
    let ghost wanted = meta_tree(
        *c,
        call@,
        match remote {
            Some(x) => Some(x@),
            None => None,
        },
        match notes {
            Some(x) => Some(x@),
            None => None,
        },
        frequency_hz,
        state@,
    )->Table_0;
    let mut o: Vec<(String, Json)> = Vec::new();
    entry(&mut o, "antenna", text(&c.operator.antenna));
    entry(&mut o, "grid", text(&c.operator.grid));
    let power = match c.operator.power_mw {
        Some(mw) => fraction((mw as i128) * 1_000_000),
        None => Json::Null,
    };
    entry(&mut o, "power_w", power);
    entry(&mut o, "rig", text(&c.operator.rig));
    proof {
        assert(entries_of(o@) =~= wanted[6].1->Table_0);
    }
    let mut t: Vec<(String, Json)> = Vec::new();
    entry(&mut t, "bandwidth_hz", number(c.bandwidth_hz));
    entry(&mut t, "callsign", text(call));
    entry(&mut t, "compress", Json::Bool(c.compress));
    let dial = match frequency_hz {
        Some(hz) => number(hz),
        None => Json::Null,
    };
    entry(&mut t, "frequency_hz", dial);
    entry(&mut t, "max_mode", number(c.max_mode as u64));
    entry(&mut t, "notes", text_of_maybe(notes));
    entry(&mut t, "operator", Json::Table(o));
    entry(&mut t, "remote", text_of_maybe(remote));
    entry(&mut t, "state", text(state));
    entry(&mut t, "tx_level", fraction(c.tx_level as i128));
    entry(&mut t, "wait_for_clear", Json::Bool(c.wait_for_clear));
    proof {
        assert(entries_of(t@) =~= wanted);
    }
    Json::Table(t)
}

/// What is said of a recording that stopped.
pub open spec fn stopped_words(s: Summary, rate: u32) -> Seq<char> {
    "stopped "@ + s.wav@ + " ("@ + digits(nearest(s.samples as nat, rate as nat)) + " s, "@ + digits(s.frames as nat)
        + " frames, "@ + digits(s.decoded as nat) + " decoded)"@
}

fn stopped_text(s: &Summary, rate: u32) -> (r: String)
    requires
        rate > 0,
    ensures
        r@ == stopped_words(*s, rate),
{
    let q: u64 = s.samples / (rate as u64);
    let left: u64 = s.samples % (rate as u64);
    let seconds: u128 = if 2 * left < rate as u64 || (2 * left == rate as u64 && q % 2 == 0) {
        q as u128
    } else {
        q as u128 + 1
    };
    let mut t = cat("stopped ", &s.wav);
    t.append(" (");
    t.append(&whole(seconds));
    t.append(" s, ");
    t.append(&whole(s.frames as u128));
    t.append(" frames, ");
    t.append(&whole(s.decoded as u128));
    t.append(" decoded)");
    t
}

/// The two ends of the session a recording is of.
#[derive(Debug)]
pub struct Ends {
    /// The callsign this station runs under.
    pub my_call: String,
    /// The other station's, where there is one.
    pub remote: Option<String>,
}

/// Whether this is what a recording says about the session, with what the radio answers
/// when it was asked for its frequency.
pub open spec fn is_meta<P: Ptt>(
    t: Tree,
    radio: P,
    c: StationConfig,
    call: Seq<char>,
    remote: Option<Seq<char>>,
    notes: Option<Seq<char>>,
    state: Seq<char>,
) -> bool {
    exists|frequency_hz: Option<u64>|
        can_answer(radio, frequency_hz) && t == #[trigger] meta_tree(c, call, remote, notes, frequency_hz, state)
}

/// Whether this is the recording that is begun.
pub open spec fn is_begun<P: Ptt>(
    t: Tape,
    radio: P,
    m: Modem,
    name: Option<Seq<char>>,
    notes: Option<Seq<char>>,
    stamp: Seq<char>,
    ends: Ends,
    state: Seq<char>,
) -> bool {
    let remote = match ends.remote {
        Some(x) => Some(x@),
        None => None,
    };
    let called = match name {
        Some(x) => x,
        None => name_of(stamp, ends.my_call@, remote),
    };
    &&& is_meta(t.meta, radio, m.config, ends.my_call@, remote, notes, state)
    &&& t == (Tape {
        wav: called + ".wav"@,
        sidecar: called + ".json"@,
        sample_rate: m.config.audio_rate,
        samples: 0,
        patched_at: 0,
        started: stamp,
        t0_us: m.now() as i64,
        frames: Seq::empty(),
        sent: Seq::empty(),
        events: Seq::empty(),
        meta: t.meta,
    })
}

fn extend(v: &mut Vec<u8>, more: &Vec<u8>)
    ensures
        final(v)@ == old(v)@ + more@,
{
    let ghost before = v@;
    let mut i: usize = 0;
    proof {
        assert(before + more@.subrange(0, 0) =~= before);
    }
    while i < more.len()
        invariant
            i <= more.len(),
            v@ == before + more@.subrange(0, i as int),
        decreases more.len() - i,
    {
        v.push(more[i]);
        proof {
            assert(before + more@.subrange(0, i + 1) =~= (before + more@.subrange(0, i as int)).push(more@[i as int]));
        }
        i += 1;
    }
    proof {
        assert(more@.subrange(0, i as int) =~= more@);
    }
}

impl<P: Ptt> Station<P> {
    /// Queue bytes to send. Bytes handed over before a session exists are held, not compressed:
    /// whether the stream is compressed at all is settled by the connect handshake. Gives what
    /// is to be compressed and handed to the engine, where a session is up.
    pub fn send(&mut self, data: &Vec<u8>, connected: bool) -> (r: Option<Vec<u8>>)
        requires
            old(self).wf(),
        ensures
            final(self).wf(),
            final(self).radio() == old(self).radio(),
            ({
                let m = Modem { outbound: old(self)@.outbound + data@, ..old(self)@ };
                &&& final(self)@ == (if connected { flushed(m) } else { m })
                &&& match r {
                    Some(v) => connected && m.outbound.len() > 0 && v@ == m.outbound,
                    None => !connected || m.outbound.len() == 0,
                }
            }),
    {
        extend(&mut self.outbound, data);
        if connected { self.flush_outbound() } else { None }
    }

    /// Take whatever the application has queued, to be pushed through the compressor and into
    /// the engine.
    pub fn flush_outbound(&mut self) -> (r: Option<Vec<u8>>)
        requires
            old(self).wf(),
        ensures
            final(self).wf(),
            final(self).radio() == old(self).radio(),
            final(self)@ == flushed(old(self)@),
            match r {
                Some(v) => old(self)@.outbound.len() > 0 && v@ == old(self)@.outbound,
                None => old(self)@.outbound.len() == 0,
            },
    {
        if self.outbound.len() == 0 {
            return None;
        }
        let mut pending: Vec<u8> = Vec::new();
        std::mem::swap(&mut pending, &mut self.outbound);
        proof {
            assert(self.outbound@ =~= Seq::empty());
        }
        self.link = match self.link {
            Some(l) => Some(
                LinkAccount {
                    started_us: l.started_us,
                    bytes_sent: count_more(l.bytes_sent, pending.len()),
                    bytes_received: l.bytes_received,
                },
            ),
            None => None,
        };
        Some(pending)
    }

    /// So many bytes went to the engine, and the compressor has taken and made so many so far.
    pub fn wired(&mut self, bytes: usize, taken: usize, made: usize)
        requires
            old(self).wf(),
            old(self)@.deliveries.sent + bytes <= u64::MAX,
        ensures
            final(self).wf(),
            final(self).radio() == old(self).radio(),
            final(self)@ == (Modem {
                deliveries: Ledger { sent: (old(self)@.deliveries.sent + bytes) as u64, ..old(self)@.deliveries },
                stats: StationStats {
                    bytes_before_compression: taken,
                    bytes_after_compression: made,
                    ..old(self)@.stats
                },
                ..old(self)@
            }),
    {
        self.deliveries.handed(bytes);
        self.stats.bytes_before_compression = taken;
        self.stats.bytes_after_compression = made;
    }

    /// Queue a message for the session, to be followed once it is with the engine. A message
    /// given with no session up is not queued, and is reported undelivered at once.
    pub fn send_tracked(&mut self, data: &Vec<u8>, reference: &str, connected: bool) -> (r: Message)
        requires
            old(self).wf(),
        ensures
            final(self).wf(),
            final(self).radio() == old(self).radio(),
            if connected {
                let m = Modem { outbound: old(self)@.outbound + data@, ..old(self)@ };
                &&& final(self)@ == flushed(m)
                &&& r matches Message::Send(bytes) && match bytes {
                    Some(v) => m.outbound.len() > 0 && v@ == m.outbound,
                    None => m.outbound.len() == 0,
                }
            } else {
                r is Refused && final(self)@ == (Modem {
                    deliveries: resolved(
                        old(self)@.deliveries,
                        Outcome {
                            reference: reference@,
                            bytes: data@.len() as usize,
                            delivered: false,
                            reason: Some("no session"@),
                        },
                    ),
                    ..old(self)@
                })
            },
    {
        if !connected {
            self.deliveries.refuse(reference, data.len());
            return Message::Refused;
        }
        extend(&mut self.outbound, data);
        Message::Send(self.flush_outbound())
    }

    /// Follow a message of so many bytes that is now with the engine.
    pub fn follow(&mut self, reference: &str, bytes: usize)
        requires
            old(self).wf(),
        ensures
            final(self).wf(),
            final(self).radio() == old(self).radio(),
            final(self)@ == (Modem {
                deliveries: Ledger {
                    marks: old(self)@.deliveries.marks.push(
                        Mark { reference: reference@, bytes, end: old(self)@.deliveries.sent },
                    ),
                    ..old(self)@.deliveries
                },
                ..old(self)@
            }),
    {
        self.deliveries.follow(reference, bytes);
    }

    /// Change the callsigns this station answers to. `checked` is what the engine makes of the
    /// list: the callsigns, or why it refuses them. Given while a session is up, the change waits
    /// for the session to end (the callsign is in every frame's addressing), and the result says
    /// so.
    pub fn set_callsigns(&mut self, checked: Result<Vec<String>, &'static str>, phase: Phase) -> (r: Result<
        Option<Order>,
        &'static str,
    >)
        requires
            old(self).wf(),
        ensures
            final(self).wf(),
            final(self).radio() == old(self).radio(),
            match checked {
                Err(why) => r matches Err(e) && e@ == why@ && final(self)@ == old(self)@,
                Ok(calls) => if phase == Phase::Idle {
                    r == Ok::<Option<Order>, &'static str>(Some(Order::SetCallsigns(calls))) && final(self)@ == (Modem {
                        pending_callsigns: None,
                        ..old(self)@
                    })
                } else {
                    r == Ok::<Option<Order>, &'static str>(None) && final(self)@ == (Modem {
                        pending_callsigns: Some(views(calls@)),
                        ..old(self)@
                    })
                },
            },
    {
        let calls = match checked {
            Ok(calls) => calls,
            Err(why) => return Err(why),
        };
        match phase {
            Phase::Idle => {
                self.pending_callsigns = None;
                Ok(Some(Order::SetCallsigns(calls)))
            },
            _ => {
                self.pending_callsigns = Some(calls);
                Ok(None)
            },
        }
    }

    /// A session came up: its account, its notes for the history, and the engine's stream
    /// counted from nothing again. Gives what the engine is told of the ceiling.
    pub fn session_began(&mut self, detail: &str, acked: usize, phase: Phase, floors: &Vec<bool>) -> (r: Option<Order>)
        requires
            old(self).wf(),
        ensures
            final(self).wf(),
            final(self).radio() == old(self).radio() || exists|b: &mut P, answer: Option<u64>|
                *b == old(self).radio() && *final(b) == final(self).radio() && #[trigger] call_ensures(
                    P::frequency_hz,
                    (b,),
                    answer,
                ),
            exists|mid: Modem|
                ceiling_found(came_up(old(self)@, detail@), old(self).radio(), mid, phase, floors@, r) && final(self)@
                    == #[trigger] session_up(mid, detail@, acked),
    {
        let now: u64 = self.now();
        let ghost first = self@;
        self.link = Some(LinkAccount { started_us: now, bytes_sent: 0, bytes_received: 0 });
        self.deliveries.began();
        self.session_direction = Some(
            if ends_with(detail, "(iss)") { Direction::Originate } else { Direction::Respond },
        );
        proof {
            assert(self@ == came_up(first, detail@));
        }
        let order = self.refresh_ceiling(true, phase, floors);
        let ghost mid = self@;
        self.open_notes(detail, acked);
        proof {
            assert(self@ == session_up(mid, detail@, acked));
        }
        order
    }

    fn open_notes(&mut self, detail: &str, acked: usize)
        requires
            old(self).wf(),
        ensures
            final(self).wf(),
            final(self).radio() == old(self).radio(),
            final(self)@ == session_up(old(self)@, detail@, acked),
    {
        self.session_notes = Some(SessionNotes::began(detail, self.frequency.value, acked));
        self.traffic.clear();
    }

    /// The session that just ended, for the history: while the account and the recording are
    /// still the session's.
    pub fn finish_session(&mut self, end: &str, e: Engine)
        requires
            old(self).wf(),
        ensures
            final(self).wf(),
            final(self).radio() == old(self).radio(),
            history_after(old(self)@, e, end@, final(self)@.finished),
            final(self)@ == (Modem { session_notes: None, finished: final(self)@.finished, ..old(self)@ }),
    {
        let now: u64 = self.now();
        let mut notes: Option<SessionNotes> = None;
        std::mem::swap(&mut notes, &mut self.session_notes);
        let notes = match notes {
            Some(n) => n,
            None => return,
        };
        let link = match self.link {
            Some(l) => l,
            None => return,
        };
        let recording: Option<String> = match &self.recording {
            Some(t) => Some(strip_suffix(t.path(), ".wav")),
            None => None,
        };
        let bandwidth: u32 = if self.config.bandwidth_hz <= u32::MAX as u64 {
            self.config.bandwidth_hz as u32
        } else {
            u32::MAX
        };
        let facts = Ending {
            now_us: now,
            bandwidth_hz: bandwidth,
            frequency_hz: self.frequency.value,
            bytes_acked: e.acked,
            test: e.test,
        };
        let session = notes.finish(link, facts, end, recording);
        proof {
            assert(is_history(session, old(self)@.session_notes->0, link, ending_of(old(self)@, e), end@, tape_name(old(self)@)));
        }
        keep_finished(&mut self.finished, session);
    }

    /// A session ended, however it ended: its identifier falls due, it joins the history, and
    /// what it did not deliver is said to be undelivered. Gives the callsigns that waited for
    /// it.
    pub fn session_ended(&mut self, detail: &str, e: Engine) -> (r: Option<Order>)
        requires
            old(self).wf(),
        ensures
            final(self).wf(),
            final(self).radio() == old(self).radio(),
            history_after(
                Modem { identifier: final(self)@.identifier, ..old(self)@ },
                e,
                detail@,
                final(self)@.finished,
            ),
            final(self)@ == session_down(old(self)@, detail@, final(self)@.finished),
            match r {
                Some(Order::SetCallsigns(calls)) => old(self)@.pending_callsigns == Some(views(calls@)),
                Some(_) => false,
                None => old(self)@.pending_callsigns is None,
            },
    {
        if self.config.cw_id.is_some() && self.identifier.transmitted_since {
            self.identifier.final_due = true;
        }
        self.finish_session(detail, e);
        self.deliveries.ended(detail);
        self.link = None;
        self.traffic.clear();
        let mut calls: Option<Vec<String>> = None;
        std::mem::swap(&mut calls, &mut self.pending_callsigns);
        match calls {
            Some(v) => Some(Order::SetCallsigns(v)),
            None => None,
        }
    }

    /// Bytes came in for the application.
    pub fn deliver(&mut self, bytes: &Vec<u8>, failed: bool, word: &str)
        requires
            old(self).wf(),
        ensures
            final(self).wf(),
            final(self).radio() == old(self).radio(),
            final(self)@ == delivered_to(old(self)@, bytes@, failed, word@),
    {
        if failed {
            self.note("error", "the peer sent a compressed stream this station cannot read", word);
        }
        self.link = match self.link {
            Some(l) => Some(
                LinkAccount {
                    started_us: l.started_us,
                    bytes_sent: l.bytes_sent,
                    bytes_received: count_more(l.bytes_received, bytes.len()),
                },
            ),
            None => None,
        };
        extend(&mut self.delivered, bytes);
    }

    /// Take the notes for a recording that starts on its own, and say what becomes of a
    /// recording at an event.
    pub fn tape_for(&mut self, name: &str, test: bool) -> (r: ForTape)
        requires
            old(self).wf(),
        ensures
            final(self).wf(),
            final(self).radio() == old(self).radio(),
            tape_at(old(self)@, name@, test, r),
            final(self)@ == notes_taken(old(self)@, name@, test),
    {
        if !self.config.record_auto || test {
            return ForTape::Nothing;
        }
        if same(name, "connected") {
            let mut given: Option<String> = None;
            std::mem::swap(&mut given, &mut self.record_notes);
            let notes = match given {
                Some(x) => Some(x),
                None => if self.config.record_notes.as_str().is_empty() {
                    None
                } else {
                    Some(self.config.record_notes.clone())
                },
            };
            return ForTape::Start(notes);
        }
        if same(name, "disconnected") { ForTape::Stop } else { ForTape::Nothing }
    }

    /// Act on one thing the engine decided: frames are queued, bytes are delivered, and an event
    /// is reported, a session begun or ended with it.
    pub fn pump(&mut self, action: Action, e: Engine, link: &Link, floors: &Vec<bool>) -> (r: Followed)
        requires
            old(self).wf(),
        ensures
            final(self).wf(),
            final(self).radio() == old(self).radio() || exists|b: &mut P, answer: Option<u64>|
                *b == old(self).radio() && *final(b) == final(self).radio() && #[trigger] call_ensures(
                    P::frequency_hz,
                    (b,),
                    answer,
                ),
            !(action matches Action::Event(name, _) && name@ == "connected"@) ==> final(self).radio() == old(self).radio(),
            match action {
                Action::Transmit(frames) => final(self)@ == (Modem {
                    pending: old(self)@.pending.push(Outgoing::Frames(frames)),
                    ..old(self)@
                }) && r.order is None && !r.began && !r.ended && r.tape is Nothing,
                Action::Deliver(bytes, failed) => final(self)@ == delivered_to(old(self)@, bytes@, failed, link.word@)
                    && r.order is None && !r.began && !r.ended && r.tape is Nothing,
                Action::Event(name, detail) => event_taken(old(self)@, old(self).radio(), final(self)@, name@, detail@, e, link, floors@, r),
            },
    {
        match action {
            Action::Transmit(frames) => {
                self.pending.push(Outgoing::Frames(frames));
                Followed { order: None, began: false, ended: false, tape: ForTape::Nothing }
            },
            Action::Deliver(bytes, failed) => {
                self.deliver(&bytes, failed, &link.word);
                Followed { order: None, began: false, ended: false, tape: ForTape::Nothing }
            },
            Action::Event(name, detail) => self.take_event(&name, &detail, e, link, floors),
        }
    }

    fn take_event(&mut self, name: &str, detail: &str, e: Engine, link: &Link, floors: &Vec<bool>) -> (r: Followed)
        requires
            old(self).wf(),
        ensures
            final(self).wf(),
            final(self).radio() == old(self).radio() || exists|b: &mut P, answer: Option<u64>|
                *b == old(self).radio() && *final(b) == final(self).radio() && #[trigger] call_ensures(
                    P::frequency_hz,
                    (b,),
                    answer,
                ),
            name@ != "connected"@ ==> final(self).radio() == old(self).radio(),
            event_taken(old(self)@, old(self).radio(), final(self)@, name@, detail@, e, link, floors@, r),
    {
        let ghost first = self@;
        proof {
            reveal(event_taken);
            reveal_strlit("connected");
            reveal_strlit("disconnected");
        }
        let began: bool = same(name, "connected");
        let ended: bool = !began && same(name, "disconnected");
        let order: Option<Order> = if began {
            self.session_began(detail, e.acked, link.phase, floors)
        } else if ended {
            self.session_ended(detail, e)
        } else {
            None
        };
        let ghost mid = self@;
        self.note(name, detail, &link.word);
        let ghost after = self@;
        let tape = self.tape_for(name, e.test);
        proof {
            assert(after == noted_event(mid, name@, detail@, link.word@));
        }
        Followed { order, began, ended, tape }
    }

    /// Every action is taken: the other station's reading is noted, the messages it now has are
    /// resolved, an identifier that is owed is queued where no frames will carry it, and what
    /// crossed the air is accounted.
    pub fn pumped(&mut self, e: Engine)
        requires
            old(self).wf(),
        ensures
            final(self).wf(),
            final(self).radio() == old(self).radio(),
            final(self)@ == pumped(old(self)@, e),
    {
        match &mut self.session_notes {
            Some(n) => match e.peer_snr_mdb {
                Some(heard) => {
                    n.heard_there_mdb = Some(heard);
                },
                None => {},
            },
            None => {},
        }
        if self.link.is_some() {
            self.deliveries.note_arrivals(e.undelivered);
        }
        if self.identifier.final_due && !holds_frames(&self.pending) {
            self.identifier.final_due = false;
            self.pending.push(Outgoing::Identifier);
        }
        self.account(e.crossed);
    }

    /// A recording of the channel and what the modem makes of it, ready to be begun. `name`
    /// overrides the time-and-callsigns name; `notes` is whatever the operator wants the sidecar
    /// to say. The radio is asked for its frequency: the one fact about a recording nobody can
    /// reconstruct afterwards. An error if recording is not configured or one is already running.
    pub fn prepare_recording(
        &mut self,
        name: Option<&str>,
        notes: Option<&str>,
        stamp: &str,
        ends: &Ends,
        state: &str,
    ) -> (r: Result<Recording, String>)
        requires
            old(self).wf(),
        ensures
            final(self).wf(),
            final(self).radio() == old(self).radio() || exists|b: &mut P, answer: Option<u64>|
                *b == old(self).radio() && *final(b) == final(self).radio() && #[trigger] call_ensures(
                    P::frequency_hz,
                    (b,),
                    answer,
                ),
            final(self)@ == old(self)@,
            r is Err ==> final(self).radio() == old(self).radio(),
            match r {
                Err(e) => if old(self)@.config.record_dir is None {
                    e@ == "no recording directory is configured ([record] dir)"@
                } else {
                    old(self)@.tape is Some && e@ == "a recording is already running"@
                },
                Ok(t) => old(self)@.config.record_dir is Some && old(self)@.tape is None && is_begun(
                    t@,
                    old(self).radio(),
                    old(self)@,
                    match name {
                        Some(x) => Some(x@),
                        None => None,
                    },
                    match notes {
                        Some(x) => Some(x@),
                        None => None,
                    },
                    stamp@,
                    *ends,
                    state@,
                ),
            },
    {
        if self.config.record_dir.is_none() {
            return Err("no recording directory is configured ([record] dir)".to_owned());
        }
        if self.recording.is_some() {
            return Err("a recording is already running".to_owned());
        }
        let remote: Option<&str> = match &ends.remote {
            Some(x) => Some(x.as_str()),
            None => None,
        };
        let called = match name {
            Some(x) => x.to_owned(),
            None => session_name(stamp, &ends.my_call, remote),
        };
        let frequency_hz: Option<u64> = self.ptt.inner_mut().frequency_hz();
        let meta = meta_json(&self.config, &ends.my_call, remote, notes, frequency_hz, state);
        let now: u64 = self.now();
        proof {
            let other = match &ends.remote {
                Some(x) => Some(x@),
                None => None,
            };
            let said = match notes {
                Some(x) => Some(x@),
                None => None,
            };
            assert(can_answer(old(self).radio(), frequency_hz));
            assert(meta@ == meta_tree(old(self)@.config, ends.my_call@, other, said, frequency_hz, state@));
            assert(is_meta(meta@, old(self).radio(), old(self)@.config, ends.my_call@, other, said, state@));
            assert(called@ == match name {
                Some(x) => x@,
                None => name_of(stamp@, ends.my_call@, other),
            });
        }
        Ok(Recording::start(&called, self.config.audio_rate, stamp, now as i64, meta))
    }

    /// The recording's files are made: it runs from now on.
    pub fn begin_recording(&mut self, recording: Recording, path: &str, word: &str)
        requires
            old(self).wf(),
            recording@.wf(),
            recording@.sample_rate > 0,
            recording@.t0_us >= 0,
        ensures
            final(self).wf(),
            final(self).radio() == old(self).radio(),
            final(self)@ == noted_event(
                Modem { tape: Some(recording@), ..old(self)@ },
                "recording"@,
                "started "@ + path@,
                word@,
            ),
    {
        self.recording = Some(recording);
        let detail = cat("started ", path);
        self.note("recording", &detail, word);
    }

    /// Take the recording, if one is running, to be finished.
    pub fn stop_recording(&mut self) -> (r: Option<Recording>)
        requires
            old(self).wf(),
        ensures
            final(self).wf(),
            final(self).radio() == old(self).radio(),
            final(self)@ == (Modem { tape: None, ..old(self)@ }),
            match r {
                Some(t) => old(self)@.tape == Some(t@),
                None => old(self)@.tape is None,
            },
    {
        let mut out: Option<Recording> = None;
        std::mem::swap(&mut out, &mut self.recording);
        out
    }

    /// Say what a recording that was finished holds, or why it could not be.
    pub fn recording_stopped(&mut self, result: Result<Summary, String>, word: &str) -> (r: Option<Summary>)
        requires
            old(self).wf(),
        ensures
            final(self).wf(),
            final(self).radio() == old(self).radio(),
            match result {
                Ok(s) => r == Some(s) && final(self)@ == noted_event(
                    old(self)@,
                    "recording"@,
                    stopped_words(s, old(self)@.config.audio_rate),
                    word@,
                ),
                Err(error) => r is None && final(self)@ == noted_event(
                    old(self)@,
                    "error"@,
                    "could not finish the recording: "@ + error@,
                    word@,
                ),
            },
    {
        match result {
            Ok(s) => {
                let detail = stopped_text(&s, self.config.audio_rate);
                self.note("recording", &detail, word);
                Some(s)
            },
            Err(error) => {
                let detail = cat("could not finish the recording: ", &error);
                self.note("error", &detail, word);
                None
            },
        }
    }

    /// The recording in progress.
    pub fn recording(&self) -> (r: Option<&Recording>)
        ensures
            match r {
                Some(t) => self@.tape == Some(t@),
                None => self@.tape is None,
            },
    {
        match &self.recording {
            Some(t) => Some(t),
            None => None,
        }
    }

    /// Where recordings are written, whether or not one is running now.
    pub fn record_dir(&self) -> (r: Option<&String>)
        ensures
            match r {
                Some(dir) => self@.config.record_dir == Some(*dir),
                None => self@.config.record_dir is None,
            },
    {
        match &self.config.record_dir {
            Some(dir) => Some(dir),
            None => None,
        }
    }

    /// Notes for the next recording that starts on its own.
    pub fn set_record_notes(&mut self, notes: Option<String>)
        requires
            old(self).wf(),
        ensures
            final(self).wf(),
            final(self).radio() == old(self).radio(),
            final(self)@ == (Modem {
                record_notes: match notes {
                    Some(x) => Some(x@),
                    None => None,
                },
                ..old(self)@
            }),
    {
        self.record_notes = notes;
    }

    /// Where recordings go, whether sessions record themselves, and what every such recording
    /// says about the station.
    pub fn set_recording(&mut self, dir: Option<String>, auto: bool, notes: String)
        requires
            old(self).wf(),
        ensures
            final(self).wf(),
            final(self).radio() == old(self).radio(),
            final(self)@ == (Modem {
                config: StationConfig { record_dir: dir, record_auto: auto, record_notes: notes, ..old(self)@.config },
                ..old(self)@
            }),
    {
        self.config.record_dir = dir;
        self.config.record_auto = auto;
        self.config.record_notes = notes;
    }
}

/// Whether an event left a station so: a session begun or ended with it, the event reported, and
/// a recording started or stopped.
#[verifier::opaque]
pub open spec fn event_taken<P: Ptt>(
    m: Modem,
    radio: P,
    after: Modem,
    name: Seq<char>,
    detail: Seq<char>,
    e: Engine,
    link: &Link,
    floors: Seq<bool>,
    r: Followed,
) -> bool {
    exists|mid: Modem| {
        let noted = #[trigger] noted_event(mid, name, detail, link.word@);
        &&& after == notes_taken(noted, name, e.test)
        &&& tape_at(noted, name, e.test, r.tape)
        &&& r.began == (name == "connected"@)
        &&& r.ended == (name == "disconnected"@)
        &&& if name == "connected"@ {
            exists|ceiled: Modem|
                ceiling_found(came_up(m, detail), radio, ceiled, link.phase, floors, r.order) && mid == #[trigger] session_up(
                    ceiled,
                    detail,
                    e.acked,
                )
        } else if name == "disconnected"@ {
            &&& mid == session_down(m, detail, mid.finished)
            &&& history_after(Modem { identifier: mid.identifier, ..m }, e, detail, mid.finished)
            &&& match r.order {
                Some(Order::SetCallsigns(calls)) => m.pending_callsigns == Some(views(calls@)),
                Some(_) => false,
                None => m.pending_callsigns is None,
            }
        } else {
            mid == m && r.order is None
        }
    }
}

} // verus!
