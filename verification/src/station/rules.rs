//! The rules over a station: the next transmission started and rendered, the ceiling on the
//! link's rungs, what an operator may do now, and where the station stands.
use vstd::prelude::*;

use crate::ptt::{Ptt, PttError};
use crate::regulatory::occupancy::{AirOccupancy, Reading};
use crate::regulatory::profile::Profile;
use crate::regulatory::{
    dial_views, first_refused, is_policy_named, ladder_edges, rung_emission, Decision, Direction, EmissionKind,
    Policy, Ruling, Settings, Situation,
};
use crate::station::config::{StationConfig, CLOCK_END_US};
use crate::station::gate::{
    answer, asked_ruling, ceiling_for_engine, check, direction_now, engine_ceiling, indicated, operator_test,
    operator_test_of, policy_state, policy_word, ruling_views, standing, standing_direction, supposed, top_of,
    widest_emission, Answer, FrequencyCache, Logged, RegulatoryQuery, Standing, CEILING_EVERY_US,
};
use crate::station::frames::words_of;
use crate::station::queue::Outgoing;
use crate::station::transmit::{
    asked_to, gated, held_back, holds, id_due, id_gap, is_gated, layout, lead_of, lemma_layout_alike,
    lemma_rendered_keys_alike, made_view, past_pauses, rendered, situation_in, tail_of, Channel, Gated, Rendering,
};
use crate::station::{ceiling_view, noted_event, Link, Modem, Order, Phase, Station};
use crate::text::{cat, digits, same, whole};

verus! {

/// What became of starting the next transmission.
#[derive(Debug)]
pub enum Started {
    /// Nothing is queued.
    Empty,
    /// A pause at the head of the queue still runs.
    Pausing,
    /// The channel is busy; what the engine is told.
    Held(Option<Order>),
    /// It was judged.
    Judged(Gated),
}

/// Whether the rules were asked of the head of a station's queue, with the radio asked for its
/// dial first where the last reading is old, and it was left so.
pub open spec fn judged_to<P: Ptt>(
    m: Modem,
    radio: P,
    after: Modem,
    g: Gated,
    now: u64,
    phase: Phase,
    word: Seq<char>,
) -> bool {
    exists|can_tune: bool, f: FrequencyCache|
        asked_to(m, radio, true, can_tune, f) && after == gated(
            Modem { frequency: f, ..m },
            #[trigger] situation_in(m, can_tune, f),
            now,
            phase,
            word,
        ) && is_gated(Modem { frequency: f, ..m }, situation_in(m, can_tune, f), phase, g)
}

/// Whether an identifier would be judged as the head of a station's queue is rendered.
pub open spec fn asks_for_identifier(m: Modem, now: u64, made: Result<u64, Seq<char>>) -> bool {
    m.config.cw_id is Some && match m.pending[0] {
        Outgoing::Identifier => true,
        Outgoing::Audio(_, _, _) => false,
        Outgoing::Pause(_, _) => false,
        _ => id_due(m, now) && (made matches Ok(n) && n > 0),
    }
}

/// Whether a ceiling is the one the rules set in a situation.
pub open spec fn is_ceiling(m: Modem, s: Situation, phase: Phase, floors: Seq<bool>, c: (Option<usize>, Option<Ruling>)) -> bool {
    let direction = standing_direction(phase == Phase::Idle, m.session_direction, m.config.regulatory.control);
    m.occupancy matches Some(air) && {
        let n = first_refused(m.policy, s, air, floors, direction, 0);
        &&& c.0 == if n == 0 { None::<usize> } else { Some((n - 1) as usize) }
        &&& match c.1 {
            Some(d) => n < air.rungs@.len() && d == m.policy.ruling(s, rung_emission(air, floors, n, direction)),
            None => n == air.rungs@.len(),
        }
    }
}

/// Whether the ceiling is due to be worked out again.
pub open spec fn ceiling_due(m: Modem, force: bool) -> bool {
    force || match m.ceiling_at {
        Some(t) => m.now() - t >= CEILING_EVERY_US,
        None => true,
    }
}

/// Whether a station had its ceiling worked out in some situation it may be in, and this is what
/// the engine is told.
#[verifier::opaque]
pub open spec fn ceiling_found<P: Ptt>(
    m: Modem,
    radio: P,
    after: Modem,
    phase: Phase,
    floors: Seq<bool>,
    order: Option<Order>,
) -> bool {
    match m.occupancy {
        None => after == (Modem { ceiling_at: Some(m.now()), ceiling: None, ..m }) && order == Some(
            Order::SetCeiling(Some(0)),
        ),
        Some(_) => {
            &&& after == (Modem {
                ceiling_at: Some(m.now()),
                ceiling: after.ceiling,
                frequency: after.frequency,
                ..m
            })
            &&& after.ceiling matches Some(c) && order == Some(Order::SetCeiling(engine_ceiling(m.policy, c.0)))
                && exists|can_tune: bool|
                asked_to(m, radio, false, can_tune, after.frequency) && is_ceiling(
                    m,
                    #[trigger] situation_in(m, can_tune, after.frequency),
                    phase,
                    floors,
                    c,
                )
        },
    }
}

/// The profile in force, as the panel names it.
#[derive(PartialEq, Debug)]
pub struct InForce {
    /// Its identifier.
    pub id: String,
    /// Its name.
    pub name: String,
    /// The authority and the rules.
    pub authority: String,
    /// When the rules were read.
    pub rules_as_of: String,
    /// Where they are published.
    pub source: String,
    /// How bandwidth is read.
    pub reading: Reading,
}

/// Whether these are the facts of the profile a policy has in force.
pub open spec fn is_in_force(policy: Policy, x: Option<InForce>) -> bool {
    match policy {
        Policy::Rules(p) => x matches Some(f) && f.id@ == p.id@ && f.name@ == p.name@ && f.authority@ == p.authority@
            && f.rules_as_of@ == p.rules_as_of@ && f.source@ == p.source@ && f.reading == p.bandwidth.reading,
        _ => x is None,
    }
}

fn in_force(policy: &Policy) -> (r: Option<InForce>)
    ensures
        is_in_force(*policy, r),
{
    match policy {
        Policy::Rules(p) => Some(
            InForce {
                id: p.id.clone(),
                name: p.name.clone(),
                authority: p.authority.clone(),
                rules_as_of: p.rules_as_of.clone(),
                source: p.source.clone(),
                reading: p.bandwidth.reading,
            },
        ),
        _ => None,
    }
}

/// The ceiling on the link's rungs, as the panel shows it.
#[derive(PartialEq, Debug)]
pub struct CeilingStatus {
    /// The fastest rung allowed; `None` when none is.
    pub rung: Option<usize>,
    /// That rung's name.
    pub name: Option<String>,
    /// How many rungs the ladder has.
    pub of: usize,
    /// The refusal of the rung above it, when there is one.
    pub limit: Option<Decision>,
}

/// The regulatory gate's last decision.
#[derive(PartialEq, Debug)]
pub struct LastDecision {
    /// When it was made.
    pub t_us: u64,
    /// How long ago.
    pub age_us: u64,
    /// The decision.
    pub decision: Decision,
}

/// Where the station stands with the rules, with the ceiling on the link's rungs and what the
/// regulatory gate last decided.
#[derive(Debug)]
pub struct RegulatoryStatus {
    /// How the policy stands, in a word.
    pub policy: &'static str,
    /// The profile in force.
    pub profile: Option<InForce>,
    /// Why there is nothing to show, or why the profile could not be loaded.
    pub error: Option<String>,
    /// The situation, the indicator and the dials, where the air is measured.
    pub standing: Option<Standing>,
    /// The ceiling, where the air is measured.
    pub ceiling: Option<CeilingStatus>,
    /// The regulatory gate's last decision, where the air is measured.
    pub last: Option<LastDecision>,
}

/// Whether there is anything measured of the air a station runs.
pub open spec fn is_measured(m: Modem) -> bool {
    m.occupancy matches Some(air) && air.rungs@.len() > 0
}

/// What a station's status says is wrong.
pub open spec fn status_error(m: Modem) -> Option<Seq<char>> {
    if !is_measured(m) {
        Some("nothing is measured for this air"@)
    } else {
        match m.policy {
            Policy::Broken(e) => Some(e@),
            _ => None,
        }
    }
}

/// Whether this is how a station's status shows its ceiling.
pub open spec fn shows_ceiling(m: Modem, air: AirOccupancy, x: Option<CeilingStatus>) -> bool {
    match m.ceiling {
        Some(c) => x matches Some(s) && s.rung == c.0 && words_of(s.name) == rung_name(m, c.0) && s.of == air.rungs@.len()
            && match (c.1, s.limit) {
            (Some(d), Some(limit)) => limit@ == d,
            (None, None) => true,
            _ => false,
        },
        None => x is None,
    }
}

/// Whether this is how a station's status shows the last decision.
pub open spec fn shows_last(m: Modem, x: Option<LastDecision>) -> bool {
    match m.last_gate {
        Some((t, d)) => x matches Some(s) && s.t_us == t && s.age_us == (if m.now() > t { m.now() - t } else { 0 })
            && s.decision@ == d,
        None => x is None,
    }
}

/// Whether this is where a station stands with the rules in the situation it names.
pub open spec fn stands_so(m: Modem, air: AirOccupancy, floors: Seq<bool>, phase: Phase, x: Standing) -> bool {
    let top = top_of(air, m.config.max_mode);
    let direction = standing_direction(phase == Phase::Idle, m.session_direction, m.config.regulatory.control);
    let capped: Option<usize> = match m.ceiling {
        Some(c) => c.0,
        None => None,
    };
    &&& x.direction == direction
    &&& x.top == top
    &&& x.indicator@ == indicated(m.policy, x.situation, air, floors, top, direction, capped)
    &&& x.widest == ladder_edges(air, floors, top)
    &&& x.floor == ladder_edges(air, floors, 0)
    &&& dial_views(x.safe_widest@) == m.policy.lawful_dials(x.situation, x.widest, direction)
    &&& dial_views(x.safe_floor@) == m.policy.lawful_dials(x.situation, x.floor, direction)
}

/// Whether this is what the rules say of a query in the situation it names.
pub open spec fn answers(
    m: Modem,
    air: AirOccupancy,
    floors: Seq<bool>,
    phase: Phase,
    q: RegulatoryQuery,
    x: Answer,
) -> bool {
    let who = match q.direction {
        Some(d) => d,
        None => standing_direction(phase == Phase::Idle, m.session_direction, m.config.regulatory.control),
    };
    let top = top_of(
        air,
        match q.rung {
            Some(k) => k,
            None => m.config.max_mode,
        },
    );
    let n = first_refused(m.policy, x.situation, air, floors, who, 0);
    &&& x.decision@ == m.policy.ruling(x.situation, widest_emission(air, floors, top, who))
    &&& dial_views(x.safe_dials@) == m.policy.lawful_dials(x.situation, ladder_edges(air, floors, top), who)
    &&& x.ceiling.rung == if n == 0 { None::<usize> } else { Some((n - 1) as usize) }
    &&& match x.ceiling.limit {
        Some(d) => n < air.rungs@.len() && d@ == m.policy.ruling(x.situation, rung_emission(air, floors, n, who)),
        None => n == air.rungs@.len(),
    }
}

/// The name of a rung of the ladder a station runs.
pub open spec fn rung_name(m: Modem, rung: Option<usize>) -> Option<Seq<char>> {
    match (m.occupancy, rung) {
        (Some(air), Some(r)) => if r < air.rungs@.len() { Some(air.rungs@[r as int].name@) } else { None },
        _ => None,
    }
}

/// What the operator is told when the radio would not be tuned: the backend's own words, or the
/// error in a sentence.
pub open spec fn refusal_to_tune(e: PttError) -> Seq<char> {
    match e {
        PttError::Backend(message) => message@,
        other => other.words(),
    }
}

impl<P: Ptt> Station<P> {
    /// Start the next transmission, if the channel allows: the pauses that have run out are
    /// passed, what is held for a busy channel waits, and everything else is judged.
    pub fn start_pending(&mut self, now: u64, link: &Link, channel: Channel) -> (r: Started)
        requires
            old(self).wf(),
            now <= CLOCK_END_US,
        ensures
            final(self).wf(),
            final(self).radio() == old(self).radio() || (r is Judged && exists|b: &mut P, answer: Option<u64>|
                *b == old(self).radio() && *final(b) == final(self).radio() && #[trigger] call_ensures(
                    P::frequency_hz,
                    (b,),
                    answer,
                )),
            ({
                let q = past_pauses(old(self)@.pending, now);
                let m = Modem { pending: q, ..old(self)@ };
                if q.len() == 0 {
                    r is Empty && final(self)@ == m
                } else if q[0] is Pause {
                    r is Pausing && final(self)@ == m
                } else if holds(m, link.phase, channel) {
                    &&& final(self)@ == held_back(m, now)
                    &&& match old(self)@.held_since {
                        Some(since) => r == Started::Held(
                            Some(Order::TxDelayed(if now > since { (now - since) as u64 } else { 0 })),
                        ),
                        None => r == Started::Held(None),
                    }
                } else {
                    r matches Started::Judged(g) && judged_to(
                        Modem { held_since: None, ..m },
                        old(self).radio(),
                        final(self)@,
                        g,
                        now,
                        link.phase,
                        link.word@,
                    )
                }
            }),
    {
        if self.pass_pauses(now) {
            return Started::Pausing;
        }
        if self.waiting_to_go() == 0 {
            return Started::Empty;
        }
        let (held, order): (bool, Option<Order>) = self.held_for_busy(now, link.phase, channel);
        if held {
            return Started::Held(order);
        }
        Started::Judged(self.gate(now, link))
    }

    /// Take the transmission at the head of the queue (judged and allowed) and render it; the
    /// radio is asked for its dial where an identifier is judged with it.
    pub fn render_next(&mut self, made: Result<u64, String>, now: u64, morse: u64) -> (r: Option<Rendering>)
        requires
            old(self).wf(),
            old(self)@.pending.len() > 0,
            old(self)@.queued == 0,
        ensures
            final(self).wf(),
            final(self).radio() == old(self).radio() || exists|b: &mut P, answer: Option<u64>|
                *b == old(self).radio() && *final(b) == final(self).radio() && #[trigger] call_ensures(
                    P::frequency_hz,
                    (b,),
                    answer,
                ),
            ({
                let m = old(self)@;
                let tried = made_view(made);
                exists|s: Situation|
                    final(self)@ == #[trigger] rendered(
                        Modem { frequency: final(self)@.frequency, ..m },
                        tried,
                        now,
                        morse,
                        s,
                    ) && r == layout(m, tried, now, morse, s) && if asks_for_identifier(m, now, tried) {
                        exists|can_tune: bool|
                            asked_to(m, old(self).radio(), false, can_tune, final(self)@.frequency) && s == #[trigger] situation_in(
                                m,
                                can_tune,
                                final(self)@.frequency,
                            )
                    } else {
                        final(self)@.frequency == m.frequency && final(self).radio() == old(self).radio()
                    }
            }),
            match r {
                Some(x) => {
                    &&& final(self)@.queued == x.lead + x.burst + x.gap + x.morse + x.tail
                    &&& x.lead == lead_of(old(self)@.config)
                    &&& x.tail == tail_of(old(self)@.config)
                    &&& x.morse == 0 || x.morse == morse
                    &&& x.gap == (if x.morse > 0 { id_gap(old(self)@.config.audio_rate) } else { 0 })
                    &&& x.burst == (match old(self)@.pending[0] {
                        Outgoing::Audio(samples, _, _) => samples,
                        Outgoing::Identifier => 0,
                        _ => made.unwrap(),
                    })
                    &&& x.keep == (old(self)@.config.record_tx_audio && old(self)@.pending[0] !is Identifier)
                },
                None => final(self)@.queued == 0,
            },
            old(self)@.pending[0] !is Identifier ==> (r is Some <==> match old(self)@.pending[0] {
                Outgoing::Audio(_, _, _) => true,
                Outgoing::Pause(_, _) => false,
                _ => made matches Ok(n) && n > 0,
            }),
    {
        let ghost first = self@;
        let due: bool = self.id_due_by(now);
        let sized: bool = match &made {
            Ok(n) => *n > 0,
            Err(_) => false,
        };
        let ask: bool = self.config.cw_id.is_some() && match &self.pending[0] {
            Outgoing::Identifier => true,
            Outgoing::Audio(_, _, _) => false,
            Outgoing::Pause(_, _) => false,
            _ => due && sized,
        };
        let s: Situation = if ask {
            self.situation(false)
        } else {
            crate::station::gate::situation_from(
                &self.config.regulatory,
                self.config.operator.power_mw,
                false,
                self.frequency,
                now,
            )
        };
        let ghost mid = self@;
        let ghost tried = made_view(made);
        let r = self.render_in(made, now, morse, &s);
        proof {
            lemma_rendered_keys_alike(mid, tried, now, morse, s);
            lemma_layout_alike(first, mid, tried, now, morse, s);
            assert(self@ == rendered(mid, tried, now, morse, s));
        }
        r
    }

    /// Work out the regulatory ceiling on the link's rungs again: what the rules allow limits
    /// what link adaptation may choose. Now when `force`, otherwise at most every half second.
    /// Gives what the engine is told. `floors` says of each rung whether it is the tone floor's.
    pub fn refresh_ceiling(&mut self, force: bool, phase: Phase, floors: &Vec<bool>) -> (r: Option<Order>)
        requires
            old(self).wf(),
        ensures
            final(self).wf(),
            final(self).radio() == old(self).radio() || exists|b: &mut P, answer: Option<u64>|
                *b == old(self).radio() && *final(b) == final(self).radio() && #[trigger] call_ensures(
                    P::frequency_hz,
                    (b,),
                    answer,
                ),
            if ceiling_due(old(self)@, force) {
                ceiling_found(old(self)@, old(self).radio(), final(self)@, phase, floors@, r)
            } else {
                r is None && final(self)@ == old(self)@
            },
    {
        proof {
            reveal(ceiling_found);
        }
        let now: u64 = self.now();
        let due: bool = force || match self.ceiling_at {
            Some(t) => now >= t && now - t >= CEILING_EVERY_US,
            None => true,
        };
        if !due {
            return None;
        }
        let ghost first = self@;
        if self.occupancy.is_none() {
            self.ceiling_at = Some(now);
            self.ceiling = None;
            return Some(Order::SetCeiling(Some(0)));
        }
        let s = self.situation(false);
        let idle: bool = match phase {
            Phase::Idle => true,
            _ => false,
        };
        let direction: Direction = direction_now(idle, self.session_direction, self.config.regulatory.control);
        self.ceiling_at = Some(now);
        match &self.occupancy {
            None => None,
            Some(air) => {
                let c = self.policy.ceiling(&s, air, direction, floors);
                let rung: Option<usize> = ceiling_for_engine(&self.policy, &c);
                proof {
                    assert(is_ceiling(first, s, phase, floors@, ceiling_view(c)));
                }
                self.ceiling = Some(c);
                Some(Order::SetCeiling(rung))
            },
        }
    }

    /// New regulatory settings, from the next transmission on: the policy is loaded again when
    /// the profile changed, and the ceiling on the link's rungs is worked out again.
    pub fn set_regulatory(
        &mut self,
        settings: Settings,
        document: Result<Profile, String>,
        phase: Phase,
        floors: &Vec<bool>,
    ) -> (r: Option<Order>)
        requires
            old(self).wf(),
        ensures
            final(self).wf(),
            final(self).radio() == old(self).radio() || exists|b: &mut P, answer: Option<u64>|
                *b == old(self).radio() && *final(b) == final(self).radio() && #[trigger] call_ensures(
                    P::frequency_hz,
                    (b,),
                    answer,
                ),
            ({
                let m = Modem {
                    config: StationConfig { regulatory: settings, ..old(self)@.config },
                    policy: final(self)@.policy,
                    ..old(self)@
                };
                &&& if settings.profile@ == old(self)@.config.regulatory.profile@ {
                    m.policy == old(self)@.policy
                } else {
                    is_policy_named(m.policy, settings.profile@, document)
                }
                &&& ceiling_found(m, old(self).radio(), final(self)@, phase, floors@, r)
            }),
    {
        let ghost first = self@;
        self.adopt_rules(settings, document);
        let ghost mid = self@;
        let r = self.refresh_ceiling(true, phase, floors);
        proof {
            lemma_ceiling_keeps_the_rules(mid, old(self).radio(), self@, phase, floors@, r);
        }
        r
    }

    fn adopt_rules(&mut self, settings: Settings, document: Result<Profile, String>)
        requires
            old(self).wf(),
        ensures
            final(self).wf(),
            final(self).radio() == old(self).radio(),
            final(self)@ == (Modem {
                config: StationConfig { regulatory: settings, ..old(self)@.config },
                policy: final(self)@.policy,
                ..old(self)@
            }),
            if settings.profile@ == old(self)@.config.regulatory.profile@ {
                final(self)@.policy == old(self)@.policy
            } else {
                is_policy_named(final(self)@.policy, settings.profile@, document)
            },
    {
        if !same(&settings.profile, &self.config.regulatory.profile) {
            self.policy = Policy::from_setting(&settings.profile, document);
        }
        self.config.regulatory = settings;
    }

    /// Tune the radio, when the keying interface can ask it to. Refused during a session or
    /// while transmitting: the other station is on the frequency this one would leave. Gives
    /// what the engine is told of the ceiling there, or the reason, in a sentence for the
    /// operator.
    pub fn tune_to(&mut self, hz: u64, link: &Link, floors: &Vec<bool>) -> (r: Result<Option<Order>, String>)
        requires
            old(self).wf(),
        ensures
            final(self).wf(),
            if old(self)@.transmitting {
                (r matches Err(e) && e@ == "the transmitter is keyed"@) && final(self)@ == old(self)@
                    && final(self).radio() == old(self).radio()
            } else if link.phase != Phase::Idle {
                (r matches Err(e) && e@ == "a session is running"@) && final(self)@ == old(self)@ && final(self).radio()
                    == old(self).radio()
            } else {
                exists|b: &mut P, u: Result<(), PttError>|
                    {
                        &&& *b == old(self).radio()
                        &&& #[trigger] call_ensures(P::set_frequency_hz, (b, hz), u)
                        &&& match u {
                            Err(e) => {
                                &&& r matches Err(why) && why@ == refusal_to_tune(e)
                                &&& final(self)@ == old(self)@
                                &&& *final(b) == final(self).radio()
                            },
                            Ok(_) => {
                                &&& r matches Ok(order) && exists|mid: Modem|
                                    ceiling_found(
                                        Modem { frequency: old(self)@.frequency.tuned(old(self)@.now(), hz), ..old(self)@ },
                                        *final(b),
                                        mid,
                                        link.phase,
                                        floors@,
                                        order,
                                    ) && final(self)@ == #[trigger] noted_event(
                                        mid,
                                        "tune"@,
                                        "dial set to "@ + digits(hz as nat) + " Hz"@,
                                        link.word@,
                                    )
                                &&& final(self).radio() == *final(b) || exists|c: &mut P, answer: Option<u64>|
                                    *c == *final(b) && *final(c) == final(self).radio() && #[trigger] call_ensures(
                                        P::frequency_hz,
                                        (c,),
                                        answer,
                                    )
                            },
                        }
                    }
            },
    {
        if self.transmitting {
            return Err("the transmitter is keyed".to_owned());
        }
        match link.phase {
            Phase::Idle => {},
            _ => return Err("a session is running".to_owned()),
        }
        match self.ptt.inner_mut().set_frequency_hz(hz) {
            Ok(_) => {},
            Err(PttError::Backend(message)) => return Err(message),
            Err(other) => return Err(other.text()),
        }
        let now: u64 = self.now();
        self.frequency = self.frequency.tune(now, hz);
        let order = self.refresh_ceiling(true, link.phase, floors);
        let mut detail = cat("dial set to ", &whole(hz as u128));
        detail.append(" Hz");
        let ghost mid = self@;
        self.note("tune", &detail, &link.word);
        proof {
            assert(self@ == noted_event(mid, "tune"@, "dial set to "@ + digits(hz as nat) + " Hz"@, link.word@));
        }
        Ok(order)
    }

    /// Whether the rules let this station start an exchange now (a call, a probe or a beacon,
    /// whose first frame goes on the slowest rung that carries it), or the refusal.
    pub fn check_originate(&mut self, robust: usize) -> (r: Result<(), Box<Decision>>)
        requires
            old(self).wf(),
        ensures
            final(self).wf(),
            final(self).radio() == old(self).radio() || exists|b: &mut P, answer: Option<u64>|
                *b == old(self).radio() && *final(b) == final(self).radio() && #[trigger] call_ensures(
                    P::frequency_hz,
                    (b,),
                    answer,
                ),
            final(self)@ == (Modem { frequency: final(self)@.frequency, ..old(self)@ }),
            exists|can_tune: bool| {
                let s = #[trigger] situation_in(old(self)@, can_tune, final(self)@.frequency);
                let d = asked_ruling(
                    old(self)@.policy,
                    old(self)@.occupancy,
                    s,
                    Direction::Originate,
                    EmissionKind::Data,
                    Some(robust),
                    "a call, a probe or a beacon"@,
                );
                asked_to(old(self)@, old(self).radio(), true, can_tune, final(self)@.frequency) && match r {
                    Ok(_) => d.allows(),
                    Err(e) => !d.allows() && (*e)@ == d,
                }
            },
    {
        let s = self.situation(true);
        check(
            &self.policy,
            &self.occupancy,
            &s,
            Direction::Originate,
            EmissionKind::Data,
            Some(robust),
            "a call, a probe or a beacon",
        )
    }

    /// Whether the rules let an operator test the station now: a tune tone, a keying test or
    /// drive bursts at the fastest rung.
    pub fn check_operator(&mut self, kind: EmissionKind) -> (r: Result<(), Box<Decision>>)
        requires
            old(self).wf(),
        ensures
            final(self).wf(),
            final(self).radio() == old(self).radio() || exists|b: &mut P, answer: Option<u64>|
                *b == old(self).radio() && *final(b) == final(self).radio() && #[trigger] call_ensures(
                    P::frequency_hz,
                    (b,),
                    answer,
                ),
            final(self)@ == (Modem { frequency: final(self)@.frequency, ..old(self)@ }),
            exists|can_tune: bool| {
                let s = #[trigger] situation_in(old(self)@, can_tune, final(self)@.frequency);
                let test = operator_test(kind, old(self)@.config.max_mode);
                let d = asked_ruling(
                    old(self)@.policy,
                    old(self)@.occupancy,
                    s,
                    Direction::Operator,
                    kind,
                    test.0,
                    test.1,
                );
                asked_to(old(self)@, old(self).radio(), true, can_tune, final(self)@.frequency) && match r {
                    Ok(_) => d.allows(),
                    Err(e) => !d.allows() && (*e)@ == d,
                }
            },
    {
        let s = self.situation(true);
        let (rung, what): (Option<usize>, &'static str) = operator_test_of(kind, self.config.max_mode);
        check(&self.policy, &self.occupancy, &s, Direction::Operator, kind, rung, what)
    }

    /// Decisions to log and publish since the last call.
    pub fn take_regulatory_reports(&mut self) -> (r: Vec<Decision>)
        requires
            old(self).wf(),
        ensures
            final(self).wf(),
            final(self).radio() == old(self).radio(),
            ruling_views(r@) == old(self)@.decisions.reports,
            final(self)@ == (Modem { decisions: Logged { reports: Seq::empty(), ..old(self)@.decisions }, ..old(self)@ }),
    {
        self.decisions.take()
    }

    /// Where the station stands with the rules: the situation, what its widest transmission would
    /// be, the ceiling on the link's rungs, the regulatory gate's last decision and the dials where its
    /// waveforms fit. Where nothing is measured for its air, that is what it says.
    pub fn regulatory_status(&mut self, phase: Phase, floors: &Vec<bool>) -> (r: RegulatoryStatus)
        requires
            old(self).wf(),
        ensures
            final(self).wf(),
            final(self).radio() == old(self).radio() || exists|b: &mut P, answer: Option<u64>|
                *b == old(self).radio() && *final(b) == final(self).radio() && #[trigger] call_ensures(
                    P::frequency_hz,
                    (b,),
                    answer,
                ),
            final(self)@ == (Modem { frequency: final(self)@.frequency, ..old(self)@ }),
            r.policy@ == policy_word(old(self)@.policy),
            is_in_force(old(self)@.policy, r.profile),
            words_of(r.error) == status_error(old(self)@),
            exists|can_tune: bool| {
                let s = #[trigger] situation_in(old(self)@, can_tune, final(self)@.frequency);
                asked_to(old(self)@, old(self).radio(), false, can_tune, final(self)@.frequency) && match r.standing {
                    None => !is_measured(old(self)@) && r.ceiling is None && r.last is None,
                    Some(x) => {
                        &&& is_measured(old(self)@)
                        &&& x.situation == s
                        &&& stands_so(old(self)@, old(self)@.occupancy->0, floors@, phase, x)
                        &&& shows_ceiling(old(self)@, old(self)@.occupancy->0, r.ceiling)
                        &&& shows_last(old(self)@, r.last)
                    },
                }
            },
    {
        let now: u64 = self.now();
        let s = self.situation(false);
        let idle: bool = match phase {
            Phase::Idle => true,
            _ => false,
        };
        let direction: Direction = direction_now(idle, self.session_direction, self.config.regulatory.control);
        let policy: &'static str = policy_state(&self.policy);
        let profile = in_force(&self.policy);
        let found: Option<Standing> = match &self.occupancy {
            Some(air) => standing(&self.policy, &s, air, floors, self.config.max_mode, direction, &self.ceiling),
            None => None,
        };
        let standing = match found {
            Some(x) => x,
            None => {
                return RegulatoryStatus {
                    policy,
                    profile,
                    error: Some("nothing is measured for this air".to_owned()),
                    standing: None,
                    ceiling: None,
                    last: None,
                };
            },
        };
        let error: Option<String> = match &self.policy {
            Policy::Broken(e) => Some(e.clone()),
            _ => None,
        };
        let ceiling = self.ceiling_status();
        let last: Option<LastDecision> = match &self.last_gate {
            Some((t, d)) => Some(
                LastDecision { t_us: *t, age_us: if now > *t { now - *t } else { 0 }, decision: d.clone() },
            ),
            None => None,
        };
        RegulatoryStatus { policy, profile, error, standing: Some(standing), ceiling, last }
    }

    fn ceiling_status(&self) -> (r: Option<CeilingStatus>)
        requires
            self@.occupancy is Some,
        ensures
            shows_ceiling(self@, self@.occupancy->0, r),
    {
        match (&self.ceiling, &self.occupancy) {
            (Some(c), Some(air)) => Some(
                CeilingStatus {
                    rung: c.rung,
                    name: match c.rung {
                        Some(k) => if k < air.rungs.len() { Some(air.rungs[k].name.clone()) } else { None },
                        None => None,
                    },
                    of: air.rungs.len(),
                    limit: match &c.limit {
                        Some(d) => Some(d.clone()),
                        None => None,
                    },
                },
            ),
            _ => None,
        }
    }

    /// What the rules would say about a transmission with any of the station's facts replaced:
    /// the decision, the dials where it would fit, and the ceiling on the link. Nothing where
    /// nothing is measured for its air.
    pub fn regulatory_check(&mut self, q: &RegulatoryQuery, phase: Phase, floors: &Vec<bool>) -> (r: Option<Answer>)
        requires
            old(self).wf(),
        ensures
            final(self).wf(),
            final(self).radio() == old(self).radio() || exists|b: &mut P, answer: Option<u64>|
                *b == old(self).radio() && *final(b) == final(self).radio() && #[trigger] call_ensures(
                    P::frequency_hz,
                    (b,),
                    answer,
                ),
            final(self)@ == (Modem { frequency: final(self)@.frequency, ..old(self)@ }),
            ({
                let m = old(self)@;
                match r {
                    None => m.occupancy is None || (m.occupancy matches Some(air) && air.rungs@.len() == 0),
                    Some(x) => {
                        &&& m.occupancy matches Some(air) && air.rungs@.len() > 0 && answers(m, air, floors@, phase, *q, x)
                        &&& exists|can_tune: bool|
                            asked_to(m, old(self).radio(), false, can_tune, final(self)@.frequency) && x.situation == supposed(
                                #[trigger] situation_in(m, can_tune, final(self)@.frequency),
                                *q,
                            )
                    },
                }
            }),
    {
        let s = self.situation(false);
        let idle: bool = match phase {
            Phase::Idle => true,
            _ => false,
        };
        let direction: Direction = direction_now(idle, self.session_direction, self.config.regulatory.control);
        match &self.occupancy {
            Some(air) => answer(&self.policy, &s, air, floors, self.config.max_mode, direction, q),
            None => None,
        }
    }

    /// The profile in force.
    pub fn regulatory_profile(&self) -> (r: Option<&Profile>)
        ensures
            r == match self@.policy {
                Policy::Rules(profile) => Some(&*profile),
                _ => None,
            },
    {
        self.policy.profile()
    }
}

proof fn lemma_ceiling_keeps_the_rules<P: Ptt>(
    m: Modem,
    radio: P,
    after: Modem,
    phase: Phase,
    floors: Seq<bool>,
    order: Option<Order>,
)
    requires
        ceiling_found(m, radio, after, phase, floors, order),
    ensures
        after.policy == m.policy,
        after.config == m.config,
{
    reveal(ceiling_found);
}

} // verus!
