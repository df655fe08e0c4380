//! Judging a transmission against an administration's rules.
use vstd::prelude::*;

use crate::regulatory::occupancy::{Millihertz, Reading};
use crate::regulatory::profile::{
    Channel, Channels, Excluded, PlanArea, PowerLimit, Privilege, Profile, Range, Segment,
};
use crate::regulatory::{
    channel_range, channel_span, on_air, privileges_for, privileges_of, rf_range, text_of_option, ControlMode,
    Decision, Direction, Emission, EmissionKind, LicenseClass, Ruling, Sideband, Situation, Transmission,
    Verdict,
};
use crate::text::{
    cat, decimal_text, digits, holds_text, join, joined, milli_fixed, milli_fixed_text, names, plain_decimal,
    round_text, rounded, same, tenths, tenths_text, to_upper, uppercase, views, whole,
};

verus! {

/// A decision being made: the facts, before the verdict.
pub struct Draft {
    what: String,
    kind: EmissionKind,
    direction: Direction,
    s: Situation,
    audio: (Millihertz, Millihertz),
    rf: Option<(i128, i128)>,
    band: Option<String>,
    segment: Option<(Range, String)>,
    automatic_segment: Option<Range>,
    notes: Vec<String>,
}

/// What a decision being made is.
pub struct Sketch {
    pub what: Seq<char>,
    pub kind: EmissionKind,
    pub direction: Direction,
    pub s: Situation,
    pub audio: (int, int),
    pub rf: Option<(int, int)>,
    pub band: Option<Seq<char>>,
    pub segment: Option<(Range, Seq<char>)>,
    pub automatic_segment: Option<Range>,
    pub notes: Seq<Seq<char>>,
}

/// The facts of a transmission in a situation, before any rule is looked at.
pub open spec fn sketch(s: Situation, tx: Emission, reading: Reading) -> Sketch {
    let audio = tx.audio.under(reading);
    Sketch {
        what: tx.what,
        kind: tx.kind,
        direction: tx.direction,
        s,
        audio,
        rf: match (s.dial, s.sideband) {
            (Some(dial), Some(sideband)) => Some(on_air(dial as int, sideband, audio)),
            _ => None,
        },
        band: None,
        segment: None,
        automatic_segment: None,
        notes: Seq::empty(),
    }
}

impl Sketch {
    /// How wide the transmission is.
    pub open spec fn width(self) -> int {
        self.audio.1 - self.audio.0
    }

    /// The decision these facts and a verdict make.
    pub open spec fn close(
        self,
        verdict: Verdict,
        code: Seq<char>,
        rule: Seq<char>,
        summary: Seq<char>,
        detail: Seq<char>,
    ) -> Ruling {
        Ruling {
            verdict,
            code,
            rule,
            summary,
            detail,
            what: self.what,
            kind: self.kind,
            direction: self.direction,
            dial: self.s.dial,
            dial_source: self.s.dial_source,
            sideband: self.s.sideband,
            control: self.s.control,
            license: self.s.license,
            audio: self.audio,
            rf: self.rf,
            bandwidth: self.width(),
            margin: self.s.margin,
            band: self.band,
            segment: match self.segment {
                Some(s) => Some(s.0),
                None => None,
            },
            segment_rule: match self.segment {
                Some(s) => Some(s.1),
                None => None,
            },
            automatic_segment: self.automatic_segment,
            guidance: None,
            notes: self.notes,
        }
    }

    /// The same facts, judged against a segment.
    pub open spec fn on_segment(self, range: Range, rule: Seq<char>) -> Sketch {
        Sketch { segment: Some((range, rule)), ..self }
    }
}

impl View for Draft {
    type V = Sketch;

    closed spec fn view(&self) -> Sketch {
        Sketch {
            what: self.what@,
            kind: self.kind,
            direction: self.direction,
            s: self.s,
            audio: (self.audio.0 as int, self.audio.1 as int),
            rf: match self.rf {
                Some(rf) => Some((rf.0 as int, rf.1 as int)),
                None => None,
            },
            band: text_of_option(self.band),
            segment: match self.segment {
                Some(s) => Some((s.0, s.1@)),
                None => None,
            },
            automatic_segment: self.automatic_segment,
            notes: views(self.notes@),
        }
    }
}

impl Draft {
    /// The facts of a transmission in a situation.
    pub fn new(s: &Situation, tx: &Transmission, reading: Reading) -> (r: Draft)
        ensures
            r@ == sketch(*s, tx@, reading),
    {
        let audio: (i64, i64) = tx.audio.range(reading);
        let rf: Option<(i128, i128)> = match (s.dial, s.sideband) {
            (Some(dial), Some(sideband)) => Some(rf_range(dial, sideband, audio.0, audio.1)),
            _ => None,
        };
        let r = Draft {
            what: tx.what.clone(),
            kind: tx.kind,
            direction: tx.direction,
            s: *s,
            audio,
            rf,
            band: None,
            segment: None,
            automatic_segment: None,
            notes: Vec::new(),
        };
        proof {
            assert(views(r.notes@) =~= Seq::empty());
        }
        r
    }

    fn width(&self) -> (r: i128)
        ensures
            r == self@.width(),
            -100_000_000_000_000_000_000 < r < 100_000_000_000_000_000_000,
    {
        self.audio.1 as i128 - self.audio.0 as i128
    }

    /// The decision these facts and a verdict make.
    pub fn finish(self, verdict: Verdict, code: &'static str, rule: &str, summary: &str, detail: &str) -> (r: Decision)
        ensures
            r@ == self@.close(verdict, code@, rule@, summary@, detail@),
    {
        let (rf_low, rf_high): (Option<i128>, Option<i128>) = match self.rf {
            Some(rf) => (Some(rf.0), Some(rf.1)),
            None => (None, None),
        };
        let bandwidth: i128 = self.audio.1 as i128 - self.audio.0 as i128;
        let (segment, segment_rule) = match self.segment {
            Some((range, rule)) => (Some(range), Some(rule)),
            None => (None, None),
        };
        Decision {
            verdict,
            code,
            rule: rule.to_owned(),
            summary: summary.to_owned(),
            detail: detail.to_owned(),
            what: self.what,
            kind: self.kind,
            direction: self.direction,
            dial: self.s.dial,
            dial_source: self.s.dial_source,
            sideband: self.s.sideband,
            control: self.s.control,
            license: self.s.license,
            audio_low: self.audio.0,
            audio_high: self.audio.1,
            rf_low,
            rf_high,
            bandwidth,
            margin: self.s.margin,
            band: self.band,
            segment,
            segment_rule,
            automatic_segment: self.automatic_segment,
            guidance: None,
            notes: self.notes,
        }
    }

    fn blocked(self, code: &'static str, rule: &str, summary: &str, detail: &str) -> (r: Decision)
        ensures
            r@ == self@.close(Verdict::Blocked, code@, rule@, summary@, detail@),
    {
        self.finish(Verdict::Blocked, code, rule, summary, detail)
    }

    fn legal(self, code: &'static str, rule: &str, summary: &str, detail: &str) -> (r: Decision)
        ensures
            r@ == self@.close(Verdict::Legal, code@, rule@, summary@, detail@),
    {
        self.finish(Verdict::Legal, code, rule, summary, detail)
    }

    fn set_segment(&mut self, range: Range, rule: &String)
        ensures
            final(self)@ == old(self)@.on_segment(range, rule@),
    {
        self.segment = Some((range, rule.clone()));
    }
}

/// A frequency for a sentence: kilohertz with three decimals.
pub open spec fn at_khz(f: int) -> Seq<char> {
    milli_fixed(f) + " kHz"@
}

fn at(f: i128) -> (r: String)
    ensures
        r@ == at_khz(f as int),
{
    cat(&milli_fixed_text(f), " kHz")
}

/// The facts every judgement works from, once all of them are known.
pub struct Facts {
    pub control: ControlMode,
    pub license: LicenseClass,
    pub sideband: Sideband,
    /// The dial.
    pub dial: int,
    /// The RF edges of the transmission.
    pub lo: int,
    pub hi: int,
    /// The same edges widened by the margin: what has to fit.
    pub glo: int,
    pub ghi: int,
    /// Whether §97.221 applies: an automatically controlled station, not an operator's test.
    pub automatic: bool,
    /// Where every reasoning starts.
    pub rf_text: Seq<char>,
}

/// The facts every judgement works from.
struct Case {
    control: ControlMode,
    license: LicenseClass,
    sideband: Sideband,
    dial: i64,
    lo: i128,
    hi: i128,
    glo: i128,
    ghi: i128,
    automatic: bool,
    rf_text: String,
}

impl Case {
    spec fn facts(self) -> Facts {
        Facts {
            control: self.control,
            license: self.license,
            sideband: self.sideband,
            dial: self.dial as int,
            lo: self.lo as int,
            hi: self.hi as int,
            glo: self.glo as int,
            ghi: self.ghi as int,
            automatic: self.automatic,
            rf_text: self.rf_text@,
        }
    }

    /// Sums of a few frequencies: nowhere near what the numbers can hold.
    spec fn small(self) -> bool {
        &&& -100_000_000_000_000_000_000 < self.lo < 100_000_000_000_000_000_000
        &&& -100_000_000_000_000_000_000 < self.hi < 100_000_000_000_000_000_000
        &&& -100_000_000_000_000_000_000 < self.glo < 100_000_000_000_000_000_000
        &&& -100_000_000_000_000_000_000 < self.ghi < 100_000_000_000_000_000_000
    }
}

/// "… occupies … on the air with the dial at …".
pub open spec fn where_it_lands(d: Sketch, lo: int, hi: int, dial: int, sideband: Sideband) -> Seq<char> {
    d.what + " occupies "@ + rounded(d.width()) + " Hz of audio ("@ + rounded(d.audio.0) + "–"@ + rounded(d.audio.1)
        + " Hz), so "@ + at_khz(lo) + "–"@ + at_khz(hi) + " on the air with the dial at "@ + at_khz(dial) + " ("@
        + uppercase(sideband.word()) + ")"@
}

/// A refusal before any rule is reached: something the question needs is not known.
pub struct Lack {
    pub code: Seq<char>,
    pub rule: Seq<char>,
    pub summary: Seq<char>,
    pub detail: Seq<char>,
}

struct Missing {
    code: &'static str,
    rule: &'static str,
    summary: &'static str,
    detail: String,
}

impl Missing {
    spec fn lack(self) -> Lack {
        Lack { code: self.code@, rule: self.rule@, summary: self.summary@, detail: self.detail@ }
    }
}

/// What the question needs, first: nothing is guessed.
pub open spec fn needs(profile: Profile, s: Situation, tx: Emission, d: Sketch) -> Result<Facts, Lack> {
    if s.itu_region != profile.itu_region {
        Err(
            Lack {
                code: "region"@,
                rule: "§97.301"@,
                summary: "TX BLOCKED: this profile does not cover your ITU region"@,
                detail: "The "@ + profile.name@ + " tables cover ITU Region "@ + digits(profile.itu_region as nat)
                    + " only; this station is set to Region "@ + digits(s.itu_region as nat) + "."@,
            },
        )
    } else if s.control is None {
        Err(
            Lack {
                code: "no_control"@,
                rule: "§97.109"@,
                summary: "TX BLOCKED: say how the station is controlled (Setup, step 1)"@,
                detail: "Local, remote or automatic control decides which rules apply (§97.109); Aether does not guess it."@,
            },
        )
    } else if s.license is None {
        Err(
            Lack {
                code: "no_license"@,
                rule: "§97.301"@,
                summary: "TX BLOCKED: set your license class (Setup, step 1)"@,
                detail: "The frequencies a station may use depend on the control operator's license class (§97.301); Aether does not assume one."@,
            },
        )
    } else if s.sideband is None {
        Err(
            Lack {
                code: "no_sideband"@,
                rule: ""@,
                summary: "TX BLOCKED: set the sideband the radio transmits on"@,
                detail: "Where the signal lands depends on whether the radio sends the modem's audio on the upper or the lower sideband."@,
            },
        )
    } else if s.dial is None {
        Err(
            Lack {
                code: "no_dial"@,
                rule: ""@,
                summary: "TX BLOCKED: the dial frequency is not known"@,
                detail: "Aether needs the radio's dial frequency to know where the signal lands. CAT or rigctld keying reads it from the radio; with serial-line keying, enter it on the Session tab (Dial)."@,
            },
        )
    } else {
        let control = s.control->0;
        let sideband = s.sideband->0;
        let dial = s.dial->0 as int;
        let rf = on_air(dial, sideband, d.audio);
        Ok(
            Facts {
                control,
                license: s.license->0,
                sideband,
                dial,
                lo: rf.0,
                hi: rf.1,
                glo: rf.0 - s.margin,
                ghi: rf.1 + s.margin,
                automatic: control == ControlMode::Automatic && tx.direction != Direction::Operator,
                rf_text: where_it_lands(d, rf.0, rf.1, dial, sideband),
            },
        )
    }
}

fn prerequisites(profile: &Profile, s: &Situation, tx: &Transmission, d: &Draft) -> (r: Result<Case, Missing>)
    requires
        d@ == sketch(*s, tx@, profile.bandwidth.reading),
    ensures
        match r {
            Ok(c) => needs(*profile, *s, tx@, d@) == Ok::<Facts, Lack>(c.facts()) && c.small(),
            Err(m) => needs(*profile, *s, tx@, d@) == Err::<Facts, Lack>(m.lack()),
        },
{
    if s.itu_region != profile.itu_region {
        let mut detail = cat("The ", &profile.name);
        detail.append(" tables cover ITU Region ");
        detail.append(&whole(profile.itu_region as u128));
        detail.append(" only; this station is set to Region ");
        detail.append(&whole(s.itu_region as u128));
        detail.append(".");
        return Err(
            Missing {
                code: "region",
                rule: "§97.301",
                summary: "TX BLOCKED: this profile does not cover your ITU region",
                detail,
            },
        );
    }
    let control: ControlMode = match s.control {
        Some(control) => control,
        None => {
            return Err(
                Missing {
                    code: "no_control",
                    rule: "§97.109",
                    summary: "TX BLOCKED: say how the station is controlled (Setup, step 1)",
                    detail: "Local, remote or automatic control decides which rules apply (§97.109); Aether does not guess it.".to_owned(),
                },
            );
        },
    };
    let license: LicenseClass = match s.license {
        Some(license) => license,
        None => {
            return Err(
                Missing {
                    code: "no_license",
                    rule: "§97.301",
                    summary: "TX BLOCKED: set your license class (Setup, step 1)",
                    detail: "The frequencies a station may use depend on the control operator's license class (§97.301); Aether does not assume one.".to_owned(),
                },
            );
        },
    };
    let sideband: Sideband = match s.sideband {
        Some(sideband) => sideband,
        None => {
            return Err(
                Missing {
                    code: "no_sideband",
                    rule: "",
                    summary: "TX BLOCKED: set the sideband the radio transmits on",
                    detail: "Where the signal lands depends on whether the radio sends the modem's audio on the upper or the lower sideband.".to_owned(),
                },
            );
        },
    };
    let dial: i64 = match s.dial {
        Some(dial) => dial,
        None => {
            return Err(
                Missing {
                    code: "no_dial",
                    rule: "",
                    summary: "TX BLOCKED: the dial frequency is not known",
                    detail: "Aether needs the radio's dial frequency to know where the signal lands. CAT or rigctld keying reads it from the radio; with serial-line keying, enter it on the Session tab (Dial).".to_owned(),
                },
            );
        },
    };
    let (lo, hi): (i128, i128) = rf_range(dial, sideband, d.audio.0, d.audio.1);
    let mut rf_text = d.what.clone();
    rf_text.append(" occupies ");
    rf_text.append(&round_text(d.width()));
    rf_text.append(" Hz of audio (");
    rf_text.append(&round_text(d.audio.0 as i128));
    rf_text.append("–");
    rf_text.append(&round_text(d.audio.1 as i128));
    rf_text.append(" Hz), so ");
    rf_text.append(&at(lo));
    rf_text.append("–");
    rf_text.append(&at(hi));
    rf_text.append(" on the air with the dial at ");
    rf_text.append(&at(dial as i128));
    rf_text.append(" (");
    rf_text.append(&to_upper(sideband.name()));
    rf_text.append(")");
    Ok(
        Case {
            control,
            license,
            sideband,
            dial,
            lo,
            hi,
            glo: lo - s.margin as i128,
            ghi: hi + s.margin as i128,
            automatic: control == ControlMode::Automatic && tx.direction != Direction::Operator,
            rf_text,
        },
    )
}

/// The first band where automatic control is not allowed, from `from` on, that has a name.
pub open spec fn first_excluded(s: Seq<Excluded>, band: Seq<char>, from: nat) -> nat
    decreases s.len() - from,
{
    if from >= s.len() || s[from as int].band@ == band {
        from
    } else {
        first_excluded(s, band, from + 1)
    }
}

fn find_excluded(s: &Vec<Excluded>, band: &str) -> (r: usize)
    ensures
        r <= s.len(),
        r as nat == first_excluded(s@, band@, 0),
{
    let mut i: usize = 0;
    while i < s.len() && !same(&s[i].band, band)
        invariant
            i <= s.len(),
            first_excluded(s@, band@, 0) == first_excluded(s@, band@, i as nat),
        decreases s.len() - i,
    {
        i += 1;
    }
    i
}

/// What the rules of a profile say of a transmission.
#[verifier::opaque]
pub open spec fn rules_ruling(profile: Profile, s: Situation, tx: Emission, d: Sketch) -> Ruling {
    match needs(profile, s, tx, d) {
        Err(lack) => d.close(Verdict::Blocked, lack.code, lack.rule, lack.summary, lack.detail),
        Ok(c) => match profile.band_of(c.glo, c.ghi) {
            None => d.close(
                Verdict::Blocked,
                "out_of_band"@,
                "§97.301"@,
                "TX BLOCKED: the signal is outside the amateur bands"@,
                match profile.band_near(c.glo, c.ghi) {
                    Some(band) => c.rf_text + ": it crosses the edge of the "@ + band.name@ + " band ("@
                        + band.range.in_khz() + "), counting "@ + rounded(s.margin as int) + " Hz of margin."@,
                    None => c.rf_text + ": outside the amateur bands this profile covers."@,
                },
            ),
            Some(band) => {
                let d = Sketch { band: Some(band.name@), ..d };
                let x = first_excluded(profile.automatic.excluded_bands@, band.name@, 0);
                if c.automatic && x < profile.automatic.excluded_bands@.len() {
                    let excluded = profile.automatic.excluded_bands@[x as int];
                    d.close(
                        Verdict::Blocked,
                        "automatic_excluded"@,
                        excluded.rule@,
                        "TX BLOCKED: no automatic operation on "@ + band.name@,
                        excluded.why@,
                    )
                } else if profile.channels is Some && profile.channels->0.band@ == band.name@ {
                    sixty_ruling(profile, s, tx, c, profile.channels->0, d)
                } else if tx.kind == EmissionKind::Data {
                    data_ruling(profile, s, tx, c, band.name@, d)
                } else {
                    other_ruling(profile, tx, c, d)
                }
            },
        },
    }
}

/// Judge a transmission against an administration's rules.
pub fn evaluate(profile: &Profile, s: &Situation, tx: &Transmission, d: Draft) -> (r: Decision)
    requires
        d@ == sketch(*s, tx@, profile.bandwidth.reading),
    ensures
        r@ == rules_ruling(*profile, *s, tx@, d@),
{
    proof {
        reveal(rules_ruling);
    }
    let c = match prerequisites(profile, s, tx, &d) {
        Ok(c) => c,
        Err(missing) => return d.blocked(missing.code, missing.rule, missing.summary, &missing.detail),
    };
    let band = match profile.band_holding(c.glo, c.ghi) {
        Some(band) => band,
        None => {
            let mut detail = c.rf_text.clone();
            match profile.band_touching(c.glo, c.ghi) {
                Some(band) => {
                    detail.append(": it crosses the edge of the ");
                    detail.append(&band.name);
                    detail.append(" band (");
                    detail.append(&band.range.khz());
                    detail.append("), counting ");
                    detail.append(&round_text(s.margin as i128));
                    detail.append(" Hz of margin.");
                },
                None => {
                    detail.append(": outside the amateur bands this profile covers.");
                },
            }
            return d.blocked("out_of_band", "§97.301", "TX BLOCKED: the signal is outside the amateur bands", &detail);
        },
    };
    let mut d = d;
    d.band = Some(band.name.clone());
    if c.automatic {
        let x: usize = find_excluded(&profile.automatic.excluded_bands, &band.name);
        if x < profile.automatic.excluded_bands.len() {
            let summary = cat("TX BLOCKED: no automatic operation on ", &band.name);
            let excluded = &profile.automatic.excluded_bands[x];
            return d.blocked("automatic_excluded", &excluded.rule, &summary, &excluded.why);
        }
    }
    // 60 m: channels and a segment, its own emissions
    if let Some(channels) = &profile.channels {
        if same(&channels.band, &band.name) {
            return sixty(profile, s, tx, &c, channels, d);
        }
    }
    match tx.kind {
        EmissionKind::Data => judge_data(profile, s, tx, &c, &band.name, d),
        EmissionKind::Cw | EmissionKind::Test | EmissionKind::Nothing => judge_other(profile, tx, &c, d),
    }
}

/// The first segment, from `from` on, that holds `low..=high`.
pub open spec fn first_segment(s: Seq<Segment>, low: int, high: int, from: nat) -> nat
    decreases s.len() - from,
{
    if from >= s.len() || s[from as int].range.keeps(low, high) {
        from
    } else {
        first_segment(s, low, high, from + 1)
    }
}

fn find_segment(s: &Vec<Segment>, low: i128, high: i128) -> (r: usize)
    ensures
        r <= s.len(),
        r as nat == first_segment(s@, low as int, high as int, 0),
{
    let mut i: usize = 0;
    while i < s.len() && !s[i].range.holds(low, high)
        invariant
            i <= s.len(),
            first_segment(s@, low as int, high as int, 0) == first_segment(s@, low as int, high as int, i as nat),
        decreases s.len() - i,
    {
        i += 1;
    }
    i
}

/// How a permitted transmission's control is put in a sentence.
pub open spec fn control_words(control: ControlMode) -> Seq<char> {
    match control {
        ControlMode::Local => "local control"@,
        ControlMode::Remote => "remote control"@,
        ControlMode::Automatic => "an operator at the control point"@,
    }
}

/// What is said of a data emission off 60 m: no wider than its limit, inside a data segment
/// and the operator's privileges, and, for an automatically controlled station, where §97.221
/// allows.
pub open spec fn data_ruling(profile: Profile, s: Situation, tx: Emission, c: Facts, band: Seq<char>, d: Sketch) -> Ruling {
    let width = d.width();
    let n = first_segment(profile.data_segments@, c.glo, c.ghi, 0);
    let (limit, limit_rule) = if n < profile.data_segments@.len() {
        profile.data_segments@[n as int].limit(profile.data)
    } else {
        (profile.data.max_bandwidth, profile.data.rule@)
    };
    if width > limit {
        d.close(
            Verdict::Blocked,
            "too_wide"@,
            limit_rule,
            "TX BLOCKED: the signal is wider than "@ + tenths(limit as int, 100_000) + " kHz"@,
            c.rf_text + ": "@ + rounded(width) + " Hz is wider than the "@ + rounded(limit as int)
                + " Hz a RTTY or data emission may occupy."@,
        )
    } else if n >= profile.data_segments@.len() {
        outside_ruling(profile, d, c.lo, c.hi, s.margin as int, c.rf_text)
    } else {
        let segment = profile.data_segments@[n as int];
        let d = d.on_segment(segment.range, segment.rule@);
        match refusal(privileges_for(profile, c.license), c.license, c.glo, c.ghi, "data"@, c.rf_text) {
            Some(no) => d.close(Verdict::Blocked, "privilege"@, no.0, no.1, no.2),
            None => if c.automatic {
                automatic_ruling(profile, s, tx, d, c, segment)
            } else {
                advised(
                    profile,
                    s,
                    c.license,
                    d.close(
                        Verdict::Legal,
                        "permitted"@,
                        segment.rule@,
                        "FCC: data permitted — "@ + rounded(width) + " Hz fits the "@ + band + " data segment"@,
                        c.rf_text + ": inside the "@ + band + " data segment "@ + segment.range.in_khz() + " ("@
                            + segment.rule@ + "), within "@ + c.license.heading() + " privileges, under "@
                            + control_words(c.control) + "."@,
                    ),
                    c.lo,
                    c.hi,
                )
            },
        }
    }
}

fn judge_data(profile: &Profile, s: &Situation, tx: &Transmission, c: &Case, band: &str, d: Draft) -> (r: Decision)
    requires
        c.small(),
    ensures
        r@ == data_ruling(*profile, *s, tx@, c.facts(), band@, d@),
{
    let width: i128 = d.width();
    let n: usize = find_segment(&profile.data_segments, c.glo, c.ghi);
    let (limit, limit_rule): (i64, &str) = if n < profile.data_segments.len() {
        profile.data_segments[n].data_limit(&profile.data)
    } else {
        (profile.data.max_bandwidth, profile.data.rule.as_str())
    };
    if width > limit as i128 {
        let mut detail = c.rf_text.clone();
        detail.append(": ");
        detail.append(&round_text(width));
        detail.append(" Hz is wider than the ");
        detail.append(&round_text(limit as i128));
        detail.append(" Hz a RTTY or data emission may occupy.");
        let mut summary = cat("TX BLOCKED: the signal is wider than ", &tenths_text(limit as i128, 100_000));
        summary.append(" kHz");
        return d.blocked("too_wide", limit_rule, &summary, &detail);
    }
    if n >= profile.data_segments.len() {
        return outside_segment(profile, d, c.lo, c.hi, s.margin, &c.rf_text);
    }
    let segment = &profile.data_segments[n];
    let mut d = d;
    d.set_segment(segment.range, &segment.rule);
    match privilege_refusal(privileges_of(profile, c.license), c.license, c.glo, c.ghi, "data", &c.rf_text) {
        Some((rule, summary, detail)) => return d.blocked("privilege", rule, summary, &detail),
        None => {},
    }
    if c.automatic {
        return automatic_data(profile, s, tx, d, c, segment);
    }
    let control_word: &str = match c.control {
        ControlMode::Local => "local control",
        ControlMode::Remote => "remote control",
        ControlMode::Automatic => "an operator at the control point",
    };
    let mut summary = cat("FCC: data permitted — ", &round_text(width));
    summary.append(" Hz fits the ");
    summary.append(band);
    summary.append(" data segment");
    let mut detail = c.rf_text.clone();
    detail.append(": inside the ");
    detail.append(band);
    detail.append(" data segment ");
    detail.append(&segment.range.khz());
    detail.append(" (");
    detail.append(&segment.rule);
    detail.append("), within ");
    detail.append(c.license.title());
    detail.append(" privileges, under ");
    detail.append(control_word);
    detail.append(".");
    let decision = d.legal("permitted", &segment.rule, &summary, &detail);
    advise(profile, s, c.license, decision, c.lo, c.hi)
}

/// What is said of a Morse identification, a tune tone, or a keying with no audio: permitted
/// wherever the operator's privileges allow that emission (§97.305(a), (b)).
pub open spec fn other_ruling(profile: Profile, tx: Emission, c: Facts, d: Sketch) -> Ruling {
    let list = privileges_for(profile, c.license);
    let keyed_outside = tx.kind == EmissionKind::Nothing && first_privilege(list, c.dial, c.dial, 0) >= list.len();
    let no = if tx.kind == EmissionKind::Nothing {
        None
    } else {
        refusal(list, c.license, c.glo, c.ghi, if tx.kind == EmissionKind::Cw { "cw"@ } else { "test"@ }, c.rf_text)
    };
    if keyed_outside {
        d.close(
            Verdict::Blocked,
            "privilege"@,
            profile.privileges.rule@,
            "TX BLOCKED: the dial is outside your privileges"@,
            "The dial, "@ + at_khz(c.dial) + ", is outside the "@ + c.license.heading()
                + " privileges: the transmitter is not keyed there, even with no audio."@,
        )
    } else if no is Some {
        d.close(Verdict::Blocked, "privilege"@, (no->0).0, (no->0).1, (no->0).2)
    } else {
        let (rule, summary) = match tx.kind {
            EmissionKind::Cw => ("§97.305(a)"@, "FCC: CW permitted anywhere in your privileges"@),
            EmissionKind::Test => ("§97.305(b)"@, "FCC: a brief test emission, permitted in your privileges"@),
            _ => ("§97.301"@, "FCC: keying only — no emission"@),
        };
        d.close(
            Verdict::Legal,
            "permitted"@,
            rule,
            summary,
            c.rf_text + ": within "@ + c.license.heading() + " privileges ("@ + rule + ")."@,
        )
    }
}

fn judge_other(profile: &Profile, tx: &Transmission, c: &Case, d: Draft) -> (r: Decision)
    requires
        c.small(),
    ensures
        r@ == other_ruling(*profile, tx@, c.facts(), d@),
{
    let privileges = privileges_of(profile, c.license);
    if tx.kind == EmissionKind::Nothing {
        if find_privilege(privileges, c.dial as i128, c.dial as i128) >= privileges.len() {
            let mut detail = cat("The dial, ", &at(c.dial as i128));
            detail.append(", is outside the ");
            detail.append(c.license.title());
            detail.append(" privileges: the transmitter is not keyed there, even with no audio.");
            return d.blocked(
                "privilege",
                &profile.privileges.rule,
                "TX BLOCKED: the dial is outside your privileges",
                &detail,
            );
        }
    } else {
        let emission: &str = if tx.kind == EmissionKind::Cw { "cw" } else { "test" };
        match privilege_refusal(privileges, c.license, c.glo, c.ghi, emission, &c.rf_text) {
            Some((rule, summary, detail)) => return d.blocked("privilege", rule, summary, &detail),
            None => {},
        }
    }
    let (rule, summary): (&str, &str) = match tx.kind {
        EmissionKind::Cw => ("§97.305(a)", "FCC: CW permitted anywhere in your privileges"),
        EmissionKind::Test => ("§97.305(b)", "FCC: a brief test emission, permitted in your privileges"),
        _ => ("§97.301", "FCC: keying only — no emission"),
    };
    let mut detail = c.rf_text.clone();
    detail.append(": within ");
    detail.append(c.license.title());
    detail.append(" privileges (");
    detail.append(rule);
    detail.append(").");
    d.legal("permitted", rule, summary, &detail)
}

/// How far a signal is beyond a range, on both sides together.
pub open spec fn beyond(range: Range, lo: int, hi: int) -> int {
    below_edge(range, lo) + above_edge(range, hi)
}

/// How far a signal is beyond a range's lower edge.
pub open spec fn below_edge(range: Range, lo: int) -> int {
    if range.low - lo > 0 { range.low - lo } else { 0 }
}

/// How far a signal is beyond a range's upper edge.
pub open spec fn above_edge(range: Range, hi: int) -> int {
    if hi - range.high > 0 { hi - range.high } else { 0 }
}

/// Among the first `n` segments, the one of those that the signal touches with its margin
/// that it is the least beyond: the first of them, if several.
pub open spec fn closest_segment(s: Seq<Segment>, lo: int, hi: int, m: int, n: nat) -> Option<nat>
    decreases n,
{
    if n == 0 {
        None
    } else {
        let best = closest_segment(s, lo, hi, m, (n - 1) as nat);
        if !s[n - 1].range.touches(lo - m, hi + m) {
            best
        } else {
            match best {
                None => Some((n - 1) as nat),
                Some(b) => if beyond(s[n - 1].range, lo, hi) < beyond(s[b as int].range, lo, hi) {
                    Some((n - 1) as nat)
                } else {
                    Some(b)
                },
            }
        }
    }
}

/// What is said of data outside every data segment: how far outside, or that there is none
/// here.
pub open spec fn outside_ruling(profile: Profile, d: Sketch, lo: int, hi: int, m: int, rf_text: Seq<char>) -> Ruling {
    match closest_segment(profile.data_segments@, lo, hi, m, profile.data_segments@.len()) {
        Some(n) => {
            let seg = profile.data_segments@[n as int];
            let below = below_edge(seg.range, lo);
            let above = above_edge(seg.range, hi);
            let by = if above >= below { above } else { below };
            let edge = if above >= below { "upper"@ } else { "lower"@ };
            let summary = if by > 0 {
                "TX BLOCKED: signal extends "@ + rounded(by) + " Hz beyond the FCC data segment"@
            } else {
                "TX BLOCKED: signal too close to the edge of the FCC data segment"@
            };
            let detail = if by > 0 {
                rf_text + ": "@ + rounded(by) + " Hz beyond the "@ + edge + " edge of the "@ + seg.band@
                    + " data segment "@ + seg.range.in_khz() + " ("@ + seg.rule@ + ")."@
            } else {
                rf_text + ": inside the "@ + seg.band@ + " data segment "@ + seg.range.in_khz()
                    + " but closer than the "@ + rounded(m) + " Hz margin to its "@ + edge + " edge ("@ + seg.rule@
                    + ")."@
            };
            d.on_segment(seg.range, seg.rule@).close(
                Verdict::Blocked,
                "outside_data_segment"@,
                seg.rule@,
                summary,
                detail,
            )
        },
        None => d.close(
            Verdict::Blocked,
            "no_data_here"@,
            "§97.305(c)"@,
            "TX BLOCKED: data is not authorized on this frequency"@,
            rf_text + ": RTTY and data emissions are not authorized there (§97.305(c)); the data segments are the lower parts of the bands."@,
        ),
    }
}

fn below_of(range: Range, lo: i128) -> (r: i128)
    requires
        -100_000_000_000_000_000_000 < lo < 100_000_000_000_000_000_000,
    ensures
        r == below_edge(range, lo as int),
{
    let by: i128 = range.low as i128 - lo;
    if by > 0 { by } else { 0 }
}

fn above_of(range: Range, hi: i128) -> (r: i128)
    requires
        -100_000_000_000_000_000_000 < hi < 100_000_000_000_000_000_000,
    ensures
        r == above_edge(range, hi as int),
{
    let by: i128 = hi - range.high as i128;
    if by > 0 { by } else { 0 }
}

fn outside_segment(profile: &Profile, d: Draft, lo: i128, hi: i128, m: i64, rf_text: &String) -> (r: Decision)
    requires
        -100_000_000_000_000_000_000 < lo < 100_000_000_000_000_000_000,
        -100_000_000_000_000_000_000 < hi < 100_000_000_000_000_000_000,
    ensures
        r@ == outside_ruling(*profile, d@, lo as int, hi as int, m as int, rf_text@),
{
    let mut near: Option<usize> = None;
    let mut i: usize = 0;
    while i < profile.data_segments.len()
        invariant
            i <= profile.data_segments.len(),
            -100_000_000_000_000_000_000 < lo < 100_000_000_000_000_000_000,
            -100_000_000_000_000_000_000 < hi < 100_000_000_000_000_000_000,
            match near {
                Some(n) => n < i && closest_segment(profile.data_segments@, lo as int, hi as int, m as int, i as nat) == Some(n as nat),
                None => closest_segment(profile.data_segments@, lo as int, hi as int, m as int, i as nat) is None,
            },
        decreases profile.data_segments.len() - i,
    {
        let range: Range = profile.data_segments[i].range;
        if range.overlaps(lo - m as i128, hi + m as i128) {
            match near {
                None => {
                    near = Some(i);
                },
                Some(b) => {
                    let best: Range = profile.data_segments[b].range;
                    if below_of(range, lo) + above_of(range, hi) < below_of(best, lo) + above_of(best, hi) {
                        near = Some(i);
                    }
                },
            }
        }
        i += 1;
    }
    match near {
        Some(n) => {
            let seg = &profile.data_segments[n];
            let below: i128 = below_of(seg.range, lo);
            let above: i128 = above_of(seg.range, hi);
            let (by, edge): (i128, &str) = if above >= below { (above, "upper") } else { (below, "lower") };
            let mut detail = rf_text.clone();
            let summary: String;
            if by > 0 {
                let mut text = cat("TX BLOCKED: signal extends ", &round_text(by));
                text.append(" Hz beyond the FCC data segment");
                summary = text;
                detail.append(": ");
                detail.append(&round_text(by));
                detail.append(" Hz beyond the ");
                detail.append(edge);
                detail.append(" edge of the ");
                detail.append(&seg.band);
                detail.append(" data segment ");
                detail.append(&seg.range.khz());
                detail.append(" (");
                detail.append(&seg.rule);
                detail.append(").");
            } else {
                summary = "TX BLOCKED: signal too close to the edge of the FCC data segment".to_owned();
                detail.append(": inside the ");
                detail.append(&seg.band);
                detail.append(" data segment ");
                detail.append(&seg.range.khz());
                detail.append(" but closer than the ");
                detail.append(&round_text(m as i128));
                detail.append(" Hz margin to its ");
                detail.append(edge);
                detail.append(" edge (");
                detail.append(&seg.rule);
                detail.append(").");
            }
            let mut d = d;
            d.set_segment(seg.range, &seg.rule);
            d.blocked("outside_data_segment", &seg.rule, &summary, &detail)
        },
        None => {
            let detail = cat(
                rf_text,
                ": RTTY and data emissions are not authorized there (§97.305(c)); the data segments are the lower parts of the bands.",
            );
            d.blocked("no_data_here", "§97.305(c)", "TX BLOCKED: data is not authorized on this frequency", &detail)
        },
    }
}

/// The first privilege, from `from` on, that holds `low..=high`.
pub open spec fn first_privilege(s: Seq<Privilege>, low: int, high: int, from: nat) -> nat
    decreases s.len() - from,
{
    if from >= s.len() || s[from as int].range.keeps(low, high) {
        from
    } else {
        first_privilege(s, low, high, from + 1)
    }
}

fn find_privilege(s: &Vec<Privilege>, low: i128, high: i128) -> (r: usize)
    ensures
        r <= s.len(),
        r as nat == first_privilege(s@, low as int, high as int, 0),
{
    let mut i: usize = 0;
    while i < s.len() && !s[i].range.holds(low, high)
        invariant
            i <= s.len(),
            first_privilege(s@, low as int, high as int, 0) == first_privilege(s@, low as int, high as int, i as nat),
        decreases s.len() - i,
    {
        i += 1;
    }
    i
}

/// The operator's privileges for an emission: the rule, the summary and the reasoning when
/// they do not reach.
pub open spec fn refusal(
    privileges: Seq<Privilege>,
    license: LicenseClass,
    glo: int,
    ghi: int,
    emission: Seq<char>,
    rf_text: Seq<char>,
) -> Option<(Seq<char>, Seq<char>, Seq<char>)> {
    let n = first_privilege(privileges, glo, ghi, 0);
    if n >= privileges.len() {
        Some(
            (
                "§97.301"@,
                "TX BLOCKED: outside your license class's privileges"@,
                rf_text + ": outside the "@ + license.heading() + " privileges (§97.301)."@,
            ),
        )
    } else if privileges[n as int].permits(emission) {
        None
    } else {
        let p = privileges[n as int];
        Some(
            (
                "§97.307(f)(9)"@,
                "TX BLOCKED: your license class may send only CW here"@,
                rf_text + ": "@ + license.heading() + " privileges there allow "@ + match p.emissions {
                    Some(list) => uppercase(joined(list@, ", "@)),
                    None => uppercase(""@),
                } + " only ("@ + match p.rule {
                    Some(rule) => rule@,
                    None => "§97.301"@,
                } + ")."@,
            ),
        )
    }
}

fn privilege_refusal(
    privileges: &Vec<Privilege>,
    license: LicenseClass,
    glo: i128,
    ghi: i128,
    emission: &str,
    rf_text: &String,
) -> (r: Option<(&'static str, &'static str, String)>)
    ensures
        match r {
            Some(no) => refusal(privileges@, license, glo as int, ghi as int, emission@, rf_text@) == Some(
                (no.0@, no.1@, no.2@),
            ),
            None => refusal(privileges@, license, glo as int, ghi as int, emission@, rf_text@) is None,
        },
{
    let n: usize = find_privilege(privileges, glo, ghi);
    if n >= privileges.len() {
        let mut detail = rf_text.clone();
        detail.append(": outside the ");
        detail.append(license.title());
        detail.append(" privileges (§97.301).");
        return Some(("§97.301", "TX BLOCKED: outside your license class's privileges", detail));
    }
    let p = &privileges[n];
    if p.allows(emission) {
        return None;
    }
    let mut detail = rf_text.clone();
    detail.append(": ");
    detail.append(license.title());
    detail.append(" privileges there allow ");
    match &p.emissions {
        Some(list) => {
            let all = join(list, ", ");
            detail.append(&to_upper(&all));
        },
        None => {
            detail.append(&to_upper(""));
        },
    }
    detail.append(" only (");
    match &p.rule {
        Some(rule) => {
            detail.append(rule);
        },
        None => {
            detail.append("§97.301");
        },
    }
    detail.append(").");
    Some(("§97.307(f)(9)", "TX BLOCKED: your license class may send only CW here", detail))
}

/// The first range, from `from` on, that holds `low..=high`.
pub open spec fn first_range(s: Seq<Range>, low: int, high: int, from: nat) -> nat
    decreases s.len() - from,
{
    if from >= s.len() || s[from as int].keeps(low, high) {
        from
    } else {
        first_range(s, low, high, from + 1)
    }
}

fn find_range(s: &Vec<Range>, low: i128, high: i128) -> (r: usize)
    ensures
        r <= s.len(),
        r as nat == first_range(s@, low as int, high as int, 0),
{
    let mut i: usize = 0;
    while i < s.len() && !s[i].holds(low, high)
        invariant
            i <= s.len(),
            first_range(s@, low as int, high as int, 0) == first_range(s@, low as int, high as int, i as nat),
        decreases s.len() - i,
    {
        i += 1;
    }
    i
}

/// What is said of data from an automatically controlled station (§97.221).
pub open spec fn automatic_ruling(profile: Profile, s: Situation, tx: Emission, d: Sketch, c: Facts, segment: Segment) -> Ruling {
    let width = d.width();
    let rule = profile.automatic.segments_rule@;
    let n = first_range(profile.automatic.segments@, c.glo, c.ghi, 0);
    if n < profile.automatic.segments@.len() {
        let auto_range = profile.automatic.segments@[n as int];
        advised(
            profile,
            s,
            c.license,
            Sketch { automatic_segment: Some(auto_range), ..d }.close(
                Verdict::Legal,
                "automatic_segment"@,
                rule,
                "FCC: automatic control — permitted inside the §97.221(b) segment "@ + auto_range.in_khz(),
                c.rf_text + ": inside the automatic-control segment "@ + auto_range.in_khz() + " ("@ + rule
                    + "), within the "@ + segment.band@ + " data segment ("@ + segment.rule@ + ")."@,
            ),
            c.lo,
            c.hi,
        )
    } else {
        match profile.automatic.elsewhere {
            None => d.close(
                Verdict::Blocked,
                "automatic_outside"@,
                rule,
                "TX BLOCKED: automatic station outside the automatic-control segments"@,
                c.rf_text + ": automatic control is allowed only inside the "@ + rule + " segments."@,
            ),
            Some(elsewhere) => if width > elsewhere.max_bandwidth {
                d.close(
                    Verdict::Blocked,
                    "automatic_bandwidth"@,
                    elsewhere.rule@,
                    "TX BLOCKED: automatic station using a "@ + rounded(width)
                        + " Hz emission outside the §97.221(b) segments"@,
                    c.rf_text + ": outside the automatic-control segments ("@ + rule
                        + "), an automatically controlled station may transmit only "@ + rounded(
                        elsewhere.max_bandwidth as int,
                    ) + " Hz or less ("@ + elsewhere.rule@ + "), and "@ + d.what + " measures "@ + rounded(width)
                        + " Hz."@,
                )
            } else if elsewhere.requires_response && tx.direction != Direction::Respond {
                d.close(
                    Verdict::Blocked,
                    "automatic_originate"@,
                    elsewhere.rule@,
                    "TX BLOCKED: "@ + rounded(width)
                        + " Hz automatic transmission outside §97.221(b) may only respond to a locally or remotely controlled station"@,
                    c.rf_text + ": outside the automatic-control segments ("@ + rule
                        + "), an automatically controlled station may transmit only while responding to interrogation by a station under local or remote control ("@
                        + elsewhere.rule@ + "); this transmission would start an exchange."@,
                )
            } else {
                advised(
                    profile,
                    s,
                    c.license,
                    d.close(
                        Verdict::Legal,
                        "automatic_response"@,
                        elsewhere.rule@,
                        "FCC: automatic control — answering at "@ + rounded(width) + " Hz, within §97.221(c)'s "@
                            + rounded(elsewhere.max_bandwidth as int) + " Hz"@,
                        c.rf_text
                            + ": outside the automatic-control segments, responding to interrogation with "@ + rounded(
                            width,
                        ) + " Hz, no more than "@ + rounded(elsewhere.max_bandwidth as int) + " Hz ("@
                            + elsewhere.rule@ + ")."@,
                    ),
                    c.lo,
                    c.hi,
                )
            },
        }
    }
}

fn automatic_data(profile: &Profile, s: &Situation, tx: &Transmission, d: Draft, c: &Case, segment: &Segment) -> (r: Decision)
    requires
        c.small(),
    ensures
        r@ == automatic_ruling(*profile, *s, tx@, d@, c.facts(), *segment),
{
    let width: i128 = d.width();
    let rule = &profile.automatic.segments_rule;
    let n: usize = find_range(&profile.automatic.segments, c.glo, c.ghi);
    if n < profile.automatic.segments.len() {
        let auto_range: Range = profile.automatic.segments[n];
        let mut d = d;
        d.automatic_segment = Some(auto_range);
        let summary = cat("FCC: automatic control — permitted inside the §97.221(b) segment ", &auto_range.khz());
        let mut detail = c.rf_text.clone();
        detail.append(": inside the automatic-control segment ");
        detail.append(&auto_range.khz());
        detail.append(" (");
        detail.append(rule);
        detail.append("), within the ");
        detail.append(&segment.band);
        detail.append(" data segment (");
        detail.append(&segment.rule);
        detail.append(").");
        let decision = d.legal("automatic_segment", rule, &summary, &detail);
        return advise(profile, s, c.license, decision, c.lo, c.hi);
    }
    let elsewhere = match &profile.automatic.elsewhere {
        Some(elsewhere) => elsewhere,
        None => {
            let mut detail = c.rf_text.clone();
            detail.append(": automatic control is allowed only inside the ");
            detail.append(rule);
            detail.append(" segments.");
            return d.blocked(
                "automatic_outside",
                rule,
                "TX BLOCKED: automatic station outside the automatic-control segments",
                &detail,
            );
        },
    };
    if width > elsewhere.max_bandwidth as i128 {
        let mut summary = cat("TX BLOCKED: automatic station using a ", &round_text(width));
        summary.append(" Hz emission outside the §97.221(b) segments");
        let mut detail = c.rf_text.clone();
        detail.append(": outside the automatic-control segments (");
        detail.append(rule);
        detail.append("), an automatically controlled station may transmit only ");
        detail.append(&round_text(elsewhere.max_bandwidth as i128));
        detail.append(" Hz or less (");
        detail.append(&elsewhere.rule);
        detail.append("), and ");
        detail.append(&d.what);
        detail.append(" measures ");
        detail.append(&round_text(width));
        detail.append(" Hz.");
        return d.blocked("automatic_bandwidth", &elsewhere.rule, &summary, &detail);
    }
    if elsewhere.requires_response && tx.direction != Direction::Respond {
        let mut detail = c.rf_text.clone();
        detail.append(": outside the automatic-control segments (");
        detail.append(rule);
        detail.append(
            "), an automatically controlled station may transmit only while responding to interrogation by a station under local or remote control (",
        );
        detail.append(&elsewhere.rule);
        detail.append("); this transmission would start an exchange.");
        let mut summary = cat("TX BLOCKED: ", &round_text(width));
        summary.append(
            " Hz automatic transmission outside §97.221(b) may only respond to a locally or remotely controlled station",
        );
        return d.blocked("automatic_originate", &elsewhere.rule, &summary, &detail);
    }
    let mut summary = cat("FCC: automatic control — answering at ", &round_text(width));
    summary.append(" Hz, within §97.221(c)'s ");
    summary.append(&round_text(elsewhere.max_bandwidth as i128));
    summary.append(" Hz");
    let mut detail = c.rf_text.clone();
    detail.append(": outside the automatic-control segments, responding to interrogation with ");
    detail.append(&round_text(width));
    detail.append(" Hz, no more than ");
    detail.append(&round_text(elsewhere.max_bandwidth as i128));
    detail.append(" Hz (");
    detail.append(&elsewhere.rule);
    detail.append(").");
    let decision = d.legal("automatic_response", &elsewhere.rule, &summary, &detail);
    advise(profile, s, c.license, decision, c.lo, c.hi)
}

/// The first channel, from `from` on, that `low..=high` touches.
pub open spec fn first_channel(channels: Channels, low: int, high: int, from: nat) -> nat
    decreases channels.list@.len() - from,
{
    if from >= channels.list@.len() || channel_span(channels, channels.list@[from as int]).touches(low, high) {
        from
    } else {
        first_channel(channels, low, high, from + 1)
    }
}

fn find_channel(channels: &Channels, low: i128, high: i128) -> (r: usize)
    ensures
        r <= channels.list.len(),
        r as nat == first_channel(*channels, low as int, high as int, 0),
{
    let mut i: usize = 0;
    while i < channels.list.len() && !channel_range(channels, channels.list[i]).overlaps(low, high)
        invariant
            i <= channels.list.len(),
            first_channel(*channels, low as int, high as int, 0) == first_channel(*channels, low as int, high as int, i as nat),
        decreases channels.list.len() - i,
    {
        i += 1;
    }
    i
}

/// The first segment of a band, from `from` on, that holds `low..=high`.
pub open spec fn first_segment_of(s: Seq<Segment>, band: Seq<char>, low: int, high: int, from: nat) -> nat
    decreases s.len() - from,
{
    if from >= s.len() || (s[from as int].band@ == band && s[from as int].range.keeps(low, high)) {
        from
    } else {
        first_segment_of(s, band, low, high, from + 1)
    }
}

fn find_segment_of(s: &Vec<Segment>, band: &str, low: i128, high: i128) -> (r: usize)
    ensures
        r <= s.len(),
        r as nat == first_segment_of(s@, band@, low as int, high as int, 0),
{
    let mut i: usize = 0;
    while i < s.len() && !(same(&s[i].band, band) && s[i].range.holds(low, high))
        invariant
            i <= s.len(),
            first_segment_of(s@, band@, low as int, high as int, 0) == first_segment_of(s@, band@, low as int, high as int, i as nat),
        decreases s.len() - i,
    {
        i += 1;
    }
    i
}

/// What is said on 60 m (§97.303(h)(3), §97.305(c)(3)(iii), §97.307(f)(14)): the operator's
/// privileges and the band's own emissions, then a channel or the segment.
pub open spec fn sixty_ruling(profile: Profile, s: Situation, tx: Emission, c: Facts, channels: Channels, d: Sketch) -> Ruling {
    let list = privileges_for(profile, c.license);
    let ch = first_channel(channels, c.lo - s.margin, c.hi + s.margin, 0);
    let n = first_segment_of(profile.data_segments@, channels.band@, c.glo, c.ghi, 0);
    if first_privilege(list, c.lo, c.hi, 0) >= list.len() {
        d.close(
            Verdict::Blocked,
            "privilege"@,
            "§97.301"@,
            "TX BLOCKED: outside your license class's privileges"@,
            c.rf_text + ": outside the "@ + c.license.heading() + " privileges (§97.301)."@,
        )
    } else if tx.kind == EmissionKind::Nothing {
        d.close(Verdict::Legal, "permitted"@, "§97.301"@, "FCC: keying only — no emission"@, c.rf_text)
    } else if profile.sixty_meter_emissions is Some && !names(
        profile.sixty_meter_emissions->0.allowed@,
        tx.kind.word(),
    ) {
        let allowed = profile.sixty_meter_emissions->0;
        d.close(
            Verdict::Blocked,
            "sixty_emission"@,
            allowed.rule@,
            "TX BLOCKED: this emission is not allowed on 60 m"@,
            c.rf_text + ": on 60 m a station may transmit only "@ + uppercase(joined(allowed.allowed@, ", "@)) + " ("@
                + allowed.rule@ + "); tune up on another band."@,
        )
    } else if ch < channels.list@.len() {
        channel_ruling(s, tx, c, channels, channels.list@[ch as int], d)
    } else if n < profile.data_segments@.len() {
        sixty_segment_ruling(profile, s, tx, c, profile.data_segments@[n as int], d)
    } else {
        d.close(
            Verdict::Blocked,
            "sixty_off_channel"@,
            channels.rule@,
            "TX BLOCKED: not on a 60 m channel or in the 60 m segment"@,
            c.rf_text + ": on 60 m a station transmits only on the four channels or inside 5351.5–5366.5 kHz ("@
                + channels.rule@ + ")."@,
        )
    }
}

fn sixty(profile: &Profile, s: &Situation, tx: &Transmission, c: &Case, channels: &Channels, d: Draft) -> (r: Decision)
    requires
        c.small(),
    ensures
        r@ == sixty_ruling(*profile, *s, tx@, c.facts(), *channels, d@),
{
    let privileges = privileges_of(profile, c.license);
    if find_privilege(privileges, c.lo, c.hi) >= privileges.len() {
        let mut detail = c.rf_text.clone();
        detail.append(": outside the ");
        detail.append(c.license.title());
        detail.append(" privileges (§97.301).");
        return d.blocked("privilege", "§97.301", "TX BLOCKED: outside your license class's privileges", &detail);
    }
    if tx.kind == EmissionKind::Nothing {
        return d.legal("permitted", "§97.301", "FCC: keying only — no emission", &c.rf_text);
    }
    if let Some(allowed) = &profile.sixty_meter_emissions {
        if !holds_text(&allowed.allowed, tx.kind.name()) {
            let mut detail = c.rf_text.clone();
            detail.append(": on 60 m a station may transmit only ");
            let all = join(&allowed.allowed, ", ");
            detail.append(&to_upper(&all));
            detail.append(" (");
            detail.append(&allowed.rule);
            detail.append("); tune up on another band.");
            return d.blocked(
                "sixty_emission",
                &allowed.rule,
                "TX BLOCKED: this emission is not allowed on 60 m",
                &detail,
            );
        }
    }
    let m: i128 = s.margin as i128;
    let ch: usize = find_channel(channels, c.lo - m, c.hi + m);
    if ch < channels.list.len() {
        return sixty_channel(s, tx, c, channels, channels.list[ch], d);
    }
    let n: usize = find_segment_of(&profile.data_segments, &channels.band, c.glo, c.ghi);
    if n < profile.data_segments.len() {
        return sixty_segment(profile, s, tx, c, &profile.data_segments[n], d);
    }
    let mut detail = c.rf_text.clone();
    detail.append(": on 60 m a station transmits only on the four channels or inside 5351.5–5366.5 kHz (");
    detail.append(&channels.rule);
    detail.append(").");
    d.blocked(
        "sixty_off_channel",
        &channels.rule,
        "TX BLOCKED: not on a 60 m channel or in the 60 m segment",
        &detail,
    )
}

/// The size of a difference.
pub open spec fn apart(a: int, b: int) -> int {
    if a >= b { a - b } else { b - a }
}

/// Whether a transmission is set up for a 60 m channel: a CW carrier on its centre; a data
/// emission on the channel's sideband, its carrier (the dial) where §97.303(h)(3) puts it, and
/// all of it inside the channel.
pub open spec fn on_channel(tx: Emission, c: Facts, channels: Channels, channel: Channel) -> bool {
    if tx.kind == EmissionKind::Cw {
        // the middle of the signal, without halving it
        apart(c.lo + c.hi, 2 * channel.center) <= 2 * channels.carrier_tolerance
    } else {
        c.sideband.word() == channels.sideband@ && apart(c.dial, channel.center - channels.carrier_offset)
            <= channels.carrier_tolerance && channel_span(channels, channel).keeps(c.glo, c.ghi)
    }
}

/// The power above which a 60 m channel's limit may be passed.
pub open spec fn over_channel_power(s: Situation) -> bool {
    s.power_mw is Some && s.power_mw->0 > 100_000
}

/// What is said on a 60 m channel.
pub open spec fn channel_ruling(s: Situation, tx: Emission, c: Facts, channels: Channels, channel: Channel, d: Sketch) -> Ruling {
    let range = channel_span(channels, channel);
    let d = d.on_segment(range, channels.rule@);
    let why = if tx.kind == EmissionKind::Cw {
        "a CW emission's carrier goes on the centre frequency, "@ + at_khz(channel.center as int)
    } else {
        "a data emission goes on "@ + uppercase(channels.sideband@) + " with its carrier (the dial) at "@ + at_khz(
            channel.center - channels.carrier_offset,
        ) + " and all of it inside the channel "@ + range.in_khz()
    };
    if !on_channel(tx, c, channels, channel) {
        d.close(
            Verdict::Blocked,
            "sixty_channel"@,
            channels.rule@,
            "TX BLOCKED: not set up for the 60 m channel"@,
            c.rf_text + ": on the 60 m channel centred on "@ + at_khz(channel.center as int) + ", "@ + why + " ("@
                + channels.rule@ + ")."@,
        )
    } else {
        let shared = "60 m is shared with government stations: keep transmissions short (§97.307(f)(14)(ii)); only one signal at a time on a channel (band plan)."@;
        let notes = if over_channel_power(s) {
            d.notes.push(
                "At "@ + rounded(s.power_mw->0 as int)
                    + " W: 60 m channels are limited to 100 W ERP (§97.313(i)); the antenna's gain counts."@,
            )
        } else {
            d.notes
        };
        let r = d.close(
            if over_channel_power(s) { Verdict::Warning } else { Verdict::Legal },
            "sixty_channel"@,
            channels.rule@,
            "FCC: 60 m channel — permitted on the channel"@,
            c.rf_text + ": on the 60 m channel "@ + range.in_khz() + " ("@ + channels.rule@ + "). "@ + channels.why@,
        );
        Ruling { notes: notes.push(shared), ..r }
    }
}

fn sixty_channel(s: &Situation, tx: &Transmission, c: &Case, channels: &Channels, channel: Channel, d: Draft) -> (r: Decision)
    requires
        c.small(),
    ensures
        r@ == channel_ruling(*s, tx@, c.facts(), *channels, channel, d@),
{
    let range = channel_range(channels, channel);
    let mut d = d;
    d.set_segment(range, &channels.rule);
    let carrier: i128 = channel.center as i128 - channels.carrier_offset as i128;
    let tolerance: i128 = channels.carrier_tolerance as i128;
    let ok: bool;
    let why: String;
    if tx.kind == EmissionKind::Cw {
        let twice: i128 = c.lo + c.hi - 2 * (channel.center as i128);
        ok = (if twice >= 0 { twice } else { -twice }) <= 2 * tolerance;
        why = cat("a CW emission's carrier goes on the centre frequency, ", &at(channel.center as i128));
    } else {
        let off: i128 = c.dial as i128 - carrier;
        ok = same(c.sideband.name(), &channels.sideband) && (if off >= 0 { off } else { -off }) <= tolerance
            && range.holds(c.glo, c.ghi);
        let mut text = cat("a data emission goes on ", &to_upper(&channels.sideband));
        text.append(" with its carrier (the dial) at ");
        text.append(&at(carrier));
        text.append(" and all of it inside the channel ");
        text.append(&range.khz());
        why = text;
    }
    if !ok {
        let mut detail = c.rf_text.clone();
        detail.append(": on the 60 m channel centred on ");
        detail.append(&at(channel.center as i128));
        detail.append(", ");
        detail.append(&why);
        detail.append(" (");
        detail.append(&channels.rule);
        detail.append(").");
        return d.blocked(
            "sixty_channel",
            &channels.rule,
            "TX BLOCKED: not set up for the 60 m channel",
            &detail,
        );
    }
    let mut detail = c.rf_text.clone();
    detail.append(": on the 60 m channel ");
    detail.append(&range.khz());
    detail.append(" (");
    detail.append(&channels.rule);
    detail.append("). ");
    detail.append(&channels.why);
    let mut decision = d.legal(
        "sixty_channel",
        &channels.rule,
        "FCC: 60 m channel — permitted on the channel",
        &detail,
    );
    let ghost before = decision.notes@;
    match s.power_mw {
        Some(power) => {
            if power > 100_000 {
                let mut note = cat("At ", &round_text(power as i128));
                note.append(" W: 60 m channels are limited to 100 W ERP (§97.313(i)); the antenna's gain counts.");
                decision.notes.push(note);
                decision.verdict = Verdict::Warning;
                proof {
                    assert(views(decision.notes@) =~= views(before).push(note@));
                }
            }
        },
        None => {},
    }
    let ghost middle = decision.notes@;
    let shared = "60 m is shared with government stations: keep transmissions short (§97.307(f)(14)(ii)); only one signal at a time on a channel (band plan).".to_owned();
    decision.notes.push(shared);
    proof {
        assert(views(decision.notes@) =~= views(middle).push(shared@));
    }
    decision
}

/// What is said inside the 60 m segment (§97.303(h)(3)): no wider than 2.8 kHz, 9.15 W ERP.
pub open spec fn sixty_segment_ruling(
    profile: Profile,
    s: Situation,
    tx: Emission,
    c: Facts,
    segment: Segment,
    d: Sketch,
) -> Ruling {
    let d = d.on_segment(segment.range, segment.rule@);
    if tx.kind == EmissionKind::Data && d.width() > profile.data.max_bandwidth {
        d.close(
            Verdict::Blocked,
            "too_wide"@,
            profile.data.rule@,
            "TX BLOCKED: the signal is wider than 2.8 kHz"@,
            c.rf_text + ": wider than 2.8 kHz ("@ + profile.data.rule@ + ")."@,
        )
    } else {
        let r = d.close(
            Verdict::Legal,
            "sixty_segment"@,
            segment.rule@,
            "FCC: 60 m segment — permitted (9.15 W ERP limit)"@,
            c.rf_text + ": inside the 60 m segment "@ + segment.range.in_khz() + " ("@ + segment.rule@
                + "). Radiated power there is limited to 9.15 W ERP (§97.313(i))."@,
        );
        if s.power_mw is Some && s.power_mw->0 > 9_150 {
            Ruling {
                verdict: Verdict::Warning,
                notes: r.notes.push(
                    "At "@ + rounded(s.power_mw->0 as int)
                        + " W: the 5351.5–5366.5 kHz segment is limited to 9.15 W ERP (§97.313(i))."@,
                ),
                ..r
            }
        } else {
            r
        }
    }
}

fn sixty_segment(profile: &Profile, s: &Situation, tx: &Transmission, c: &Case, segment: &Segment, d: Draft) -> (r: Decision)
    ensures
        r@ == sixty_segment_ruling(*profile, *s, tx@, c.facts(), *segment, d@),
{
    let mut d = d;
    d.set_segment(segment.range, &segment.rule);
    if tx.kind == EmissionKind::Data && d.width() > profile.data.max_bandwidth as i128 {
        let mut detail = c.rf_text.clone();
        detail.append(": wider than 2.8 kHz (");
        detail.append(&profile.data.rule);
        detail.append(").");
        return d.blocked("too_wide", &profile.data.rule, "TX BLOCKED: the signal is wider than 2.8 kHz", &detail);
    }
    let mut detail = c.rf_text.clone();
    detail.append(": inside the 60 m segment ");
    detail.append(&segment.range.khz());
    detail.append(" (");
    detail.append(&segment.rule);
    detail.append("). Radiated power there is limited to 9.15 W ERP (§97.313(i)).");
    let mut decision = d.legal(
        "sixty_segment",
        &segment.rule,
        "FCC: 60 m segment — permitted (9.15 W ERP limit)",
        &detail,
    );
    let ghost before = decision.notes@;
    match s.power_mw {
        Some(power) => {
            if power > 9_150 {
                decision.verdict = Verdict::Warning;
                let mut note = cat("At ", &round_text(power as i128));
                note.append(" W: the 5351.5–5366.5 kHz segment is limited to 9.15 W ERP (§97.313(i)).");
                decision.notes.push(note);
                proof {
                    assert(views(decision.notes@) =~= views(before).push(note@));
                }
            }
        },
        None => {},
    }
    decision
}

/// Whether a power limit applies to a signal and a class, and the power passes it.
pub open spec fn over_limit(limit: PowerLimit, s: Situation, license: LicenseClass, lo: int, hi: int) -> bool {
    limit.range.touches(lo, hi) && match limit.classes {
        None => true,
        Some(classes) => names(classes@, license.word()),
    } && s.power_mw is Some && s.power_mw->0 > limit.max_mw
}

/// What is said of a power limit that is passed.
pub open spec fn power_note(limit: PowerLimit, power_mw: int) -> Seq<char> {
    "At "@ + rounded(power_mw) + " W: "@ + (if limit.classes is Some {
        "a Novice or Technician"@
    } else {
        "a station"@
    }) + " is limited to "@ + plain_decimal(limit.max_mw * 1_000_000) + " W "@ + limit.measure@ + " here ("@
        + limit.rule@ + ")."@
}

/// What is said of the first `n` power limits that are passed.
pub open spec fn power_notes(
    limits: Seq<PowerLimit>,
    s: Situation,
    license: LicenseClass,
    lo: int,
    hi: int,
    n: nat,
) -> Seq<Seq<char>>
    decreases n,
{
    if n == 0 {
        Seq::empty()
    } else {
        let before = power_notes(limits, s, license, lo, hi, (n - 1) as nat);
        if over_limit(limits[n - 1], s, license, lo, hi) {
            before.push(power_note(limits[n - 1], s.power_mw->0 as int))
        } else {
            before
        }
    }
}

/// The first area, from `from` on, that holds or touches `low..=high`.
pub open spec fn first_area(s: Seq<PlanArea>, low: int, high: int, inside: bool, from: nat) -> nat
    decreases s.len() - from,
{
    if from >= s.len() || (if inside {
        s[from as int].range.keeps(low, high)
    } else {
        s[from as int].range.touches(low, high)
    }) {
        from
    } else {
        first_area(s, low, high, inside, from + 1)
    }
}

fn find_area(s: &Vec<PlanArea>, low: i128, high: i128, inside: bool) -> (r: usize)
    ensures
        r <= s.len(),
        r as nat == first_area(s@, low as int, high as int, inside, 0),
{
    let mut i: usize = 0;
    while i < s.len() && !((inside && s[i].range.holds(low, high)) || (!inside && s[i].range.overlaps(low, high)))
        invariant
            i <= s.len(),
            first_area(s@, low as int, high as int, inside, 0) == first_area(s@, low as int, high as int, inside, i as nat),
        decreases s.len() - i,
    {
        i += 1;
    }
    i
}

/// A lawful data transmission, with what the operator should know: any power limit that is
/// passed, and the voluntary band plan.
pub open spec fn advised(profile: Profile, s: Situation, license: LicenseClass, r: Ruling, lo: int, hi: int) -> Ruling {
    let notes = power_notes(profile.power@, s, license, lo, hi, profile.power@.len());
    let r = Ruling {
        verdict: if notes.len() > 0 { Verdict::Warning } else { r.verdict },
        notes: r.notes + notes,
        ..r
    };
    if s.band_plan && profile.band_plan is Some {
        let plan = profile.band_plan->0;
        let avoid = first_area(plan.avoid@, lo, hi, false, 0);
        let area = first_area(plan.data@, lo, hi, true, 0);
        if avoid < plan.avoid@.len() {
            Ruling {
                verdict: Verdict::Warning,
                guidance: Some(
                    "Legal under Part 97, but on "@ + plan.avoid@[avoid as int].label@ + " ("@ + plan.authority@
                        + ", voluntary)."@,
                ),
                ..r
            }
        } else if area < plan.data@.len() {
            Ruling {
                guidance: Some(
                    "Inside the band plan's "@ + plan.data@[area as int].label@ + " ("@ + plan.authority@ + ")."@,
                ),
                ..r
            }
        } else {
            Ruling {
                verdict: Verdict::Warning,
                summary: "FCC warning: legal under Part 97, but outside the customary digital band plan"@,
                guidance: Some(
                    "Legal under Part 97; the "@ + plan.authority@
                        + " puts data elsewhere on this band. It is voluntary."@,
                ),
                ..r
            }
        }
    } else {
        r
    }
}

fn advise(profile: &Profile, s: &Situation, license: LicenseClass, decision: Decision, lo: i128, hi: i128) -> (r: Decision)
    ensures
        r@ == advised(*profile, *s, license, decision@, lo as int, hi as int),
{
    let ghost first = decision@;
    let mut decision = decision;
    let mut i: usize = 0;
    proof {
        assert(first.notes + Seq::<Seq<char>>::empty() =~= first.notes);
    }
    while i < profile.power.len()
        invariant
            i <= profile.power.len(),
            ({
                let notes = power_notes(profile.power@, *s, license, lo as int, hi as int, i as nat);
                decision@ == Ruling {
                    verdict: if notes.len() > 0 { Verdict::Warning } else { first.verdict },
                    notes: first.notes + notes,
                    ..first
                }
            }),
        decreases profile.power.len() - i,
    {
        let limit = &profile.power[i];
        let named: bool = match &limit.classes {
            None => true,
            Some(classes) => holds_text(classes, license.name()),
        };
        if limit.range.overlaps(lo, hi) && named {
            match s.power_mw {
                Some(power) => {
                    if power > limit.max_mw {
                        let ghost before = decision.notes@;
                        decision.verdict = Verdict::Warning;
                        let mut note = cat("At ", &round_text(power as i128));
                        note.append(" W: ");
                        note.append(if limit.classes.is_some() { "a Novice or Technician" } else { "a station" });
                        note.append(" is limited to ");
                        note.append(&decimal_text(limit.max_mw as i128 * 1_000_000));
                        note.append(" W ");
                        note.append(&limit.measure);
                        note.append(" here (");
                        note.append(&limit.rule);
                        note.append(").");
                        decision.notes.push(note);
                        proof {
                            let so_far = power_notes(profile.power@, *s, license, lo as int, hi as int, i as nat);
                            assert(views(decision.notes@) =~= views(before).push(note@));
                            assert(views(decision.notes@) =~= first.notes + so_far.push(note@));
                        }
                    }
                },
                None => {},
            }
        }
        i += 1;
    }
    if s.band_plan {
        if let Some(plan) = &profile.band_plan {
            let avoid: usize = find_area(&plan.avoid, lo, hi, false);
            if avoid < plan.avoid.len() {
                decision.verdict = Verdict::Warning;
                let mut text = cat("Legal under Part 97, but on ", &plan.avoid[avoid].label);
                text.append(" (");
                text.append(&plan.authority);
                text.append(", voluntary).");
                decision.guidance = Some(text);
            } else {
                let area: usize = find_area(&plan.data, lo, hi, true);
                if area < plan.data.len() {
                    let mut text = cat("Inside the band plan's ", &plan.data[area].label);
                    text.append(" (");
                    text.append(&plan.authority);
                    text.append(").");
                    decision.guidance = Some(text);
                } else {
                    decision.verdict = Verdict::Warning;
                    decision.summary = "FCC warning: legal under Part 97, but outside the customary digital band plan".to_owned();
                    let mut text = cat("Legal under Part 97; the ", &plan.authority);
                    text.append(" puts data elsewhere on this band. It is voluntary.");
                    decision.guidance = Some(text);
                }
            }
        }
    }
    decision
}

} // verus!
