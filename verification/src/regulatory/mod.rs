//! The regulatory policy: whether a transmission is lawful where it would go, and which rungs
//! of the link's ladder are.
//!
//! One place decides, for the panel, the control interface and the transmitter. The station
//! asks [`Policy::authorize`] before every transmission it renders, whatever it is, and keys
//! the radio only with the [`Authorization`] that comes back, which nothing else can make. The
//! link's rate control climbs only as far as [`Policy::ceiling`] lets it.
//!
//! The rules are data: a [`profile::Profile`] per administration, and the spectrum every
//! transmission occupies, measured from the transmitter itself. The question is always the RF
//! range a transmission covers (the dial, the sideband and the measured audio edges), never a
//! mode's name. Nothing here guesses: a question it cannot answer (no dial, no sideband, no
//! license class, no control mode, a profile that did not load) is a refusal that says what is
//! missing.
//!
//! Frequencies are whole thousandths of a hertz, and powers whole thousandths of a watt.
use std::sync::Arc;

use vstd::prelude::*;

use crate::regulatory::judge::{evaluate, rules_ruling, sketch, Draft};
use crate::regulatory::occupancy::{clip, clipped, greatest, least, AirOccupancy, Edges, Millihertz, Reading};
use crate::regulatory::profile::{load, Channel, Channels, Privilege, Profile, Range, Segment, US_FCC_PART97};
use crate::text::{clone_texts, cat, digits, quoted, same, trim, trimmed, views, whole};

pub mod judge;
pub mod occupancy;
pub mod plain;
pub mod profile;
pub mod table;
pub mod laws;

verus! {

/// How the station is controlled (47 CFR §97.3(a)(6), (39); §97.109).
#[derive(Clone, Copy, PartialEq, Eq, Structural, Debug)]
pub enum ControlMode {
    /// The control operator is at the control point.
    Local,
    /// The control operator is at the control point through a control link.
    Remote,
    /// No control operator at the control point: the station keeps to the rules itself.
    Automatic,
}

impl ControlMode {
    /// The configuration's word for it.
    pub open spec fn word(self) -> Seq<char> {
        match self {
            ControlMode::Local => "local"@,
            ControlMode::Remote => "remote"@,
            ControlMode::Automatic => "automatic"@,
        }
    }

    /// The control a word of the configuration means.
    pub open spec fn of_word(word: Seq<char>) -> Option<ControlMode> {
        if word == "local"@ {
            Some(ControlMode::Local)
        } else if word == "remote"@ {
            Some(ControlMode::Remote)
        } else if word == "automatic"@ {
            Some(ControlMode::Automatic)
        } else {
            None
        }
    }

    /// Parse the configuration's word for it.
    pub fn parse(word: &str) -> (r: Option<ControlMode>)
        ensures
            r == ControlMode::of_word(word@),
    {
        if same(word, "local") {
            Some(ControlMode::Local)
        } else if same(word, "remote") {
            Some(ControlMode::Remote)
        } else if same(word, "automatic") {
            Some(ControlMode::Automatic)
        } else {
            None
        }
    }

    /// The configuration's word for it.
    pub fn name(self) -> (r: &'static str)
        ensures
            r@ == self.word(),
    {
        match self {
            ControlMode::Local => "local",
            ControlMode::Remote => "remote",
            ControlMode::Automatic => "automatic",
        }
    }
}

/// The operator's license class (§97.301).
#[derive(Clone, Copy, PartialEq, Eq, Structural, Debug)]
pub enum LicenseClass {
    /// Novice.
    Novice,
    /// Technician.
    Technician,
    /// General.
    General,
    /// Advanced.
    Advanced,
    /// Amateur Extra.
    Extra,
}

impl LicenseClass {
    /// The configuration's word for it.
    pub open spec fn word(self) -> Seq<char> {
        match self {
            LicenseClass::Novice => "novice"@,
            LicenseClass::Technician => "technician"@,
            LicenseClass::General => "general"@,
            LicenseClass::Advanced => "advanced"@,
            LicenseClass::Extra => "extra"@,
        }
    }

    /// Its name in a sentence.
    pub open spec fn heading(self) -> Seq<char> {
        match self {
            LicenseClass::Novice => "Novice"@,
            LicenseClass::Technician => "Technician"@,
            LicenseClass::General => "General"@,
            LicenseClass::Advanced => "Advanced"@,
            LicenseClass::Extra => "Amateur Extra"@,
        }
    }

    /// The class a word of the configuration means.
    pub open spec fn of_word(word: Seq<char>) -> Option<LicenseClass> {
        if word == "novice"@ {
            Some(LicenseClass::Novice)
        } else if word == "technician"@ {
            Some(LicenseClass::Technician)
        } else if word == "general"@ {
            Some(LicenseClass::General)
        } else if word == "advanced"@ {
            Some(LicenseClass::Advanced)
        } else if word == "extra"@ {
            Some(LicenseClass::Extra)
        } else {
            None
        }
    }

    /// Parse the configuration's word for it.
    pub fn parse(word: &str) -> (r: Option<LicenseClass>)
        ensures
            r == LicenseClass::of_word(word@),
    {
        if same(word, "novice") {
            Some(LicenseClass::Novice)
        } else if same(word, "technician") {
            Some(LicenseClass::Technician)
        } else if same(word, "general") {
            Some(LicenseClass::General)
        } else if same(word, "advanced") {
            Some(LicenseClass::Advanced)
        } else if same(word, "extra") {
            Some(LicenseClass::Extra)
        } else {
            None
        }
    }

    /// The configuration's word for it.
    pub fn name(self) -> (r: &'static str)
        ensures
            r@ == self.word(),
    {
        match self {
            LicenseClass::Novice => "novice",
            LicenseClass::Technician => "technician",
            LicenseClass::General => "general",
            LicenseClass::Advanced => "advanced",
            LicenseClass::Extra => "extra",
        }
    }

    /// Its name in a sentence.
    pub fn title(self) -> (r: &'static str)
        ensures
            r@ == self.heading(),
    {
        match self {
            LicenseClass::Novice => "Novice",
            LicenseClass::Technician => "Technician",
            LicenseClass::General => "General",
            LicenseClass::Advanced => "Advanced",
            LicenseClass::Extra => "Amateur Extra",
        }
    }
}

/// Which sideband the radio transmits the modem's audio on.
#[derive(Clone, Copy, PartialEq, Eq, Structural, Debug)]
pub enum Sideband {
    /// Upper: RF = dial + audio.
    Usb,
    /// Lower: RF = dial − audio, the spectrum mirrored.
    Lsb,
}

impl Sideband {
    /// The configuration's word for it.
    pub open spec fn word(self) -> Seq<char> {
        match self {
            Sideband::Usb => "usb"@,
            Sideband::Lsb => "lsb"@,
        }
    }

    /// The sideband a word of the configuration means.
    pub open spec fn of_word(word: Seq<char>) -> Option<Sideband> {
        if word == "usb"@ {
            Some(Sideband::Usb)
        } else if word == "lsb"@ {
            Some(Sideband::Lsb)
        } else {
            None
        }
    }

    /// Parse the configuration's word for it.
    pub fn parse(word: &str) -> (r: Option<Sideband>)
        ensures
            r == Sideband::of_word(word@),
    {
        if same(word, "usb") {
            Some(Sideband::Usb)
        } else if same(word, "lsb") {
            Some(Sideband::Lsb)
        } else {
            None
        }
    }

    /// The configuration's word for it.
    pub fn name(self) -> (r: &'static str)
        ensures
            r@ == self.word(),
    {
        match self {
            Sideband::Usb => "usb",
            Sideband::Lsb => "lsb",
        }
    }
}

/// What a transmission is, as the rules class it.
#[derive(Clone, Copy, PartialEq, Eq, Structural, Debug)]
pub enum EmissionKind {
    /// RTTY or data: the modem's frames (J2D).
    Data,
    /// CW: the Morse identifier (J2A, §97.3(c)(1)).
    Cw,
    /// A test emission: the tune tone (§97.3(c)(9)).
    Test,
    /// Nothing: the transmitter keyed with no audio, the keying test.
    Nothing,
}

impl EmissionKind {
    /// The profile's word for it.
    pub open spec fn word(self) -> Seq<char> {
        match self {
            EmissionKind::Data => "data"@,
            EmissionKind::Cw => "cw"@,
            EmissionKind::Test => "test"@,
            EmissionKind::Nothing => "nothing"@,
        }
    }

    /// The profile's word for it.
    pub fn name(self) -> (r: &'static str)
        ensures
            r@ == self.word(),
    {
        match self {
            EmissionKind::Data => "data",
            EmissionKind::Cw => "cw",
            EmissionKind::Test => "test",
            EmissionKind::Nothing => "nothing",
        }
    }
}

/// Who began the exchange a transmission belongs to: §97.221(c)(1)'s question.
#[derive(Clone, Copy, PartialEq, Eq, Structural, Debug)]
pub enum Direction {
    /// This station starts it: a call, a probe, a beacon, every frame of a session it began.
    Originate,
    /// It answers another station: a call's acceptance, a probe's answer, every frame of a
    /// session the other station began.
    Respond,
    /// Somebody at the control point is testing the station: tune, drive, a keying test.
    Operator,
}

/// Where the dial frequency came from.
#[derive(Clone, Copy, PartialEq, Eq, Structural, Debug)]
pub enum DialSource {
    /// Read from the radio (CAT or rigctld) just before transmitting.
    Radio,
    /// Entered by the operator: the radio cannot say, and the station cannot see it move.
    Declared,
}

/// The station's regulatory settings, as the configuration's `[regulatory]` names them.
#[derive(Clone, PartialEq, Debug)]
pub struct Settings {
    /// The profile: `""` not chosen, `"none"`, or a profile's identifier.
    pub profile: String,
    /// How the station is controlled.
    pub control: Option<ControlMode>,
    /// The control operator's class.
    pub license: Option<LicenseClass>,
    /// The sideband the radio transmits the modem's audio on.
    pub sideband: Option<Sideband>,
    /// The station's ITU region.
    pub itu_region: u8,
    /// Room kept at a segment's edges.
    pub margin: Millihertz,
    /// Whether to say where the voluntary band plan differs.
    pub band_plan: bool,
    /// The dial the operator entered, for a radio that cannot report its own, hertz.
    pub dial_hz: Option<u64>,
    /// Log the basis of every permitted automatic-control transmission, not only refusals.
    pub log_permitted: bool,
}

impl Settings {
    /// No regulatory checks: what a test harness and a station on another administration's
    /// rules run under.
    pub fn unchecked() -> (r: Settings)
        ensures
            r.profile@ == "none"@,
            r.control == Some(ControlMode::Local),
            r.license is None,
            r.sideband == Some(Sideband::Usb),
            r.itu_region == 2,
            r.margin == 50_000,
            r.band_plan,
            r.dial_hz is None,
            !r.log_permitted,
    {
        Settings {
            profile: "none".to_owned(),
            control: Some(ControlMode::Local),
            license: None,
            sideband: Some(Sideband::Usb),
            itu_region: 2,
            margin: 50_000,
            band_plan: true,
            dial_hz: None,
            log_permitted: false,
        }
    }
}

/// Everything about the station the rules need, besides the transmission itself.
#[derive(Clone, Copy, PartialEq, Eq, Debug)]
pub struct Situation {
    /// The dial (the suppressed carrier), when known.
    pub dial: Option<Millihertz>,
    /// Where it came from.
    pub dial_source: Option<DialSource>,
    /// The sideband, when set.
    pub sideband: Option<Sideband>,
    /// How the station is controlled, when set.
    pub control: Option<ControlMode>,
    /// The operator's class, when set.
    pub license: Option<LicenseClass>,
    /// The ITU region the station is in.
    pub itu_region: u8,
    /// Room kept between the occupied edges and a segment's: frequency error, and the
    /// radio's own transmit chain.
    pub margin: Millihertz,
    /// Whether to say where the voluntary band plan differs.
    pub band_plan: bool,
    /// The transmitter's power, thousandths of a watt, when the operator said.
    pub power_mw: Option<i64>,
}

impl Default for Situation {
    /// A station nothing is known of.
    fn default() -> (r: Situation)
        ensures
            r.dial is None,
            r.dial_source is None,
            r.sideband is None,
            r.control is None,
            r.license is None,
            r.itu_region == 0,
            r.margin == 0,
            !r.band_plan,
            r.power_mw is None,
    {
        Situation {
            dial: None,
            dial_source: None,
            sideband: None,
            control: None,
            license: None,
            itu_region: 0,
            margin: 0,
            band_plan: false,
            power_mw: None,
        }
    }
}

/// A transmission to judge.
#[derive(Clone, PartialEq, Debug)]
pub struct Transmission {
    /// What it is, in words: "a data burst at rung 7 (BPSK-1/3)".
    pub what: String,
    /// How the rules class it.
    pub kind: EmissionKind,
    /// The audio it occupies, absolute.
    pub audio: Edges,
    /// Who began the exchange.
    pub direction: Direction,
}

/// What a transmission is.
pub struct Emission {
    pub what: Seq<char>,
    pub kind: EmissionKind,
    pub audio: Edges,
    pub direction: Direction,
}

impl View for Transmission {
    type V = Emission;

    open spec fn view(&self) -> Emission {
        Emission { what: self.what@, kind: self.kind, audio: self.audio, direction: self.direction }
    }
}

/// The policy's answer.
#[derive(Clone, Copy, PartialEq, Eq, Structural, Debug)]
pub enum Verdict {
    /// Permitted.
    Legal,
    /// Permitted, with something the operator should know: outside the voluntary band plan,
    /// or a power limit that applies.
    Warning,
    /// Not permitted: nothing is sent.
    Blocked,
}

/// A decision and everything that went into it: for the indicator, the log and the
/// diagnostics panel.
#[derive(PartialEq, Debug)]
pub struct Decision {
    /// The verdict.
    pub verdict: Verdict,
    /// A word for the reason, for a program: `permitted`, `outside_data_segment`, …
    pub code: &'static str,
    /// The rule that decided.
    pub rule: String,
    /// One line, for the indicator.
    pub summary: String,
    /// The reasoning, with the numbers.
    pub detail: String,
    /// What was judged.
    pub what: String,
    /// How the rules class it.
    pub kind: EmissionKind,
    /// Who began the exchange.
    pub direction: Direction,
    /// The dial.
    pub dial: Option<Millihertz>,
    /// Where it came from.
    pub dial_source: Option<DialSource>,
    /// The sideband.
    pub sideband: Option<Sideband>,
    /// The station's control.
    pub control: Option<ControlMode>,
    /// The operator's class.
    pub license: Option<LicenseClass>,
    /// The occupied audio, as the profile reads bandwidth.
    pub audio_low: Millihertz,
    /// Its upper edge.
    pub audio_high: Millihertz,
    /// The occupied RF range, when the dial is known.
    pub rf_low: Option<i128>,
    /// Its upper edge.
    pub rf_high: Option<i128>,
    /// The occupied bandwidth.
    pub bandwidth: i128,
    /// The room kept at a segment's edges.
    pub margin: Millihertz,
    /// The band.
    pub band: Option<String>,
    /// The segment the transmission is judged against.
    pub segment: Option<Range>,
    /// That segment's rule.
    pub segment_rule: Option<String>,
    /// The §97.221(b) segment, for an automatically controlled station inside one.
    pub automatic_segment: Option<Range>,
    /// What the voluntary band plan says, when it was asked.
    pub guidance: Option<String>,
    /// Anything else the operator should know.
    pub notes: Vec<String>,
}

/// What a decision is.
pub struct Ruling {
    pub verdict: Verdict,
    pub code: Seq<char>,
    pub rule: Seq<char>,
    pub summary: Seq<char>,
    pub detail: Seq<char>,
    pub what: Seq<char>,
    pub kind: EmissionKind,
    pub direction: Direction,
    pub dial: Option<Millihertz>,
    pub dial_source: Option<DialSource>,
    pub sideband: Option<Sideband>,
    pub control: Option<ControlMode>,
    pub license: Option<LicenseClass>,
    pub audio: (int, int),
    pub rf: Option<(int, int)>,
    pub bandwidth: int,
    pub margin: Millihertz,
    pub band: Option<Seq<char>>,
    pub segment: Option<Range>,
    pub segment_rule: Option<Seq<char>>,
    pub automatic_segment: Option<Range>,
    pub guidance: Option<Seq<char>>,
    pub notes: Seq<Seq<char>>,
}

/// What an optional text is.
pub open spec fn text_of_option(o: Option<String>) -> Option<Seq<char>> {
    match o {
        Some(s) => Some(s@),
        None => None,
    }
}

impl View for Decision {
    type V = Ruling;

    open spec fn view(&self) -> Ruling {
        Ruling {
            verdict: self.verdict,
            code: self.code@,
            rule: self.rule@,
            summary: self.summary@,
            detail: self.detail@,
            what: self.what@,
            kind: self.kind,
            direction: self.direction,
            dial: self.dial,
            dial_source: self.dial_source,
            sideband: self.sideband,
            control: self.control,
            license: self.license,
            audio: (self.audio_low as int, self.audio_high as int),
            rf: match (self.rf_low, self.rf_high) {
                (Some(low), Some(high)) => Some((low as int, high as int)),
                _ => None,
            },
            bandwidth: self.bandwidth as int,
            margin: self.margin,
            band: text_of_option(self.band),
            segment: self.segment,
            segment_rule: text_of_option(self.segment_rule),
            automatic_segment: self.automatic_segment,
            guidance: text_of_option(self.guidance),
            notes: views(self.notes@),
        }
    }
}

fn copy(s: &Option<String>) -> (r: Option<String>)
    ensures
        text_of_option(r) == text_of_option(*s),
{
    match s {
        Some(x) => Some(x.clone()),
        None => None,
    }
}

impl Clone for Decision {
    fn clone(&self) -> (r: Self)
        ensures
            r@ == self@,
    {
        Decision {
            verdict: self.verdict,
            code: self.code,
            rule: self.rule.clone(),
            summary: self.summary.clone(),
            detail: self.detail.clone(),
            what: self.what.clone(),
            kind: self.kind,
            direction: self.direction,
            dial: self.dial,
            dial_source: self.dial_source,
            sideband: self.sideband,
            control: self.control,
            license: self.license,
            audio_low: self.audio_low,
            audio_high: self.audio_high,
            rf_low: self.rf_low,
            rf_high: self.rf_high,
            bandwidth: self.bandwidth,
            margin: self.margin,
            band: copy(&self.band),
            segment: self.segment,
            segment_rule: copy(&self.segment_rule),
            automatic_segment: self.automatic_segment,
            guidance: copy(&self.guidance),
            notes: clone_texts(&self.notes),
        }
    }
}

impl Ruling {
    /// Whether the transmission may go.
    pub open spec fn allows(self) -> bool {
        self.verdict != Verdict::Blocked
    }
}

impl Decision {
    /// Whether the transmission may go.
    pub fn allowed(&self) -> (r: bool)
        ensures
            r == self@.allows(),
    {
        self.verdict != Verdict::Blocked
    }
}

/// Leave to transmit. Made only by [`Policy::authorize`], so a transmission the policy has
/// not judged cannot key the radio: the station's keying path asks for one.
#[derive(PartialEq, Debug)]
pub struct Authorization {
    decision: Decision,
}

impl Authorization {
    /// Leave is only made of a decision that allows the transmission.
    #[verifier::type_invariant]
    spec fn lawful(self) -> bool {
        self.decision@.allows()
    }

    /// The decision it was made from.
    pub closed spec fn basis(self) -> Ruling {
        self.decision@
    }

    /// The decision it was made from, which allows the transmission.
    pub fn decision(&self) -> (r: &Decision)
        ensures
            r@ == self.basis(),
            r@.allows(),
    {
        proof {
            use_type_invariant(self);
        }
        &self.decision
    }
}

/// The fastest rung the rules allow, and why the one above it is not.
#[derive(Clone, PartialEq, Debug)]
pub struct Ceiling {
    /// The fastest rung allowed; `None` when none is.
    pub rung: Option<usize>,
    /// The refusal of the rung above it, when there is one.
    pub limit: Option<Decision>,
}

/// A dial range where a transmission fits a segment.
#[derive(Clone, PartialEq, Debug)]
pub struct SafeDial {
    /// The band.
    pub band: String,
    /// The segment it fits, as the rules name it.
    pub segment: Range,
    /// Why this segment: the rule.
    pub rule: String,
    /// The lowest dial.
    pub dial_low: i128,
    /// The highest dial.
    pub dial_high: i128,
}

/// What a dial range is.
pub struct Dial {
    pub band: Seq<char>,
    pub segment: Range,
    pub rule: Seq<char>,
    pub low: int,
    pub high: int,
}

impl View for SafeDial {
    type V = Dial;

    open spec fn view(&self) -> Dial {
        Dial {
            band: self.band@,
            segment: self.segment,
            rule: self.rule@,
            low: self.dial_low as int,
            high: self.dial_high as int,
        }
    }
}

/// The policy in force: an administration's rules, or the operator's word that none apply,
/// or, failing either, nothing is sent.
#[derive(Clone, Debug)]
pub enum Policy {
    /// No profile chosen yet: nothing is sent until one is.
    Unset,
    /// The operator has said no profile applies (another administration's rules): nothing is
    /// checked here, and the control operator checks everything.
    NoProfile,
    /// An administration's rules.
    Rules(Arc<Profile>),
    /// A profile that could not be loaded: nothing is sent.
    Broken(String),
}

/// The RF range an audio range covers on a dial and a sideband.
pub open spec fn on_air(dial: int, sideband: Sideband, audio: (int, int)) -> (int, int) {
    match sideband {
        Sideband::Usb => (dial + audio.0, dial + audio.1),
        Sideband::Lsb => (dial - audio.1, dial - audio.0),
    }
}

/// The RF range an audio range covers on a dial and a sideband: `dial + audio` on USB, and
/// mirrored, `dial − audio`, on LSB. The one place the conversion is made.
pub fn rf_range(dial: Millihertz, sideband: Sideband, audio_low: Millihertz, audio_high: Millihertz) -> (r: (i128, i128))
    ensures
        (r.0 as int, r.1 as int) == on_air(dial as int, sideband, (audio_low as int, audio_high as int)),
{
    match sideband {
        Sideband::Usb => (dial as i128 + audio_low as i128, dial as i128 + audio_high as i128),
        Sideband::Lsb => (dial as i128 - audio_high as i128, dial as i128 - audio_low as i128),
    }
}

/// The dial range that puts an audio range inside a segment with a margin to spare on each
/// side, if any does.
pub open spec fn dials_for(segment: Range, sideband: Sideband, audio: (int, int), margin: int) -> Option<(int, int)> {
    let (low, high) = match sideband {
        Sideband::Usb => (segment.low - audio.0 + margin, segment.high - audio.1 - margin),
        Sideband::Lsb => (segment.low + audio.1 + margin, segment.high + audio.0 - margin),
    };
    if low <= high { Some((low, high)) } else { None }
}

/// The dial range that puts an audio range inside `segment` with `margin` to spare on each
/// side, if any does.
pub fn dial_range(
    segment: Range,
    sideband: Sideband,
    audio_low: Millihertz,
    audio_high: Millihertz,
    margin: Millihertz,
) -> (r: Option<(i128, i128)>)
    ensures
        match r {
            Some(d) => dials_for(segment, sideband, (audio_low as int, audio_high as int), margin as int)
                == Some((d.0 as int, d.1 as int)) && -100_000_000_000_000_000_000 < d.0 && d.1
                < 100_000_000_000_000_000_000,
            None => dials_for(segment, sideband, (audio_low as int, audio_high as int), margin as int) is None,
        },
{
    let (low, high): (i128, i128) = match sideband {
        Sideband::Usb => (
            segment.low as i128 - audio_low as i128 + margin as i128,
            segment.high as i128 - audio_high as i128 - margin as i128,
        ),
        Sideband::Lsb => (
            segment.low as i128 + audio_high as i128 + margin as i128,
            segment.high as i128 + audio_low as i128 - margin as i128,
        ),
    };
    if low <= high { Some((low, high)) } else { None }
}

/// The overlap of two ranges, if they have one.
pub open spec fn overlap(a: Range, b: Range) -> Option<Range> {
    let low = greatest(a.low as int, b.low as int);
    let high = least(a.high as int, b.high as int);
    if low < high { Some(Range { low: low as i64, high: high as i64 }) } else { None }
}

/// The overlap of two ranges, if they have one.
pub fn intersect(a: Range, b: Range) -> (r: Option<Range>)
    ensures
        r == overlap(a, b),
{
    let low: i64 = if a.low >= b.low { a.low } else { b.low };
    let high: i64 = if a.high <= b.high { a.high } else { b.high };
    if low < high { Some(Range { low, high }) } else { None }
}

/// The privileges of a class.
pub open spec fn privileges_for(profile: Profile, license: LicenseClass) -> Seq<Privilege> {
    match license {
        LicenseClass::Extra => profile.privileges.extra@,
        LicenseClass::Advanced => profile.privileges.advanced@,
        LicenseClass::General => profile.privileges.general@,
        LicenseClass::Technician => profile.privileges.technician@,
        LicenseClass::Novice => profile.privileges.novice@,
    }
}

/// The privileges of a class.
pub fn privileges_of(profile: &Profile, license: LicenseClass) -> (r: &Vec<Privilege>)
    ensures
        r@ == privileges_for(*profile, license),
{
    match license {
        LicenseClass::Extra => &profile.privileges.extra,
        LicenseClass::Advanced => &profile.privileges.advanced,
        LicenseClass::General => &profile.privileges.general,
        LicenseClass::Technician => &profile.privileges.technician,
        LicenseClass::Novice => &profile.privileges.novice,
    }
}

/// Half of a width, without its remainder.
pub open spec fn half(width: i64) -> int {
    if width < 0 { -((-width) / 2) } else { width as int / 2 }
}

/// The range of a 60 m channel: its width, half on each side of its centre.
pub open spec fn channel_span(channels: Channels, channel: Channel) -> Range {
    Range {
        low: clip(channel.center - half(channels.width)) as i64,
        high: clip(channel.center + half(channels.width)) as i64,
    }
}

/// The range of a 60 m channel.
pub fn channel_range(channels: &Channels, channel: Channel) -> (r: Range)
    ensures
        r == channel_span(*channels, channel),
{
    let w: i128 = channels.width as i128;
    let h: i128 = if w < 0 { -((-w) / 2) } else { w / 2 };
    Range { low: clipped(channel.center as i128 - h), high: clipped(channel.center as i128 + h) }
}

/// Whether a policy is the one a setting names, where `document` is what reading the file of the
/// one known profile gave.
pub open spec fn is_policy_named(policy: Policy, id: Seq<char>, document: Result<Profile, String>) -> bool {
    if trimmed(id) == ""@ {
        policy is Unset
    } else if trimmed(id) == "none"@ {
        policy is NoProfile
    } else if trimmed(id) != US_FCC_PART97@ {
        policy matches Policy::Broken(e) && e@ == "there is no regulatory profile called "@ + quoted(trimmed(id))
    } else {
        match document {
            Err(why) => policy matches Policy::Broken(e) && e@ == "the "@ + trimmed(id)
                + " regulatory profile is malformed: "@ + why@,
            Ok(profile) => match profile.fault() {
                None => policy matches Policy::Rules(p) && *p == profile,
                Some(fault) => policy matches Policy::Broken(e) && e@ == fault,
            },
        }
    }
}

impl Policy {
    /// How the policy reads bandwidth: the conservative way where it has no profile to say.
    pub open spec fn reads(self) -> Reading {
        match self {
            Policy::Rules(profile) => profile.bandwidth.reading,
            _ => Reading::Wider,
        }
    }

    /// What the policy says of a transmission.
    pub open spec fn ruling(self, s: Situation, tx: Emission) -> Ruling {
        let facts = sketch(s, tx, self.reads());
        match self {
            Policy::Unset => facts.close(
                Verdict::Blocked,
                "no_profile"@,
                ""@,
                "TX BLOCKED: choose a regulatory profile (Setup, step 1)"@,
                "Aether does not know which rules this station operates under. Choose the United States (FCC Part 97) profile, or \"none\" if another administration's rules apply and you will check every transmission yourself."@,
            ),
            Policy::Broken(error) => facts.close(
                Verdict::Blocked,
                "profile_broken"@,
                ""@,
                "TX BLOCKED: the regulatory profile could not be read"@,
                error@ + ". Nothing is sent until it can be."@,
            ),
            Policy::NoProfile => facts.close(
                Verdict::Legal,
                "no_rules"@,
                ""@,
                "No regulatory profile: you check every transmission"@,
                "The operator has chosen no regulatory profile: Aether makes no regulatory checks, and the control operator is responsible for every transmission."@,
            ),
            Policy::Rules(profile) => rules_ruling(*profile, s, tx, facts),
        }
    }

    /// The policy a setting names, where `document` is what reading the file of the one known
    /// profile gave: `""` unset, `"none"`, or a profile's identifier.
    pub fn from_setting(id: &str, document: Result<Profile, String>) -> (r: Policy)
        ensures
            is_policy_named(r, id@, document),
    {
        let id = trim(id);
        proof {
            reveal_strlit("");
            reveal_strlit("none");
            assert(""@.len() == 0);
            assert("none"@.len() == 4);
        }
        if same(&id, "") {
            Policy::Unset
        } else if same(&id, "none") {
            Policy::NoProfile
        } else {
            match load(&id, document) {
                Ok(profile) => Policy::Rules(Arc::new(profile)),
                Err(error) => Policy::Broken(error),
            }
        }
    }

    /// The profile's identifier, or what stands in for one.
    pub fn id(&self) -> (r: &str)
        ensures
            r@ == match *self {
                Policy::Unset => ""@,
                Policy::NoProfile => "none"@,
                Policy::Rules(profile) => profile.id@,
                Policy::Broken(_) => "broken"@,
            },
    {
        match self {
            Policy::Unset => "",
            Policy::NoProfile => "none",
            Policy::Rules(profile) => profile.id.as_str(),
            Policy::Broken(_) => "broken",
        }
    }

    /// The profile, when rules apply.
    pub fn profile(&self) -> (r: Option<&Profile>)
        ensures
            r == match *self {
                Policy::Rules(profile) => Some(&*profile),
                _ => None,
            },
    {
        match self {
            Policy::Rules(profile) => Some(&**profile),
            _ => None,
        }
    }

    /// The fastest an automatic Morse identifier may be sent, thousandths of a word per
    /// minute, when the rules say.
    pub fn cw_id_max_milli_wpm(&self) -> (r: Option<u64>)
        ensures
            r == match *self {
                Policy::Rules(profile) => match profile.cw_id {
                    Some(limit) => Some(limit.max_milli_wpm),
                    None => None,
                },
                _ => None,
            },
    {
        match self {
            Policy::Rules(profile) => match &profile.cw_id {
                Some(limit) => Some(limit.max_milli_wpm),
                None => None,
            },
            _ => None,
        }
    }

    fn reading(&self) -> (r: Reading)
        ensures
            r == self.reads(),
    {
        match self {
            Policy::Rules(profile) => profile.bandwidth.reading,
            _ => Reading::Wider,
        }
    }

    /// Judge a transmission, and hand back leave to send it when it may go: the refusal, when
    /// it may not.
    pub fn authorize(&self, s: &Situation, tx: &Transmission) -> (r: Result<Authorization, Box<Decision>>)
        ensures
            match r {
                Ok(leave) => self.ruling(*s, tx@).allows() && leave.basis() == self.ruling(*s, tx@),
                Err(refusal) => !self.ruling(*s, tx@).allows() && (*refusal)@ == self.ruling(*s, tx@),
            },
    {
        let decision = self.evaluate(s, tx);
        if decision.allowed() {
            Ok(Authorization { decision })
        } else {
            Err(Box::new(decision))
        }
    }

    /// Judge a transmission.
    pub fn evaluate(&self, s: &Situation, tx: &Transmission) -> (r: Decision)
        ensures
            r@ == self.ruling(*s, tx@),
    {
        let draft = Draft::new(s, tx, self.reading());
        match self {
            Policy::Unset => draft.finish(
                Verdict::Blocked,
                "no_profile",
                "",
                "TX BLOCKED: choose a regulatory profile (Setup, step 1)",
                "Aether does not know which rules this station operates under. Choose the United States (FCC Part 97) profile, or \"none\" if another administration's rules apply and you will check every transmission yourself.",
            ),
            Policy::Broken(error) => {
                let detail = cat(error, ". Nothing is sent until it can be.");
                draft.finish(
                    Verdict::Blocked,
                    "profile_broken",
                    "",
                    "TX BLOCKED: the regulatory profile could not be read",
                    &detail,
                )
            },
            Policy::NoProfile => draft.finish(
                Verdict::Legal,
                "no_rules",
                "",
                "No regulatory profile: you check every transmission",
                "The operator has chosen no regulatory profile: Aether makes no regulatory checks, and the control operator is responsible for every transmission.",
            ),
            Policy::Rules(profile) => evaluate(profile, s, tx, draft),
        }
    }

    /// What is said of a transmission whose spectrum is not known.
    pub open spec fn unmeasured_ruling(self, s: Situation, what: Seq<char>, why: Seq<char>) -> Ruling {
        let nothing = Edges { power: (0, 0), spectral: (0, 0) };
        sketch(
            s,
            Emission { what, kind: EmissionKind::Data, audio: nothing, direction: Direction::Originate },
            self.reads(),
        ).close(
            Verdict::Blocked,
            "unmeasured"@,
            ""@,
            "TX BLOCKED: the signal's spectrum is not known"@,
            why + ". Without it Aether cannot say where the signal lands."@,
        )
    }

    /// The refusal of a transmission whose spectrum is not known: nothing is measured for it,
    /// so nothing says where it would land.
    pub fn unmeasured(&self, s: &Situation, what: &str, why: &str) -> (r: Decision)
        ensures
            r@ == self.unmeasured_ruling(*s, what@, why@),
    {
        let tx = Transmission {
            what: what.to_owned(),
            kind: EmissionKind::Data,
            audio: Edges::tone(0, 0),
            direction: Direction::Originate,
        };
        let detail = cat(why, ". Without it Aether cannot say where the signal lands.");
        Draft::new(s, &tx, self.reading()).finish(
            Verdict::Blocked,
            "unmeasured",
            "",
            "TX BLOCKED: the signal's spectrum is not known",
            &detail,
        )
    }

    /// The fastest rung of `air` the rules allow for a data exchange of `direction`: each
    /// rung judged with its control frame and every slower rung (so the answer is always a
    /// run from rung 0, and a rung's acknowledgements are as lawful as its data). `floors`
    /// says of each rung whether its control frames are the tone floor's.
    pub fn ceiling(&self, s: &Situation, air: &AirOccupancy, direction: Direction, floors: &Vec<bool>) -> (r: Ceiling)
        ensures
            ({
                let n = first_refused(*self, *s, *air, floors@, direction, 0);
                &&& r.rung == if n == 0 { None::<usize> } else { Some((n - 1) as usize) }
                &&& match r.limit {
                    Some(d) => n < air.rungs@.len() && d@ == self.ruling(*s, rung_emission(*air, floors@, n, direction)),
                    None => n == air.rungs@.len(),
                }
            }),
    {
        let mut best: Option<usize> = None;
        let mut index: usize = 0;
        if air.rungs.len() == 0 {
            return Ceiling { rung: None, limit: None };
        }
        let mut envelope: Edges = air.rungs[0].edges.union(air.control(floor_at(floors, 0)));
        while index < air.rungs.len()
            invariant
                index <= air.rungs.len(),
                0 < air.rungs@.len(),
                index < air.rungs.len() ==> envelope == ladder_edges(*air, floors@, index as nat),
                best == if index == 0 { None::<usize> } else { Some((index - 1) as usize) },
                forall|j: nat| j < index ==> self.ruling(*s, #[trigger] rung_emission(*air, floors@, j, direction)).allows(),
            decreases air.rungs.len() - index,
        {
            let mut what = cat("rung ", &whole(index as u128));
            what.append(" (");
            what.append(&air.rungs[index].name);
            what.append(")");
            let tx = Transmission { what, kind: EmissionKind::Data, audio: envelope, direction };
            let decision = self.evaluate(s, &tx);
            proof {
                assert(tx@ == rung_emission(*air, floors@, index as nat, direction));
            }
            if !decision.allowed() {
                proof {
                    lemma_first_refused(*self, *s, *air, floors@, direction, 0, index as nat);
                }
                return Ceiling { rung: best, limit: Some(decision) };
            }
            best = Some(index);
            index += 1;
            if index < air.rungs.len() {
                envelope = envelope.union(air.rungs[index].edges.union(air.control(floor_at(floors, index))));
            }
        }
        proof {
            lemma_first_refused(*self, *s, *air, floors@, direction, 0, index as nat);
        }
        Ceiling { rung: best, limit: None }
    }

    /// Every dial range where a data transmission occupying `audio` is lawful for this
    /// station: the data segments inside the operator's privileges (for an automatically
    /// controlled station, the §97.221(b) segments, or wherever §97.221(c) allows an answer
    /// that narrow) and the 60 m channels it fits. In the order of the lowest dial. None for a
    /// station in a region the profile does not cover, where nothing is lawful.
    pub fn safe_dials(&self, s: &Situation, audio: Edges, direction: Direction) -> (r: Vec<SafeDial>)
        ensures
            dial_views(r@) == self.lawful_dials(*s, audio, direction),
    {
        let profile = match self {
            Policy::Rules(profile) => profile,
            _ => return no_dials(),
        };
        let (sideband, license, control) = match (s.sideband, s.license, s.control) {
            (Some(sideband), Some(license), Some(control)) => (sideband, license, control),
            _ => return no_dials(),
        };
        if s.itu_region != profile.itu_region {
            return no_dials();
        }
        let (a_lo, a_hi): (i64, i64) = audio.range(profile.bandwidth.reading);
        let width: i128 = a_hi as i128 - a_lo as i128;
        let automatic: bool = control == ControlMode::Automatic && direction != Direction::Operator;
        let elsewhere_ok: bool = match &profile.automatic.elsewhere {
            Some(e) => width <= e.max_bandwidth as i128 && (direction == Direction::Respond || !e.requires_response),
            None => false,
        };
        let seek = Seek { sideband, a_lo, a_hi, margin: s.margin, automatic, elsewhere_ok };
        let privileges = privileges_of(profile, license);
        let mut out: Vec<SafeDial> = no_dials();
        let mut i: usize = 0;
        proof {
            assert(dial_views(out@) =~= segments_dials(**profile, privileges@, seek, 0));
        }
        while i < profile.data_segments.len()
            invariant
                i <= profile.data_segments.len(),
                dial_views(out@) == segments_dials(**profile, privileges@, seek, i as nat),
            decreases profile.data_segments.len() - i,
        {
            add_segment_dials(&mut out, profile, &profile.data_segments[i], privileges, seek);
            i += 1;
        }
        if let Some(channels) = &profile.channels {
            if !automatic && width <= profile.data.max_bandwidth as i128 && sideband == Sideband::Usb
                && reaches_channel(privileges, channels) {
                add_channel_dials(&mut out, channels, seek);
            }
        }
        sort_dials(out)
    }

    /// Every dial range where a data transmission is lawful for this station.
    pub open spec fn lawful_dials(self, s: Situation, audio: Edges, direction: Direction) -> Seq<Dial> {
        match (self, s.sideband, s.license, s.control) {
            (Policy::Rules(profile), Some(sideband), Some(license), Some(control)) => if s.itu_region
                != profile.itu_region {
                Seq::empty()
            } else {
                let seek = seek_for(*profile, s, audio, direction, sideband, control);
                let privileges = privileges_for(*profile, license);
                let on_segments = segments_dials(*profile, privileges, seek, profile.data_segments@.len());
                let on_channels = match profile.channels {
                    Some(channels) => if !seek.automatic && seek.a_hi - seek.a_lo <= profile.data.max_bandwidth
                        && sideband == Sideband::Usb && channel_reached(privileges, channels) {
                        channels_dials(channels, seek, channels.list@.len())
                    } else {
                        Seq::empty()
                    },
                    None => Seq::empty(),
                };
                in_dial_order(on_segments + on_channels)
            },
            _ => Seq::empty(),
        }
    }
}

/// Whether a rung's control frames are the tone floor's.
pub open spec fn is_floor(floors: Seq<bool>, rung: nat) -> bool {
    rung < floors.len() && floors[rung as int]
}

fn floor_at(floors: &Vec<bool>, rung: usize) -> (r: bool)
    ensures
        r == is_floor(floors@, rung as nat),
{
    rung < floors.len() && floors[rung]
}

/// What a rung and every slower one occupy, with their control frames.
pub open spec fn ladder_edges(air: AirOccupancy, floors: Seq<bool>, rung: nat) -> Edges
    decreases rung,
{
    let own = air.rungs@[rung as int].edges.with(air.controls(is_floor(floors, rung)));
    if rung == 0 {
        own
    } else {
        ladder_edges(air, floors, (rung - 1) as nat).with(own)
    }
}

/// What a rung is, judged with every slower one.
pub open spec fn rung_emission(air: AirOccupancy, floors: Seq<bool>, rung: nat, direction: Direction) -> Emission {
    Emission {
        what: "rung "@ + digits(rung) + " ("@ + air.rungs@[rung as int].name@ + ")"@,
        kind: EmissionKind::Data,
        audio: ladder_edges(air, floors, rung),
        direction,
    }
}

/// The first rung, from `from` on, that the policy refuses.
pub open spec fn first_refused(
    policy: Policy,
    s: Situation,
    air: AirOccupancy,
    floors: Seq<bool>,
    direction: Direction,
    from: nat,
) -> nat
    decreases air.rungs@.len() - from,
{
    if from >= air.rungs@.len() || !policy.ruling(s, rung_emission(air, floors, from, direction)).allows() {
        from
    } else {
        first_refused(policy, s, air, floors, direction, from + 1)
    }
}

proof fn lemma_first_refused(
    policy: Policy,
    s: Situation,
    air: AirOccupancy,
    floors: Seq<bool>,
    direction: Direction,
    from: nat,
    n: nat,
)
    requires
        from <= n <= air.rungs@.len(),
        n < air.rungs@.len() ==> !policy.ruling(s, rung_emission(air, floors, n, direction)).allows(),
        forall|j: nat| from <= j < n ==> policy.ruling(s, #[trigger] rung_emission(air, floors, j, direction)).allows(),
    ensures
        first_refused(policy, s, air, floors, direction, from) == n,
    decreases n - from,
{
    if from < n {
        assert(policy.ruling(s, rung_emission(air, floors, from, direction)).allows());
        lemma_first_refused(policy, s, air, floors, direction, from + 1, n);
    }
}

/// What a search for dials goes by.
#[derive(Clone, Copy)]
pub struct Seek {
    /// The sideband.
    pub sideband: Sideband,
    /// The lower audio edge.
    pub a_lo: Millihertz,
    /// The upper audio edge.
    pub a_hi: Millihertz,
    /// Room kept at the edges.
    pub margin: Millihertz,
    /// Whether §97.221 applies.
    pub automatic: bool,
    /// Whether §97.221(c) allows this transmission outside the §97.221(b) segments.
    pub elsewhere_ok: bool,
}

/// What a search for dials goes by.
pub open spec fn seek_for(
    profile: Profile,
    s: Situation,
    audio: Edges,
    direction: Direction,
    sideband: Sideband,
    control: ControlMode,
) -> Seek {
    let (low, high) = audio.under(profile.bandwidth.reading);
    Seek {
        sideband,
        a_lo: low as i64,
        a_hi: high as i64,
        margin: s.margin,
        automatic: control == ControlMode::Automatic && direction != Direction::Operator,
        elsewhere_ok: match profile.automatic.elsewhere {
            Some(e) => high - low <= e.max_bandwidth && (direction == Direction::Respond || !e.requires_response),
            None => false,
        },
    }
}

/// What a run of dial ranges is.
pub open spec fn dial_views(s: Seq<SafeDial>) -> Seq<Dial> {
    s.map_values(|d: SafeDial| d@)
}

fn no_dials() -> (r: Vec<SafeDial>)
    ensures
        dial_views(r@) == Seq::<Dial>::empty(),
        r@.len() == 0,
{
    let r: Vec<SafeDial> = Vec::new();
    proof {
        assert(dial_views(r@) =~= Seq::empty());
    }
    r
}

/// The dial range a piece of a segment gives, if any.
pub open spec fn piece_dials(band: Seq<char>, range: Range, rule: Seq<char>, seek: Seek) -> Seq<Dial> {
    match dials_for(range, seek.sideband, (seek.a_lo as int, seek.a_hi as int), seek.margin as int) {
        Some(d) => seq![Dial { band, segment: range, rule, low: d.0, high: d.1 }],
        None => Seq::empty(),
    }
}

fn add_piece_dials(out: &mut Vec<SafeDial>, band: &str, range: Range, rule: &str, seek: Seek)
    ensures
        dial_views(final(out)@) == dial_views(old(out)@) + piece_dials(band@, range, rule@, seek),
{
    let ghost before = out@;
    match dial_range(range, seek.sideband, seek.a_lo, seek.a_hi, seek.margin) {
        Some(d) => {
            out.push(
                SafeDial {
                    band: band.to_owned(),
                    segment: range,
                    rule: rule.to_owned(),
                    dial_low: d.0,
                    dial_high: d.1,
                },
            );
        },
        None => {},
    }
    proof {
        assert(dial_views(out@) =~= dial_views(before) + piece_dials(band@, range, rule@, seek));
    }
}

/// The dial ranges the first `n` automatic-control segments give inside a range.
pub open spec fn automatic_dials(profile: Profile, band: Seq<char>, inter: Range, seek: Seek, n: nat) -> Seq<Dial>
    decreases n,
{
    if n == 0 {
        Seq::empty()
    } else {
        automatic_dials(profile, band, inter, seek, (n - 1) as nat) + match overlap(
            inter,
            profile.automatic.segments@[n - 1],
        ) {
            Some(range) => piece_dials(band, range, profile.automatic.segments_rule@, seek),
            None => Seq::empty(),
        }
    }
}

/// The dial ranges a segment gives inside one privilege.
pub open spec fn privilege_dials(profile: Profile, segment: Segment, privilege: Privilege, seek: Seek) -> Seq<Dial> {
    if !privilege.permits("data"@) {
        Seq::empty()
    } else {
        match overlap(segment.range, privilege.range) {
            None => Seq::empty(),
            Some(inter) => if seek.automatic && !seek.elsewhere_ok {
                automatic_dials(profile, segment.band@, inter, seek, profile.automatic.segments@.len())
            } else {
                piece_dials(segment.band@, inter, segment.rule@, seek)
            },
        }
    }
}

/// The dial ranges a segment gives inside the first `n` privileges.
pub open spec fn privileges_dials(
    profile: Profile,
    segment: Segment,
    privileges: Seq<Privilege>,
    seek: Seek,
    n: nat,
) -> Seq<Dial>
    decreases n,
{
    if n == 0 {
        Seq::empty()
    } else {
        privileges_dials(profile, segment, privileges, seek, (n - 1) as nat) + privilege_dials(
            profile,
            segment,
            privileges[n - 1],
            seek,
        )
    }
}

/// Whether a band is one where automatic control is not allowed at all.
pub open spec fn excluded_band(profile: Profile, band: Seq<char>) -> bool {
    exists|i: int| 0 <= i < profile.automatic.excluded_bands@.len() && (#[trigger] profile.automatic.excluded_bands@[i]).band@ == band
}

/// The dial ranges a segment gives.
pub open spec fn segment_dials(profile: Profile, segment: Segment, privileges: Seq<Privilege>, seek: Seek) -> Seq<Dial> {
    if seek.a_hi - seek.a_lo > segment.limit(profile.data).0 || (seek.automatic && excluded_band(profile, segment.band@)) {
        Seq::empty()
    } else {
        privileges_dials(profile, segment, privileges, seek, privileges.len())
    }
}

/// The dial ranges the first `n` data segments give.
pub open spec fn segments_dials(profile: Profile, privileges: Seq<Privilege>, seek: Seek, n: nat) -> Seq<Dial>
    decreases n,
{
    if n == 0 {
        Seq::empty()
    } else {
        segments_dials(profile, privileges, seek, (n - 1) as nat) + segment_dials(
            profile,
            profile.data_segments@[n - 1],
            privileges,
            seek,
        )
    }
}

fn is_excluded(profile: &Profile, band: &str) -> (r: bool)
    ensures
        r == excluded_band(*profile, band@),
{
    let mut i: usize = 0;
    while i < profile.automatic.excluded_bands.len()
        invariant
            i <= profile.automatic.excluded_bands.len(),
            forall|j: int| 0 <= j < i ==> (#[trigger] profile.automatic.excluded_bands@[j]).band@ != band@,
        decreases profile.automatic.excluded_bands.len() - i,
    {
        if same(&profile.automatic.excluded_bands[i].band, band) {
            return true;
        }
        i += 1;
    }
    false
}

fn add_privilege_dials(out: &mut Vec<SafeDial>, profile: &Profile, segment: &Segment, privilege: &Privilege, seek: Seek)
    ensures
        dial_views(final(out)@) == dial_views(old(out)@) + privilege_dials(*profile, *segment, *privilege, seek),
{
    let ghost start = dial_views(out@);
    proof {
        assert(start =~= start + Seq::<Dial>::empty());
    }
    if !privilege.allows("data") {
        return;
    }
    let inter: Range = match intersect(segment.range, privilege.range) {
        Some(inter) => inter,
        None => return,
    };
    if seek.automatic && !seek.elsewhere_ok {
        let mut i: usize = 0;
        while i < profile.automatic.segments.len()
            invariant
                i <= profile.automatic.segments.len(),
                dial_views(out@) == start + automatic_dials(*profile, segment.band@, inter, seek, i as nat),
            decreases profile.automatic.segments.len() - i,
        {
            let ghost so_far = automatic_dials(*profile, segment.band@, inter, seek, i as nat);
            match intersect(inter, profile.automatic.segments[i]) {
                Some(range) => {
                    add_piece_dials(out, &segment.band, range, &profile.automatic.segments_rule, seek);
                },
                None => {},
            }
            proof {
                let more = match overlap(inter, profile.automatic.segments@[i as int]) {
                    Some(range) => piece_dials(segment.band@, range, profile.automatic.segments_rule@, seek),
                    None => Seq::empty(),
                };
                assert(dial_views(out@) =~= start + (so_far + more));
            }
            i += 1;
        }
    } else {
        add_piece_dials(out, &segment.band, inter, &segment.rule, seek);
    }
}

fn add_segment_dials(out: &mut Vec<SafeDial>, profile: &Profile, segment: &Segment, privileges: &Vec<Privilege>, seek: Seek)
    ensures
        dial_views(final(out)@) == dial_views(old(out)@) + segment_dials(*profile, *segment, privileges@, seek),
{
    let ghost start = dial_views(out@);
    proof {
        assert(start =~= start + Seq::<Dial>::empty());
    }
    if seek.a_hi as i128 - seek.a_lo as i128 > segment.data_limit(&profile.data).0 as i128 {
        return;
    }
    if seek.automatic && is_excluded(profile, &segment.band) {
        return;
    }
    let mut i: usize = 0;
    while i < privileges.len()
        invariant
            i <= privileges.len(),
            dial_views(out@) == start + privileges_dials(*profile, *segment, privileges@, seek, i as nat),
        decreases privileges.len() - i,
    {
        let ghost so_far = privileges_dials(*profile, *segment, privileges@, seek, i as nat);
        add_privilege_dials(out, profile, segment, &privileges[i], seek);
        proof {
            assert(dial_views(out@) =~= start + (so_far + privilege_dials(*profile, *segment, privileges@[i as int], seek)));
        }
        i += 1;
    }
}

/// Whether one of the privileges allows data on the centre of one of the channels.
pub open spec fn channel_reached(privileges: Seq<Privilege>, channels: Channels) -> bool {
    exists|i: int, j: int|
        0 <= i < privileges.len() && 0 <= j < channels.list@.len() && (#[trigger] privileges[i]).range.keeps(
            (#[trigger] channels.list@[j]).center as int,
            channels.list@[j].center as int,
        ) && privileges[i].permits("data"@)
}

fn reaches_channel(privileges: &Vec<Privilege>, channels: &Channels) -> (r: bool)
    ensures
        r == channel_reached(privileges@, *channels),
{
    let mut i: usize = 0;
    while i < privileges.len()
        invariant
            i <= privileges.len(),
            forall|k: int, j: int|
                0 <= k < i && 0 <= j < channels.list@.len() ==> !((#[trigger] privileges@[k]).range.keeps(
                    (#[trigger] channels.list@[j]).center as int,
                    channels.list@[j].center as int,
                ) && privileges@[k].permits("data"@)),
        decreases privileges.len() - i,
    {
        let allows: bool = privileges[i].allows("data");
        let mut j: usize = 0;
        while j < channels.list.len()
            invariant
                i < privileges.len(),
                j <= channels.list.len(),
                allows == privileges@[i as int].permits("data"@),
                forall|m: int|
                    0 <= m < j ==> !(privileges@[i as int].range.keeps(
                        (#[trigger] channels.list@[m]).center as int,
                        channels.list@[m].center as int,
                    ) && allows),
            decreases channels.list.len() - j,
        {
            let centre: i128 = channels.list[j].center as i128;
            if allows && privileges[i].range.holds(centre, centre) {
                return true;
            }
            j += 1;
        }
        i += 1;
    }
    false
}

/// The dials the first `n` channels give: the carrier's place, when the signal fits there.
pub open spec fn channels_dials(channels: Channels, seek: Seek, n: nat) -> Seq<Dial>
    decreases n,
{
    if n == 0 {
        Seq::empty()
    } else {
        let channel = channels.list@[n - 1];
        let dial = channel.center - channels.carrier_offset;
        let range = channel_span(channels, channel);
        let rf = on_air(dial, seek.sideband, (seek.a_lo as int, seek.a_hi as int));
        channels_dials(channels, seek, (n - 1) as nat) + if range.keeps(rf.0 - seek.margin, rf.1 + seek.margin) {
            seq![Dial { band: channels.band@, segment: range, rule: channels.rule@, low: dial, high: dial }]
        } else {
            Seq::empty()
        }
    }
}

fn add_channel_dials(out: &mut Vec<SafeDial>, channels: &Channels, seek: Seek)
    ensures
        dial_views(final(out)@) == dial_views(old(out)@) + channels_dials(*channels, seek, channels.list@.len()),
{
    let ghost start = dial_views(out@);
    let mut i: usize = 0;
    proof {
        assert(start =~= start + Seq::<Dial>::empty());
    }
    while i < channels.list.len()
        invariant
            i <= channels.list.len(),
            dial_views(out@) == start + channels_dials(*channels, seek, i as nat),
        decreases channels.list.len() - i,
    {
        let ghost so_far = channels_dials(*channels, seek, i as nat);
        let ghost before = out@;
        let dial: i128 = channels.list[i].center as i128 - channels.carrier_offset as i128;
        let range = channel_range(channels, channels.list[i]);
        let (lo, hi): (i128, i128) = match seek.sideband {
            Sideband::Usb => (dial + seek.a_lo as i128, dial + seek.a_hi as i128),
            Sideband::Lsb => (dial - seek.a_hi as i128, dial - seek.a_lo as i128),
        };
        if range.holds(lo - seek.margin as i128, hi + seek.margin as i128) {
            out.push(
                SafeDial {
                    band: channels.band.clone(),
                    segment: range,
                    rule: channels.rule.clone(),
                    dial_low: dial,
                    dial_high: dial,
                },
            );
            proof {
                assert(dial_views(out@) =~= dial_views(before).push(out@.last()@));
            }
        }
        proof {
            let more = if out@.len() > before.len() { seq![out@.last()@] } else { Seq::empty() };
            assert(dial_views(out@) =~= start + (so_far + more));
        }
        i += 1;
    }
}

/// A dial range put into a run of them that is in order, after every one that is no higher.
pub open spec fn placed_dial(s: Seq<Dial>, d: Dial) -> Seq<Dial>
    decreases s.len(),
{
    if s.len() == 0 {
        seq![d]
    } else if s.last().low <= d.low {
        s.push(d)
    } else {
        placed_dial(s.drop_last(), d).push(s.last())
    }
}

/// Dial ranges by their lowest dial, those of the same one in the order they were in.
pub open spec fn in_dial_order(s: Seq<Dial>) -> Seq<Dial>
    decreases s.len(),
{
    if s.len() == 0 {
        Seq::empty()
    } else {
        placed_dial(in_dial_order(s.drop_last()), s.last())
    }
}

proof fn lemma_placed_dial(s: Seq<Dial>, d: Dial, at: int)
    requires
        0 <= at <= s.len(),
        forall|i: int| at <= i < s.len() ==> (#[trigger] s[i]).low > d.low,
        at > 0 ==> s[at - 1].low <= d.low,
    ensures
        placed_dial(s, d) == s.insert(at, d),
    decreases s.len(),
{
    if s.len() == 0 {
        assert(s.insert(0, d) =~= seq![d]);
    } else if at == s.len() {
        assert(s.insert(at, d) =~= s.push(d));
    } else {
        assert(s.last().low > d.low);
        let rest = s.drop_last();
        if at > 0 {
            assert(rest[at - 1] == s[at - 1]);
        }
        assert forall|i: int| at <= i < rest.len() implies (#[trigger] rest[i]).low > d.low by {
            assert(rest[i] == s[i]);
        }
        lemma_placed_dial(rest, d, at);
        assert(rest.insert(at, d).push(s.last()) =~= s.insert(at, d));
    }
}

fn sort_dials(items: Vec<SafeDial>) -> (r: Vec<SafeDial>)
    ensures
        dial_views(r@) == in_dial_order(dial_views(items@)),
{
    let ghost all = items@;
    let ghost target = dial_views(items@);
    let mut items = items;
    let mut out: Vec<SafeDial> = no_dials();
    let count: usize = items.len();
    let mut done: usize = 0;
    proof {
        assert(target.subrange(0, 0) =~= Seq::empty());
    }
    while done < count
        invariant
            done <= count,
            count == all.len(),
            out@.len() == done,
            target == dial_views(all),
            items@ == all.subrange(done as int, count as int),
            dial_views(out@) == in_dial_order(target.subrange(0, done as int)),
        decreases count - done,
    {
        let item = items.remove(0);
        proof {
            assert(item == all[done as int]);
            assert(items@ =~= all.subrange(done + 1, count as int));
            let next = target.subrange(0, done + 1);
            assert(next.drop_last() =~= target.subrange(0, done as int));
            assert(next.last() == item@);
        }
        let mut at: usize = out.len();
        while at > 0 && out[at - 1].dial_low > item.dial_low
            invariant
                at <= out.len(),
                forall|i: int| at <= i < out@.len() ==> (#[trigger] dial_views(out@)[i]).low > item@.low,
            decreases at,
        {
            at -= 1;
        }
        let ghost before = out@;
        proof {
            if at > 0 {
                assert(dial_views(out@)[at - 1].low <= item@.low);
            }
            lemma_placed_dial(dial_views(out@), item@, at as int);
        }
        out.insert(at, item);
        proof {
            assert(dial_views(out@) =~= dial_views(before).insert(at as int, item@));
        }
        done += 1;
    }
    proof {
        assert(target.subrange(0, count as int) =~= target);
    }
    out
}

} // verus!
