//! How a station is set up, and what follows from its settings alone: how long a burst may be,
//! and the timing the link is told of.
//!
//! Times are in microseconds, frequencies in thousandths of a hertz.
use vstd::prelude::*;

use crate::regulatory::occupancy::Millihertz;
use crate::regulatory::{ControlMode, Settings, Sideband};

verus! {

/// Room kept between a burst's air time and the key watchdog: the sound card's clock and the
/// loop's are not the same clock, and a burst that ends a hair past the limit loses its last
/// frame as surely as one that ends seconds past it.
pub const KEY_TIME_MARGIN_US: u64 = 1_000_000;

/// How long before a Morse identifier falls due the bursts are already sized to carry it: a
/// burst is shaped when the engine decides it and rendered a moment later.
pub const ID_LOOKAHEAD_US: u64 = 60_000_000;

/// How much later than the playback lead a sound card's capture of this station's own burst may
/// still be arriving: device buffering both ways, and the radio's own switch back to receive.
pub const CAPTURE_LAG_US: u64 = 500_000;

/// How long each drive-setting burst runs.
pub const DRIVE_BURST_US: u64 = 6_000_000;

/// The silence between drive bursts, unkeyed.
pub const DRIVE_GAP_US: u64 = 5_000_000;

/// The silence between a burst and the identifier that rides on it.
pub const ID_GAP_US: u64 = 100_000;

/// The least a burst may be sized to: one frame's worth, so an extreme setting still sends
/// something.
pub const LEAST_BURST_US: u64 = 1_100_000;

/// The latest the station's clock reads.
pub const CLOCK_END_US: u64 = 9_000_000_000_000_000_000;

/// The Morse identifier.
#[derive(Clone, Copy, PartialEq, Eq, Structural, Debug)]
pub struct CwId {
    /// Speed, thousandths of a word per minute.
    pub milli_wpm: u64,
    /// Its tone.
    pub tone: Millihertz,
}

/// Who and where, for the field log a recording becomes.
#[derive(Debug)]
pub struct Operator {
    /// The locator.
    pub grid: String,
    /// The radio.
    pub rig: String,
    /// The antenna.
    pub antenna: String,
    /// The power, milliwatts.
    pub power_mw: Option<i64>,
}

/// How a station is set up.
#[derive(Debug)]
pub struct StationConfig {
    /// This station's callsign.
    pub callsign: String,
    /// The air's nominal bandwidth, hertz.
    pub bandwidth_hz: u64,
    /// Audio samples per second.
    pub audio_rate: u32,
    /// Baseband samples per second.
    pub baseband_rate: u32,
    /// Answer calls but never make one, and never beacon.
    pub answer_only: bool,
    /// The fastest rung the link may use.
    pub max_mode: usize,
    /// The operator's own limit on a burst, where there is one.
    pub max_burst_us: Option<u64>,
    /// Transmit level, in billionths of full scale.
    pub tx_level: u64,
    /// Silence played before a burst, so the radio is in transmit before the waveform starts.
    pub key_lead_us: u64,
    /// Silence played after a burst, before the key is released.
    pub key_tail_us: u64,
    /// How far ahead of the audio clock playback is kept queued.
    pub playback_lead_us: u64,
    /// Longest a single transmission may last.
    pub max_key_us: u64,
    /// Refuse to start a transmission while the channel is occupied.
    pub wait_for_clear: bool,
    /// Offer stream compression in the connect handshake.
    pub compress: bool,
    /// Identify in Morse at the end of a transmission, and how.
    pub cw_id: Option<CwId>,
    /// Longest a station may transmit without a Morse identifier.
    pub cw_id_interval_us: u64,
    /// Where session recordings go.
    pub record_dir: Option<String>,
    /// Record every session on its own.
    pub record_auto: bool,
    /// What every recording that starts on its own says about the station.
    pub record_notes: String,
    /// Keep the exact audio of every transmission.
    pub record_tx_audio: bool,
    /// Who and where.
    pub operator: Operator,
    /// The regulatory policy's settings.
    pub regulatory: Settings,
}

impl StationConfig {
    /// Whether the clocks can be told and the key can be held at all.
    pub open spec fn wf(self) -> bool {
        &&& self.audio_rate > 0
        &&& self.baseband_rate > 0
        &&& self.max_key_us > 0
    }
}

impl StationConfig {
    /// A station on an air with every setting as it is where nobody names it: it transmits at a
    /// quarter of full scale, waits for a clear channel, offers compression, keeps the key at
    /// most thirty seconds and checks no rules.
    pub fn on(bandwidth_hz: u64, audio_rate: u32, baseband_rate: u32, max_mode: usize) -> (r: StationConfig)
        requires
            audio_rate > 0,
            baseband_rate > 0,
        ensures
            r.wf(),
            r.callsign@ == ""@,
            r.bandwidth_hz == bandwidth_hz,
            r.audio_rate == audio_rate,
            r.baseband_rate == baseband_rate,
            !r.answer_only,
            r.max_mode == max_mode,
            r.max_burst_us is None,
            r.tx_level == 250_000_000,
            r.key_lead_us == 100_000,
            r.key_tail_us == 50_000,
            r.playback_lead_us == 0,
            r.max_key_us == 30_000_000,
            r.wait_for_clear,
            r.compress,
            r.cw_id is None,
            r.cw_id_interval_us == 600_000_000,
            r.record_dir is None,
            !r.record_auto,
            r.record_notes@ == ""@,
            !r.record_tx_audio,
            r.operator.grid@ == ""@,
            r.operator.rig@ == ""@,
            r.operator.antenna@ == ""@,
            r.operator.power_mw is None,
            r.regulatory.profile@ == "none"@,
            r.regulatory.control == Some(ControlMode::Local),
            r.regulatory.license is None,
            r.regulatory.sideband == Some(Sideband::Usb),
            r.regulatory.itu_region == 2,
            r.regulatory.margin == 50_000,
            r.regulatory.band_plan,
            r.regulatory.dial_hz is None,
            !r.regulatory.log_permitted,
    {
        StationConfig {
            callsign: "".to_owned(),
            bandwidth_hz,
            audio_rate,
            baseband_rate,
            answer_only: false,
            max_mode,
            max_burst_us: None,
            tx_level: 250_000_000,
            key_lead_us: 100_000,
            key_tail_us: 50_000,
            playback_lead_us: 0,
            max_key_us: 30_000_000,
            wait_for_clear: true,
            compress: true,
            cw_id: None,
            cw_id_interval_us: 600_000_000,
            record_dir: None,
            record_auto: false,
            record_notes: "".to_owned(),
            record_tx_audio: false,
            operator: Operator {
                grid: "".to_owned(),
                rig: "".to_owned(),
                antenna: "".to_owned(),
                power_mw: None,
            },
            regulatory: Settings::unchecked(),
        }
    }
}

/// How many whole samples a time is at a rate.
#[verifier::opaque]
pub open spec fn samples_in(us: nat, rate: nat) -> nat {
    us * rate / 1_000_000
}

/// How long some samples are at a rate, in whole microseconds, no later than the clock reads.
pub open spec fn time_of(samples: nat, rate: nat) -> nat
    recommends
        rate > 0,
{
    let us = samples * 1_000_000 / rate;
    if us < CLOCK_END_US as nat { us } else { CLOCK_END_US as nat }
}

/// How many whole samples a time is at a rate.
pub fn samples_of(us: u64, rate: u32) -> (r: u128)
    ensures
        r == samples_in(us as nat, rate as nat),
        r <= u64::MAX as nat * (u32::MAX as nat) / 1_000_000,
{
    proof {
        reveal(samples_in);
        assert(us as nat * (rate as nat) <= u64::MAX as nat * (u32::MAX as nat)) by (nonlinear_arith)
            requires
                us <= u64::MAX,
                rate <= u32::MAX,
        ;
    }
    (us as u128) * (rate as u128) / 1_000_000
}

/// How long some samples are at a rate, in whole microseconds.
pub fn microseconds_of(samples: u64, rate: u32) -> (r: u64)
    requires
        rate > 0,
    ensures
        r == time_of(samples as nat, rate as nat),
        r <= CLOCK_END_US,
{
    let us: u128 = (samples as u128) * 1_000_000 / (rate as u128);
    if us < CLOCK_END_US as u128 { us as u64 } else { CLOCK_END_US }
}

/// How long the identifier takes on the air, with the silence before it.
pub open spec fn id_time(samples: nat, rate: nat) -> nat {
    time_of(samples, rate) + ID_GAP_US as nat
}

/// The longest a burst of frames may be on the air, so that the whole transmission (the keying's
/// lead, the frames, the identifier when one rides on it, and the tail) ends inside the key
/// watchdog's limit.
pub open spec fn burst_limit(c: StationConfig, identifier: Option<u64>) -> int {
    let id: int = match identifier {
        Some(samples) => if c.cw_id is Some { id_time(samples as nat, c.audio_rate as nat) as int } else { 0 },
        None => 0,
    };
    let left = c.max_key_us - c.key_lead_us - c.key_tail_us - id - KEY_TIME_MARGIN_US;
    if left > LEAST_BURST_US { left } else { LEAST_BURST_US as int }
}

/// The longest a burst of frames may be on the air. `identifier` is how many samples of Morse
/// ride on it, where one does.
pub fn burst_limit_us(c: &StationConfig, identifier: Option<u64>) -> (r: u64)
    requires
        c.wf(),
    ensures
        r == burst_limit(*c, identifier),
{
    let id: i128 = match identifier {
        Some(samples) => if c.cw_id.is_some() {
            (microseconds_of(samples, c.audio_rate) as i128) + (ID_GAP_US as i128)
        } else {
            0
        },
        None => 0,
    };
    let left: i128 = (c.max_key_us as i128) - (c.key_lead_us as i128) - (c.key_tail_us as i128) - id - (
    KEY_TIME_MARGIN_US as i128);
    if left > LEAST_BURST_US as i128 { left as u64 } else { LEAST_BURST_US }
}

/// A transmission of a burst no longer than its limit ends inside the key watchdog's limit, with
/// the margin to spare, unless the settings leave no room for even the least of bursts.
pub proof fn a_full_burst_fits_the_key(c: StationConfig, identifier: Option<u64>, burst: nat)
    requires
        c.cw_id is Some || identifier is None,
        burst <= burst_limit(c, identifier),
        burst_limit(c, identifier) > LEAST_BURST_US,
    ensures
        c.key_lead_us + burst + (match identifier {
            Some(samples) => id_time(samples as nat, c.audio_rate as nat) as int,
            None => 0,
        }) + c.key_tail_us + KEY_TIME_MARGIN_US <= c.max_key_us,
{
}

/// What the link is told of the physical layer's timing, with the tables it is read off.
#[derive(Debug)]
pub struct AirTables {
    /// Whether it is the narrow air.
    pub narrow: bool,
    /// A data frame's air time.
    pub data_frame_us: u64,
    /// A control frame's.
    pub control_frame_us: u64,
    /// A symbol's period.
    pub symbol_us: u64,
    /// Symbols in a preamble.
    pub preamble_symbols: u64,
    /// The tone floor's data kinds' air times.
    pub tone_data_us: Vec<u64>,
    /// The tone floor's control frame's.
    pub tone_control_us: u64,
    /// How many rungs are the tone floor's.
    pub floor_modes: usize,
    /// Payload bytes of each rung.
    pub payload_bytes: Vec<usize>,
    /// Each rung's threshold on the narrow air, thousandths of a decibel.
    pub narrow_thresholds: Vec<i64>,
    /// The narrow air's control frames' thresholds.
    pub narrow_controls: (i64, i64),
    /// The wide air's control frames' thresholds.
    pub wide_controls: (i64, i64),
    /// How far above its threshold the wide air's first OFDM rung stays productive.
    pub wide_floor_margin: i64,
    /// How long after its start a tone frame is announced.
    pub announce_us: u64,
}

/// Link-layer timing.
#[derive(Debug)]
pub struct PhyTiming {
    pub data_frame_us: u64,
    pub control_frame_us: u64,
    pub turnaround_us: u64,
    pub detect_latency_us: u64,
    pub tx_latency_us: u64,
    pub preamble_detect_us: Option<u64>,
    pub data_capacity: Vec<usize>,
    pub mode_thresholds: Vec<i64>,
    pub floor_data_frame_us: Option<u64>,
    pub floor_control_frame_us: Option<u64>,
    pub floor_modes: usize,
    pub control_thresholds: Option<(i64, i64)>,
    pub floor_margin: Option<i64>,
    pub floor_preamble_detect_us: Option<u64>,
}

fn copy_sizes(v: &Vec<usize>) -> (r: Vec<usize>)
    ensures
        r@ == v@,
{
    let mut out: Vec<usize> = Vec::new();
    let mut i: usize = 0;
    while i < v.len()
        invariant
            i <= v.len(),
            out@ == v@.subrange(0, i as int),
        decreases v.len() - i,
    {
        out.push(v[i]);
        proof {
            assert(v@.subrange(0, i + 1) =~= v@.subrange(0, i as int).push(v@[i as int]));
        }
        i += 1;
    }
    proof {
        assert(out@ =~= v@);
    }
    out
}

fn copy_levels(v: &Vec<i64>) -> (r: Vec<i64>)
    ensures
        r@ == v@,
{
    let mut out: Vec<i64> = Vec::new();
    let mut i: usize = 0;
    while i < v.len()
        invariant
            i <= v.len(),
            out@ == v@.subrange(0, i as int),
        decreases v.len() - i,
    {
        out.push(v[i]);
        proof {
            assert(v@.subrange(0, i + 1) =~= v@.subrange(0, i as int).push(v@[i as int]));
        }
        i += 1;
    }
    proof {
        assert(out@ =~= v@);
    }
    out
}

/// Link-layer timing derived from the waveform tables. The link layer takes one floor data-frame
/// length, which the tables have.
pub fn phy_timing(air: &AirTables) -> (r: PhyTiming)
    requires
        air.tone_data_us@.len() > 0,
        forall|i: int| 0 <= i < air.tone_data_us@.len() ==> #[trigger] air.tone_data_us@[i] == air.tone_data_us@[0],
        (air.preamble_symbols + 2) * air.symbol_us <= u64::MAX,
    ensures
        r.data_frame_us == air.data_frame_us,
        r.control_frame_us == air.control_frame_us,
        r.turnaround_us == 250_000,
        r.detect_latency_us == 150_000,
        r.tx_latency_us == 0,
        r.preamble_detect_us == Some(((air.preamble_symbols + 2) * air.symbol_us) as u64),
        r.data_capacity@ == air.payload_bytes@,
        r.mode_thresholds@ == (if air.narrow { air.narrow_thresholds@ } else { Seq::empty() }),
        r.floor_data_frame_us == Some(air.tone_data_us@[0]),
        r.floor_control_frame_us == Some(air.tone_control_us),
        r.floor_modes == air.floor_modes,
        r.control_thresholds == Some(if air.narrow { air.narrow_controls } else { air.wide_controls }),
        r.floor_margin == (if air.narrow { None } else { Some(air.wide_floor_margin) }),
        r.floor_preamble_detect_us == Some(air.announce_us),
{
    let preamble: u128 = ((air.preamble_symbols as u128) + 2) * (air.symbol_us as u128);
    PhyTiming {
        data_frame_us: air.data_frame_us,
        control_frame_us: air.control_frame_us,
        turnaround_us: 250_000,
        detect_latency_us: 150_000,
        tx_latency_us: 0,
        preamble_detect_us: Some(preamble as u64),
        data_capacity: copy_sizes(&air.payload_bytes),
        mode_thresholds: if air.narrow { copy_levels(&air.narrow_thresholds) } else { Vec::new() },
        floor_data_frame_us: Some(air.tone_data_us[0]),
        floor_control_frame_us: Some(air.tone_control_us),
        floor_modes: air.floor_modes,
        control_thresholds: Some(if air.narrow { air.narrow_controls } else { air.wide_controls }),
        floor_margin: if air.narrow { None } else { Some(air.wide_floor_margin) },
        floor_preamble_detect_us: Some(air.announce_us),
    }
}

/// Counters a status display can show.
#[derive(Clone, Copy, PartialEq, Eq, Structural, Debug)]
pub struct StationStats {
    /// Bursts put on the air.
    pub transmissions: usize,
    /// Frames acquisition found.
    pub frames_detected: usize,
    /// Times a transmission was held back because the channel was busy.
    pub deferred_for_busy: usize,
    /// Times the key-time watchdog fired.
    pub watchdog_trips: usize,
    /// Application bytes handed to the compressor this session.
    pub bytes_before_compression: usize,
    /// Bytes the compressor produced, which is what the link actually carries.
    pub bytes_after_compression: usize,
    /// Morse identifiers sent.
    pub cw_ids: usize,
    /// Beacons transmitted.
    pub beacons_sent: usize,
    /// Beacons heard from other stations.
    pub beacons_heard: usize,
}

impl StationStats {
    /// Nothing counted.
    pub open spec fn none() -> StationStats {
        StationStats {
            transmissions: 0,
            frames_detected: 0,
            deferred_for_busy: 0,
            watchdog_trips: 0,
            bytes_before_compression: 0,
            bytes_after_compression: 0,
            cw_ids: 0,
            beacons_sent: 0,
            beacons_heard: 0,
        }
    }
}

impl Default for StationStats {
    /// Nothing counted.
    fn default() -> (r: StationStats)
        ensures
            r == StationStats::none(),
    {
        StationStats {
            transmissions: 0,
            frames_detected: 0,
            deferred_for_busy: 0,
            watchdog_trips: 0,
            bytes_before_compression: 0,
            bytes_after_compression: 0,
            cw_ids: 0,
            beacons_sent: 0,
            beacons_heard: 0,
        }
    }
}

/// One more, as far as the counter goes.
pub open spec fn one_more(n: usize) -> usize {
    if n < usize::MAX { (n + 1) as usize } else { n }
}

/// One more, as far as the counter goes.
pub fn count_one(n: usize) -> (r: usize)
    ensures
        r == one_more(n),
{
    if n < usize::MAX { n + 1 } else { n }
}

/// So many more, as far as the counter goes.
pub open spec fn more(n: usize, by: usize) -> usize {
    if n + by <= usize::MAX { (n + by) as usize } else { usize::MAX }
}

/// So many more, as far as the counter goes.
pub fn count_more(n: usize, by: usize) -> (r: usize)
    ensures
        r == more(n, by),
{
    if by <= usize::MAX - n { n + by } else { usize::MAX }
}

} // verus!
