//! A station, driven as its run loop drives it: a link engine, a modulator and a sound card are
//! played by the tests.
use aetherd::ptt::{BrokenPtt, NullPtt, Ptt, PttError};
use aetherd::regulatory::occupancy::{AirOccupancy, Edges, Millihertz, Reading, RungOccupancy};
use aetherd::regulatory::profile::{
    Automatic, Band, BandwidthRule, CwIdLimit, DataLimit, Elsewhere, Privilege, Privileges, Profile, Range, Segment,
};
use aetherd::regulatory::{ControlMode, EmissionKind, LicenseClass, Settings, Sideband};
use aetherd::sessions::Role;
use aetherd::station::commands::{DriveRung, Live};
use aetherd::station::config::{
    burst_limit_us, phy_timing, AirTables, CwId, Operator, StationConfig, DRIVE_BURST_US, DRIVE_GAP_US, ID_LOOKAHEAD_US,
    KEY_TIME_MARGIN_US,
};
use aetherd::station::deliveries::Delivery;
use aetherd::station::frames::{constellation_step, reported_cfo, Container, Heard, Says, Talking};
use aetherd::station::gate::RegulatoryQuery;
use aetherd::station::meter::{Block, LevelReading};
use aetherd::station::queue::{DataKind, Outgoing, TxFrame};
use aetherd::station::receive::{Absorbed, BusyReading, BusyReason, Hearing, Preamble};
use aetherd::station::rules::Started;
use aetherd::station::session::{Action, Ends, Engine, ForTape, Message};
use aetherd::station::transmit::{is_clear, Channel, Gated, Stage, Waits};
use aetherd::station::{Link, Order, Phase, Station};

const RATE: u64 = 48_000;
const CLEAR: Channel = Channel { settled: true, busy: false };
const BUSY: Channel = Channel { settled: true, busy: true };
const QUIET: Engine = Engine { acked: 0, crossed: 0, undelivered: 0, peer_snr_mdb: None, test: false };

fn hz(f: f64) -> Millihertz {
    (f * 1000.0).round() as Millihertz
}

fn edges(power: f64, spectral: f64) -> Edges {
    Edges {
        power: (hz(1500.0 - power), hz(1500.0 + power)),
        spectral: (hz(1500.0 - spectral), hz(1500.0 + spectral)),
    }
}

/// The wide air: two tone rungs, four middle ones, and OFDM from there.
fn air() -> AirOccupancy {
    let tones = [(215.0, 262.0), (220.0, 264.0), (420.0, 470.0), (550.0, 600.0), (980.0, 1040.0), (990.0, 1050.0)];
    AirOccupancy {
        bandwidth_hz: 2300,
        centre: hz(1500.0),
        rungs: (0..20)
            .map(|r| {
                let (power, spectral) = tones.get(r).copied().unwrap_or((1180.0, 1260.0));
                RungOccupancy { name: format!("rung {r}"), tone: r < tones.len(), edges: edges(power, spectral) }
            })
            .collect(),
        control_ordinary: edges(1180.0, 1260.0),
        control_floor: edges(215.0, 262.0),
    }
}

fn floors() -> Vec<bool> {
    (0..20).map(|r| r < 6).collect()
}

fn range(low: f64, high: f64) -> Range {
    Range { low: hz(low), high: hz(high) }
}

fn all_modes(low: f64, high: f64) -> Privilege {
    Privilege { range: range(low, high), emissions: None, rule: None }
}

/// Twenty metres under the rules of the United States.
fn twenty_metres() -> Profile {
    Profile {
        id: "us-fcc-part97".into(),
        name: "United States".into(),
        country: "US".into(),
        authority: "FCC".into(),
        rules_as_of: "2026-09-01".into(),
        last_amended: "2026-01-01".into(),
        source: "47 CFR Part 97".into(),
        itu_region: 2,
        notes: Vec::new(),
        bandwidth: BandwidthRule { rule: "§97.3(a)(8)".into(), reading: Reading::Wider, why: "the wider".into() },
        data: DataLimit { max_bandwidth: hz(2800.0), rule: "§97.307(f)(3)".into() },
        cw_id: Some(CwIdLimit { max_milli_wpm: 20_000, rule: "§97.119(b)(1)".into() }),
        bands: vec![Band { name: "20 m".into(), range: range(14_000_000.0, 14_350_000.0) }],
        data_segments: vec![Segment {
            band: "20 m".into(),
            range: range(14_000_000.0, 14_150_000.0),
            rule: "§97.305(c)".into(),
            max_bandwidth: None,
            bandwidth_rule: None,
        }],
        channels: None,
        sixty_meter_emissions: None,
        privileges: Privileges {
            extra: vec![all_modes(14_000_000.0, 14_350_000.0)],
            advanced: vec![all_modes(14_025_000.0, 14_350_000.0)],
            general: vec![all_modes(14_025_000.0, 14_150_000.0), all_modes(14_150_000.0, 14_350_000.0)],
            technician: Vec::new(),
            novice: Vec::new(),
            rule: "§97.301".into(),
        },
        automatic: Automatic {
            segments: vec![range(14_095_000.0, 14_099_500.0), range(14_100_500.0, 14_112_000.0)],
            segments_rule: "§97.221(b)".into(),
            elsewhere: Some(Elsewhere { max_bandwidth: hz(500.0), requires_response: true, rule: "§97.221(c)".into() }),
            excluded_bands: Vec::new(),
        },
        power: Vec::new(),
        band_plan: None,
    }
}

/// United States rules for a station on a declared dial (a `NullPtt` cannot report one).
fn under_us_rules(dial_hz: u64, control: ControlMode) -> Settings {
    Settings {
        profile: "us-fcc-part97".into(),
        control: Some(control),
        license: Some(LicenseClass::General),
        sideband: Some(Sideband::Usb),
        itu_region: 2,
        margin: hz(50.0),
        band_plan: false,
        dial_hz: Some(dial_hz),
        log_permitted: true,
    }
}

fn no_rules_chosen() -> Settings {
    Settings { profile: String::new(), ..Settings::unchecked() }
}

fn config() -> StationConfig {
    StationConfig { callsign: "W4ODA".into(), wait_for_clear: false, ..StationConfig::on(2300, 48_000, 8_000, 15) }
}

/// A station with the run loop round it.
struct Bench<P: Ptt> {
    station: Station<P>,
    link: Link,
    channel: Channel,
    /// Samples the modulator makes of each frame, and the identifier has.
    per_frame: u64,
    morse: u64,
    orders: Vec<Order>,
    gated: Vec<Gated>,
}

fn bench_with<P: Ptt>(config: StationConfig, ptt: P, document: Profile) -> Bench<P> {
    Bench {
        station: Station::new(config, ptt, Some(air()), Ok(document)),
        link: Link { phase: Phase::Idle, word: "Idle".into() },
        channel: CLEAR,
        per_frame: RATE,
        morse: 2 * RATE,
        orders: Vec::new(),
        gated: Vec::new(),
    }
}

fn bench(config: StationConfig) -> Bench<NullPtt> {
    bench_with(config, NullPtt::default(), twenty_metres())
}

fn idle_station() -> Bench<NullPtt> {
    bench(config())
}

fn lone_station(regulatory: Settings) -> Bench<NullPtt> {
    bench(StationConfig { regulatory, ..config() })
}

impl<P: Ptt> Bench<P> {
    fn phase(&mut self, phase: Phase) {
        self.link = Link { phase, word: format!("{phase:?}") };
    }

    /// One top-up of the sound card; says how many samples were handed over.
    fn playback(&mut self, room: u64) -> Result<u64, PttError> {
        let now = self.station.now();
        match self.station.stage() {
            Stage::Leaving => return Ok(0),
            Stage::Over => {
                self.station.finish_transmission(now, -12_000, &self.link.word)?;
                self.orders.push(Order::TxDone(now));
                return Ok(0);
            }
            Stage::Start => match self.station.start_pending(now, &self.link, self.channel) {
                Started::Judged(Gated::Leave) => {
                    let made = match self.station.next() {
                        Some(Outgoing::Frames(f) | Outgoing::Drive(f) | Outgoing::Datagram(f, _, _)) => {
                            self.per_frame * f.len() as u64
                        }
                        _ => 0,
                    };
                    if self.station.render_next(Ok(made), now, self.morse).is_none() {
                        return Ok(0);
                    }
                }
                Started::Judged(refused) => {
                    self.gated.push(refused);
                    return Ok(0);
                }
                Started::Held(order) => {
                    self.orders.extend(order);
                    return Ok(0);
                }
                Started::Empty | Started::Pausing => return Ok(0),
            },
            Stage::Play => {}
        }
        self.station.hand_over(room, now, &self.link.word)
    }

    /// Capture a block of silence.
    fn capture(&mut self, samples: usize) -> Hearing {
        assert!(self.station.can_count(samples));
        let block = Block { power: 0, peak: 0, clipped: 0, length: samples as u64 };
        self.station.capture(&vec![0; samples], block, samples / 6).0
    }

    /// Run alone, hearing silence, for so long; says for how many samples the key was down.
    fn run(&mut self, seconds: f64) -> u64 {
        let mut keyed = 0;
        for _ in 0..(seconds * RATE as f64 / 4800.0) as usize {
            self.playback(4800).expect("playback");
            if self.station.transmitting() {
                keyed += 4800;
            }
            self.capture(4800);
            if self.station.watch(&self.link.word).expect("watch") {
                self.orders.push(Order::TxDone(self.station.now()));
            }
        }
        keyed
    }

    fn event(&mut self, name: &str, detail: &str, engine: Engine) -> ForTape {
        let action = Action::Event(name.into(), detail.into());
        let followed = self.station.pump(action, engine, &self.link, &floors());
        self.orders.extend(followed.order);
        followed.tape
    }

    fn transmit(&mut self, frames: Vec<TxFrame>) {
        self.station.pump(Action::Transmit(frames), QUIET, &self.link, &floors());
    }
}

fn frame(data: DataKind, mode: usize) -> TxFrame {
    TxFrame {
        container: Container::Data,
        data: Some(data),
        control: None,
        mode,
        rv: 0,
        floor: false,
        floor_rung: mode < 6,
        air_us: 1_000_000,
        payload: vec![0x42; 8],
    }
}

fn call() -> Vec<TxFrame> {
    vec![frame(DataKind::ConnectReq, 0)]
}

fn beacon() -> Result<TxFrame, &'static str> {
    Ok(frame(DataKind::Beacon, 0))
}

fn ladder() -> Vec<DriveRung> {
    (0..20).map(|r| DriveRung { payload_bytes: 40 + r, frame_us: 1_000_000, floor: r < 6 }).collect()
}

#[test]
fn a_station_whose_keying_failed_transmits_nothing() {
    let mut b = bench_with(config(), BrokenPtt::new("cannot open the serial port COM9"), twenty_metres());
    assert_eq!(b.station.ptt_fault().as_deref(), Some("cannot open the serial port COM9"));
    // ask it for the one thing that would key the radio
    b.station.beacon(beacon(), Phase::Idle).expect("a beacon is queued like any other burst");
    let refused = b.playback(4096).expect_err("keying must fail rather than transmit");
    assert!(matches!(refused, PttError::Backend(_)));
    assert!(!b.station.transmitting(), "it never entered transmit");
    assert_eq!(b.station.stats().transmissions, 0);
}

#[test]
fn the_station_reports_the_peak_it_actually_transmitted() {
    let mut b = idle_station();
    assert_eq!(b.station.tx_peak(), None, "nothing transmitted yet");
    b.station.tune(2_000_000, 2 * RATE, Phase::Idle, CLEAR).expect("tune");
    b.playback(4800).expect("playback");
    b.station.peaked(250_000);
    b.station.peaked(120_000);
    b.run(6.0);
    assert_eq!(b.station.tx_peak(), Some(250_000));
}

#[test]
fn drive_bursts_are_long_and_leave_the_operator_time_between_them() {
    // the bursts run several seconds and are spaced by silence with the transmitter unkeyed, so
    // the meter can be read, the level moved, and the next one seen to land
    let mut b = idle_station();
    b.station.set_drive(2, &ladder(), Phase::Idle, CLEAR).expect("set drive");
    let mut keyed_runs: Vec<(u64, u64)> = Vec::new();
    let mut was = false;
    let mut at = 0;
    for _ in 0..(RATE * 30 / 2048) {
        b.capture(2048);
        b.playback(2048).expect("playback");
        let now = b.station.transmitting();
        if now && !was {
            keyed_runs.push((at, at));
        }
        if now {
            keyed_runs.last_mut().expect("a run").1 = at + 2048;
        }
        was = now;
        at += 2048;
    }
    assert_eq!(keyed_runs.len(), 2, "two bursts, two keyings: {keyed_runs:?}");
    let us = |samples: u64| samples * 1_000_000 / RATE;
    assert!(us(keyed_runs[0].1 - keyed_runs[0].0) >= DRIVE_BURST_US - 500_000, "{keyed_runs:?}");
    assert!(us(keyed_runs[1].0 - keyed_runs[0].1) >= DRIVE_GAP_US - 500_000, "{keyed_runs:?}");
}

#[test]
fn an_operator_can_cut_a_drive_check_short_but_not_a_session() {
    let mut b = idle_station();
    b.station.set_drive(4, &ladder(), Phase::Idle, CLEAR).expect("set drive");
    assert!(b.station.tune_stop(), "the queued drive bursts are cut");
    assert_eq!(b.playback(4096).expect("playback"), 0);
    assert_eq!(b.station.waiting_to_go(), 0);
    // a session's burst is not an operator's test
    b.transmit(call());
    assert!(!b.station.tune_stop());
    assert_eq!(b.station.waiting_to_go(), 1);
    assert_eq!(
        b.station.set_drive(0, &ladder(), Phase::Idle, CLEAR),
        Err("a drive check is between 1 and 10 bursts")
    );
    assert_eq!(b.station.set_drive(1, &ladder(), Phase::Session, CLEAR), Err("a session is running"));
    let empty = vec![DriveRung { payload_bytes: 0, frame_us: 1, floor: false }];
    assert_eq!(b.station.set_drive(1, &empty, Phase::Idle, CLEAR), Err("this mode carries no payload to send"));
}

#[test]
fn cfo_is_reported_only_when_the_acquisition_can_be_trusted() {
    let sure = 1_200;
    // a decoded frame's offset is real, whatever its confidence
    assert_eq!(reported_cfo(true, 500, 1_000, sure, 12_000), Some(12_000));
    // a confident non-decode is a real near-miss: keep its offset
    assert_eq!(reported_cfo(false, 2_000, 1_000, sure, -3_000), Some(-3_000));
    // a low-confidence non-decode is a noise trigger: its +55 Hz is the correlator on noise
    assert_eq!(reported_cfo(false, 800, 1_000, sure, 55_000), None);
}

#[test]
fn a_control_frame_is_judged_by_the_acquisition_it_cannot_judge_by_its_chips() {
    // only a data frame carries mode chips, so every control frame arrives with a mode
    // confidence of exactly one
    assert_eq!(reported_cfo(false, 1_000, 2_400, 1_200, -1_800), Some(-1_800));
    assert_eq!(reported_cfo(false, 1_000, 1_020, 1_200, 30_500), None);
}

#[test]
fn the_key_is_released_when_the_sound_card_has_played_the_burst_not_when_the_queue_drains() {
    let mut b = idle_station();
    b.station.key_test(500_000, Phase::Idle).expect("idle");
    b.station.device_played(1_000_000); // the card has been running a while
    let mut handed = 0;
    loop {
        let count = b.playback(4800).expect("playback");
        if count == 0 {
            break;
        }
        handed += count;
    }
    assert!(b.station.transmitting(), "the queue drained but nothing has played yet");
    assert_eq!(handed, (500_000 + 100_000 + 50_000) * RATE / 1_000_000);
    // the card has played half of it: still keyed
    b.station.device_played(1_000_000 + handed / 2);
    assert_eq!(b.playback(4800).expect("playback"), 0);
    assert!(b.station.transmitting(), "released with half the burst still in the card");
    // the card has played all of it: released now
    b.station.device_played(1_000_000 + handed);
    assert_eq!(b.playback(4800).expect("playback"), 0);
    assert!(!b.station.transmitting(), "the burst has left the card");
    assert!(!b.station.take_device_flush(), "nothing was cut short");
}

#[test]
fn a_block_that_outlasts_the_transmission_is_heard_past_its_end() {
    // a slow pass on a loaded machine brings in the end of this station's own tail and the start
    // of the peer's reply together; the deafness ends where the card's clock says the
    // transmission did
    let arrives = RATE as usize;
    for (past_end, heard) in [(0usize, false), (arrives, true)] {
        let mut b = idle_station();
        b.station.key_test(200_000, Phase::Idle).expect("idle");
        b.station.device_played(0);
        let mut handed = 0;
        loop {
            let count = b.playback(4800).expect("playback");
            if count == 0 {
                break;
            }
            handed += count;
        }
        assert!(b.station.transmitting(), "the burst is still in the card");
        b.station.device_played(handed + past_end as u64);
        let block = 2 * arrives - past_end.min(arrives);
        let how = b.capture(block);
        assert_eq!(matches!(how, Hearing::Ended(_, _)), heard, "{how:?}");
        if !heard {
            assert_eq!(how, Hearing::Muted);
        } else {
            // all of the block came in after the transmission
            assert_eq!(how, Hearing::Ended(0, 0));
        }
    }
}

#[test]
fn a_cut_tone_flushes_the_card_and_releases_at_once() {
    let mut b = idle_station();
    b.station.tune(5_000_000, 5 * RATE, Phase::Idle, CLEAR).expect("idle");
    b.station.device_played(0);
    while b.playback(4800).expect("playback") > 0 {}
    assert!(b.station.transmitting());
    assert!(b.station.tune_stop(), "there was a tone to stop");
    assert!(b.station.take_device_flush(), "the card still held the tone: the loop must drop it");
    assert!(!b.station.take_device_flush(), "asked for once");
    // the card's clock has barely moved, and that no longer matters: the rest was dropped
    b.station.device_played(4800);
    assert_eq!(b.playback(4800).expect("playback"), 0);
    assert!(!b.station.transmitting(), "a cut tone releases at once");
}

#[test]
fn the_key_outlasts_what_the_sound_card_still_holds() {
    // the key must not drop while the card still holds the last quarter second of a burst
    let mut b = bench(StationConfig { playback_lead_us: 250_000, ..config() });
    assert_eq!(b.station.config().key_tail_us, 300_000);
    assert_eq!(b.station.tx_latency_us(), 100_000 + 250_000 + 300_000);
    b.station.tune(1_000_000, RATE, Phase::Idle, CLEAR).expect("idle");
    let now = b.station.now();
    assert!(matches!(b.station.start_pending(now, &b.link, CLEAR), Started::Judged(Gated::Leave)));
    let r = b.station.render_next(Ok(0), now, 0).expect("rendered");
    assert_eq!((r.lead, r.burst, r.morse, r.tail), (4_800, RATE, 0, 14_400));
}

fn live(max_key_us: u64, tx_level: u64) -> Live {
    Live {
        tx_level,
        max_key_us,
        wait_for_clear: false,
        max_mode: 15,
        answer_only: false,
        record_auto: false,
        record_notes: String::new(),
        operator: Operator {
            grid: String::new(),
            rig: String::new(),
            antenna: String::new(),
            power_mw: None,
        },
    }
}

#[test]
fn the_transmit_level_reaches_a_tone_that_is_already_playing_and_the_tone_can_be_stopped() {
    let mut b = idle_station();
    b.station.tune(4_000_000, 4 * RATE, Phase::Idle, CLEAR).expect("idle");
    for _ in 0..6 {
        b.playback(4800).expect("playback");
    }
    assert_eq!(b.station.config().tx_level, 250_000_000);
    b.station.apply_live(
        live(30_000_000, 500_000_000),
        Settings::unchecked(),
        Ok(twenty_metres()),
        0,
        Phase::Idle,
        &floors(),
    );
    assert_eq!(b.station.config().tx_level, 500_000_000);
    assert!(b.station.transmitting());
    assert!(b.station.tune_stop(), "there was a tone to stop");
    assert_eq!(b.playback(4800).expect("playback"), 0, "the tone kept playing");
    assert!(!b.station.transmitting(), "the transmitter stayed keyed");
    assert!(!b.station.tune_stop(), "nothing left to stop");
}

fn calls(list: &[&str]) -> Vec<String> {
    list.iter().map(|c| (*c).to_owned()).collect()
}

fn told_callsigns(order: &Option<Order>) -> Option<Vec<String>> {
    match order {
        Some(Order::SetCallsigns(c)) => Some(c.clone()),
        _ => None,
    }
}

#[test]
fn a_host_names_the_station_and_the_name_waits_for_the_session_to_end() {
    // a name given mid-session is for the next one: the current session is addressed by the old
    // one on every frame
    let mut b = idle_station();
    let order = b.station.set_callsigns(Ok(calls(&["KK4XYZ-2", "KK4XYZ"])), Phase::Idle).expect("taken");
    assert_eq!(told_callsigns(&order), Some(calls(&["KK4XYZ-2", "KK4XYZ"])));
    // mid-session: accepted, applied later
    let order = b.station.set_callsigns(Ok(calls(&["KK4XYZ-3"])), Phase::Session).expect("taken");
    assert!(order.is_none());
    assert!(
        matches!(b.station.set_callsigns(Err("a callsign is at most nine characters"), Phase::Session), Err(e) if e == "a callsign is at most nine characters"),
        "a name the air interface cannot carry is refused at once, not later"
    );
    let order = b.station.session_ended("closed", QUIET);
    assert_eq!(told_callsigns(&order), Some(calls(&["KK4XYZ-3"])));
    assert!(b.station.session_ended("closed", QUIET).is_none(), "once");
}

#[test]
fn a_burst_ends_inside_the_key_watchdog() {
    // six tone frames are 32 s and the watchdog's limit 30 s
    let tone = 32_000_000 / 6;
    let ofdm = 1_100_000;
    let setup = |max_key_us: u64, cw_id: Option<CwId>| StationConfig {
        callsign: "KK4ODA-1".into(),
        max_key_us,
        cw_id,
        playback_lead_us: 250_000,
        ..config()
    };
    let capacity = |limit: u64, frame: u64| (limit / frame).min(6);
    let morse = 6 * RATE;
    let mut plain = bench(setup(30_000_000, None));
    let limit = plain.station.first_burst_us(morse);
    assert_eq!(capacity(limit, tone), 5);
    let c = plain.station.config();
    assert!(5 * tone + c.key_lead_us + c.key_tail_us + KEY_TIME_MARGIN_US <= 30_000_000);
    assert_eq!(capacity(limit, ofdm), 6);
    // an identifier needs room on the bursts it rides on: the first transmission's, and those
    // shaped within a minute of the next falling due, and only those
    let mut identifying = bench(setup(30_000_000, Some(CwId { milli_wpm: 20_000, tone: hz(800.0) })));
    identifying.morse = morse;
    assert_eq!(capacity(identifying.station.first_burst_us(morse), tone), 4);
    identifying.transmit(call());
    identifying.run(10.0);
    assert_eq!(identifying.station.stats().cw_ids, 1, "the first transmission identifies");
    let cap = |b: &Bench<NullPtt>, now: u64| match b.station.refresh_burst_cap(now, morse) {
        Some(Order::SetMaxBurst(us)) => capacity(us, tone),
        other => panic!("{other:?}"),
    };
    assert_eq!(cap(&identifying, 1_000_000), 5);
    let interval = identifying.station.config().cw_id_interval_us;
    assert_eq!(cap(&identifying, interval - ID_LOOKAHEAD_US - 1_000_000), 5);
    assert_eq!(cap(&identifying, interval - ID_LOOKAHEAD_US + 1_000_000), 4);
    // the end of a session is identified at once, and its last bursts keep room for it
    identifying.transmit(call());
    identifying.run(3.0);
    identifying.event("disconnected", "closed", QUIET);
    assert_eq!(cap(&identifying, 2_000_000), 4);
    // and the limit follows the setting, live
    let (burst, _) = plain.station.apply_live(
        live(60_000_000, 250_000_000),
        Settings::unchecked(),
        Ok(twenty_metres()),
        morse,
        Phase::Idle,
        &floors(),
    );
    match burst {
        Some(Order::SetMaxBurst(us)) => assert_eq!(capacity(us, tone), 6),
        other => panic!("{other:?}"),
    }
    assert_eq!(burst_limit_us(&setup(30_000_000, None), None), 30_000_000 - 100_000 - 50_000 - 1_000_000);
    assert_eq!(burst_limit_us(&setup(1_000_000, None), None), 1_100_000, "one frame still goes");
}

const WAITS: Waits = Waits {
    burst_gap_us: 300_000,
    control_us: 400_000,
    floor_control_us: 2_000_000,
    turnaround_us: 250_000,
};

#[test]
fn an_abort_drops_the_rest_of_the_burst() {
    let mut b = idle_station();
    b.per_frame = 10 * RATE;
    b.phase(Phase::Connecting);
    b.transmit(call());
    b.run(1.0);
    assert!(b.station.transmitting(), "the call is on the air");
    let aborted_at = b.station.now();
    b.station.abort(Phase::Connecting, WAITS);
    assert!(b.station.take_device_flush());
    // one DISC follows, once the key has been up for what the cut would have run into
    assert!(matches!(
        b.station.next(),
        Some(Outgoing::Pause(us, None)) if *us == 1_000_000 + 300_000 + 2_000_000 + 2 * 250_000 + 500_000
    ));
    b.run(0.2);
    assert!(!b.station.transmitting());
    assert!(b.station.now() - aborted_at < 300_000);
    assert_eq!(b.station.stats().watchdog_trips, 0);
    assert!(b.orders.iter().any(|o| matches!(o, Order::TxDone(_))));
}

fn names(list: &[Delivery]) -> Vec<(String, usize, bool, Option<String>)> {
    list.iter().map(|d| (d.reference.clone(), d.bytes, d.delivered, d.reason.clone())).collect()
}

#[test]
fn a_sent_message_is_reported_once_the_other_station_has_it() {
    let delivery = |reference: &str, bytes: usize, delivered: bool, reason: Option<&str>| {
        (reference.to_owned(), bytes, delivered, reason.map(str::to_owned))
    };
    let mut b = idle_station();
    assert!(matches!(b.station.send_tracked(&b"too early\n".to_vec(), "m0", false), Message::Refused));
    assert_eq!(names(&b.station.take_deliveries()), [delivery("m0", 10, false, Some("no session"))]);
    b.phase(Phase::Session);
    b.event("connected", "KK4XYZ (iss)", QUIET);
    assert!(b.station.flush_outbound().is_none(), "nothing sent before the session is queued");

    let sent = |b: &mut Bench<NullPtt>, data: Vec<u8>, reference: &str| {
        let bytes = data.len();
        match b.station.send_tracked(&data, reference, true) {
            Message::Send(Some(wire)) => b.station.wired(wire.len(), wire.len(), wire.len()),
            other => panic!("{other:?}"),
        }
        b.station.follow(reference, bytes);
    };
    sent(&mut b, b"first\n".to_vec(), "m1");
    sent(&mut b, vec![0x42; 600], "m2");
    assert_eq!(b.station.delivery_status().0, ["m1", "m2"]);
    b.station.pumped(Engine { undelivered: 606, ..QUIET });
    assert!(b.station.take_deliveries().is_empty(), "nothing has arrived yet");
    b.station.pumped(Engine { undelivered: 600, ..QUIET });
    assert_eq!(names(&b.station.take_deliveries()), [delivery("m1", 6, true, None)]);
    b.station.pumped(Engine { undelivered: 0, ..QUIET });
    assert_eq!(names(&b.station.take_deliveries()), [delivery("m2", 600, true, None)]);

    // a long message the operator aborts: it never all arrives
    sent(&mut b, vec![0x17; 20_000], "m3");
    b.event("disconnected", "aborted", QUIET);
    assert_eq!(names(&b.station.take_deliveries()), [delivery("m3", 20_000, false, Some("aborted"))]);
    let (pending, recent) = b.station.delivery_status();
    assert!(pending.is_empty());
    let recent: Vec<&str> = recent.iter().map(|d| d.reference.as_str()).collect();
    assert_eq!(recent, ["m0", "m1", "m2", "m3"]);
}

#[test]
fn a_transmission_the_rules_refuse_is_never_keyed() {
    // a call from the 20 m data segment goes out
    let mut lawful = lone_station(under_us_rules(14_078_000, ControlMode::Local));
    lawful.phase(Phase::Connecting);
    lawful.transmit(call());
    lawful.run(0.5);
    assert!(lawful.station.transmitting(), "a lawful call is keyed");

    // the same call from the 20 m phone segment does not, and the attempt ends
    let mut unlawful = lone_station(under_us_rules(14_200_000, ControlMode::Local));
    assert_eq!(unlawful.station.check_originate(0).expect_err("refused").code, "no_data_here");
    assert!(unlawful.station.check_operator(EmissionKind::Data).is_err());
    unlawful.phase(Phase::Connecting);
    unlawful.transmit(call());
    unlawful.run(10.0);
    assert_eq!(unlawful.station.stats().transmissions, 0, "never keyed");
    assert!(matches!(unlawful.gated[..], [Gated::Halted]), "the attempt is over: {:?}", unlawful.gated);
    let reports = unlawful.station.take_regulatory_reports();
    assert!(reports.iter().any(|d| d.code == "no_data_here" && d.what == "a call"), "{reports:?}");

    // nothing is guessed: no profile chosen, nothing keyed
    let mut unset = lone_station(Settings {
        profile: String::new(),
        ..under_us_rules(14_078_000, ControlMode::Local)
    });
    unset.phase(Phase::Connecting);
    unset.transmit(call());
    unset.run(5.0);
    unset.station.beacon(beacon(), Phase::Idle).expect("queued");
    unset.run(5.0);
    assert_eq!(unset.station.stats().transmissions, 0);
    let reports = unset.station.take_regulatory_reports();
    assert!(!reports.is_empty() && reports.iter().all(|d| d.code == "no_profile"));
}

#[test]
fn the_keying_path_refuses_audio_the_gate_did_not_see() {
    // audio that reached the playback queue without being judged is dropped, not keyed: leave to
    // key is made only by the policy
    let mut b = lone_station(Settings::unchecked());
    b.station.beacon(beacon(), Phase::Idle).expect("queued");
    b.station.render_next(Ok(RATE), 0, 0).expect("rendered, though nobody judged it");
    assert!(b.station.queued() > 0);
    assert_eq!(b.playback(4096).expect("playback"), 0);
    assert!(!b.station.transmitting());
    assert_eq!(b.station.stats().transmissions, 0);
    assert_eq!(b.station.queued(), 0);
    assert!(b.station.take_events().iter().any(|e| e.starts_with("error:regulatory")));
}

#[test]
fn every_way_to_the_transmitter_passes_the_gate() {
    // with no profile chosen, not one of them keys the radio
    let mut b = lone_station(no_rules_chosen());
    b.transmit(call());
    b.run(1.0);
    b.station.beacon(beacon(), Phase::Idle).expect("queued");
    b.run(1.0);
    b.transmit(vec![frame(DataKind::Probe, 0)]);
    b.run(1.0);
    b.station.tune(1_000_000, RATE, Phase::Idle, CLEAR).expect("queued");
    b.run(1.0);
    b.station.key_test(1_000_000, Phase::Idle).expect("queued");
    b.run(1.0);
    b.station.set_drive(1, &ladder(), Phase::Idle, CLEAR).expect("queued");
    b.run(1.0);
    b.station.offer_datagram(vec![frame(DataKind::Datagram, 1)], Some("r1".into()), true);
    b.run(1.0);
    assert_eq!(b.station.stats().transmissions, 0, "nothing was keyed");
    let whats: Vec<String> = b.station.take_regulatory_reports().into_iter().map(|d| d.what).collect();
    for what in [
        "a call",
        "a beacon",
        "a probe",
        "the tune tone",
        "a keying test",
        "a drive burst",
        "a KISS client's datagram",
    ] {
        assert!(whats.iter().any(|w| w == what), "{what} not judged: {whats:?}");
    }
}

#[test]
fn a_kiss_frame_the_rules_refuse_is_reported_and_never_keyed() {
    let mut b = lone_station(no_rules_chosen());
    b.station.offer_datagram(vec![frame(DataKind::Datagram, 1)], Some("r2".into()), true);
    b.run(2.0);
    assert_eq!(b.station.stats().transmissions, 0);
    assert_eq!(b.gated.len(), 1);
    assert!(matches!(&b.gated[0], Gated::Datagram(Some(r), true, why) if r == "r2" && !why.is_empty()));
    assert!(b.station.take_regulatory_reports().iter().any(|d| d.what == "a KISS client's datagram"));
}

fn identifying(regulatory: Settings) -> StationConfig {
    StationConfig { cw_id: Some(CwId { milli_wpm: 25_000, tone: hz(800.0) }), regulatory, ..config() }
}

#[test]
fn an_identifier_inside_a_burst_is_judged_as_the_cw_it_is() {
    let rules = || under_us_rules(14_078_000, ControlMode::Local);
    let mut lawful = bench(identifying(rules()));
    assert_eq!(lawful.station.identifier_speed(), Some(20_000), "no faster than the rules allow");
    lawful.transmit(call());
    lawful.run(3.0);
    assert_eq!(lawful.station.stats().cw_ids, 1, "the call carries the identifier");

    // a profile that allows the data but not Morse there keeps it out of the burst
    let mut profile = twenty_metres();
    profile.privileges.general[0].emissions = Some(vec!["data".into()]);
    let mut b = bench_with(identifying(rules()), NullPtt::default(), profile);
    b.transmit(call());
    b.run(0.5);
    assert!(b.station.transmitting(), "the call itself is lawful and keyed");
    assert_eq!(b.station.stats().cw_ids, 0, "but it carries no identifier");
    assert!(
        b.station.take_regulatory_reports().iter().any(|d| d.what == "the Morse identifier" && !d.allowed()),
        "and the refusal is reported"
    );
}

#[test]
fn a_session_whose_dial_moves_out_of_the_data_segment_stops_transmitting() {
    let mut b = lone_station(under_us_rules(14_078_000, ControlMode::Local));
    b.phase(Phase::Session);
    b.event("connected", "KK4XYZ (iss)", QUIET);
    b.transmit(vec![frame(DataKind::Data, 8)]);
    b.run(3.0);
    assert_eq!(b.station.stats().transmissions, 1);
    // the operator turns the dial to the phone segment in the middle of it
    b.station.set_regulatory(
        under_us_rules(14_200_000, ControlMode::Local),
        Ok(twenty_metres()),
        Phase::Session,
        &floors(),
    );
    b.transmit(vec![frame(DataKind::Data, 8)]);
    b.run(3.0);
    assert!(matches!(b.gated[..], [Gated::Halted]), "the session is halted");
    // its disconnect would itself be unlawful there, so it is not sent either
    b.phase(Phase::Idle);
    b.transmit(vec![frame(DataKind::Data, 0)]);
    b.run(3.0);
    assert_eq!(b.station.stats().transmissions, 1, "and nothing more is keyed");
    assert!(b.station.take_regulatory_reports().iter().any(|d| d.code == "no_data_here"));
    assert!(b.station.take_events().iter().any(|e| e.starts_with("regulatory:")));
}

#[test]
fn an_automatic_station_answers_only_where_the_rules_let_it() {
    // inside §97.221(b) (14.1005–14.112 MHz) it answers, and may call too
    let mut inside = lone_station(under_us_rules(14_103_000, ControlMode::Automatic));
    assert!(inside.station.check_originate(0).is_ok());
    inside.transmit(vec![frame(DataKind::ConnectAck, 0)]);
    inside.run(0.5);
    assert!(inside.station.transmitting());

    // outside them it may not call; and no emission is 500 Hz or less under the conservative
    // reading of §97.3(a)(8), so it does not answer either
    let mut outside = lone_station(under_us_rules(14_080_000, ControlMode::Automatic));
    let refusal = outside.station.check_originate(0).expect_err("refused");
    assert!(refusal.code.starts_with("automatic_"), "{}", refusal.code);
    outside.transmit(vec![frame(DataKind::ConnectAck, 0)]);
    outside.run(3.0);
    assert_eq!(outside.station.stats().transmissions, 0, "the automatic station never keyed");
    assert!(outside.station.take_regulatory_reports().iter().any(|d| d.code == "automatic_bandwidth"));
}

#[test]
fn an_automatic_answer_never_climbs_past_500_hz_however_good_the_path() {
    // the rules read as a ratio of powers, under which the tone floor's first rungs are 500 Hz
    // or less: the automatic station answers outside §97.221(b) and stays on them
    let mut profile = twenty_metres();
    profile.bandwidth.reading = Reading::Power;
    let regulatory = under_us_rules(14_080_000, ControlMode::Automatic);
    let mut b = bench_with(StationConfig { regulatory, ..config() }, NullPtt::default(), profile);
    b.transmit(vec![frame(DataKind::ConnectAck, 0)]);
    b.run(3.0);
    assert_eq!(b.station.stats().transmissions, 1, "answered under §97.221(c)");
    b.phase(Phase::Session);
    b.event("connected", "KK4XYZ (irs)", QUIET);
    assert!(
        b.orders.iter().any(|o| matches!(o, Order::SetCeiling(Some(1)))),
        "the ceiling: the tone floor's two rungs: {:?}",
        b.orders
    );
    let status = b.station.regulatory_status(Phase::Session, &floors());
    assert_eq!(status.policy, "rules");
    assert_eq!(status.error, None);
    assert_eq!(status.profile.expect("in force").id, "us-fcc-part97");
    assert!(status.standing.is_some(), "measured");
    let ceiling = status.ceiling.expect("a ceiling");
    assert_eq!((ceiling.rung, ceiling.name, ceiling.of), (Some(1), Some("rung 1".to_owned()), 20));
    assert!(!ceiling.limit.expect("the rung above is refused").allowed());
    let last = status.last.expect("a burst was judged");
    assert!(last.decision.allowed());
    assert_eq!((last.t_us, last.age_us), (0, 3_000_000));
    let permitted = b.station.take_regulatory_reports();
    assert!(!permitted.is_empty());
    for d in &permitted {
        assert!(d.allowed(), "{d:?}");
        assert_eq!(d.code, "automatic_response", "{}", d.what);
        assert!(d.bandwidth <= i128::from(hz(500.0)), "{}", d.what);
    }
}

#[test]
fn a_session_that_ends_is_kept_for_the_history() {
    let mut b = idle_station();
    b.phase(Phase::Session);
    b.event("connected", "KK4XYZ (iss)", QUIET);
    let wire = b.station.send(&vec![0x42; 300], true).expect("handed on");
    b.station.wired(wire.len(), 300, 120);
    b.transmit(vec![frame(DataKind::Data, 9), frame(DataKind::Data, 9)]);
    b.run(4.0);
    b.station.pumped(Engine { acked: 120, crossed: 120, peer_snr_mdb: Some(14_500), ..QUIET });
    assert!(b.station.take_finished_sessions().is_empty(), "nothing has ended yet");
    b.event("disconnected", "closed", Engine { acked: 120, ..QUIET });
    let done = b.station.take_finished_sessions();
    assert_eq!(done.len(), 1);
    let s = &done[0];
    assert_eq!((s.remote.as_str(), s.role), ("KK4XYZ", Role::Caller));
    assert_eq!((s.end.as_str(), s.bytes_sent, s.bytes_received, s.bytes_acked), ("closed", 300, 0, 120));
    assert_eq!((s.bandwidth_hz, s.top_rung_sent, s.top_rung_heard), (2300, Some(9), None));
    assert_eq!((s.heard_there_mdb, s.snr_mdb), (Some(14_500), None));
    assert_eq!(s.duration_us, 4_000_000);
    assert!(!s.test && s.recording.is_none());
    assert!(b.station.take_finished_sessions().is_empty(), "taken once");
    assert_eq!(b.station.stats().bytes_after_compression, 120);
}

#[test]
fn a_session_ends_with_an_identifier_however_it_ends() {
    let mut b = bench(identifying(Settings::unchecked()));
    b.phase(Phase::Session);
    b.event("connected", "KK4XYZ (iss)", QUIET);
    b.transmit(call());
    b.run(5.0);
    assert_eq!(b.station.stats().cw_ids, 1, "one to start");
    b.transmit(vec![frame(DataKind::Data, 3)]);
    b.run(3.0);
    assert_eq!(b.station.stats().cw_ids, 1, "and none inside the interval");
    // the link times out, and the identifier goes out on its own
    b.phase(Phase::Idle);
    b.event("disconnected", "link timeout", QUIET);
    b.station.pumped(QUIET);
    assert!(matches!(b.station.next(), Some(Outgoing::Identifier)));
    b.run(5.0);
    assert_eq!(b.station.stats().cw_ids, 2, "the end was identified");
    assert!(b.station.quiescent(Phase::Idle));
    // a session that was identified at its last transmission owes nothing
    b.event("disconnected", "closed", QUIET);
    b.station.pumped(QUIET);
    assert!(b.station.quiescent(Phase::Idle));
}

#[test]
fn an_identifier_owed_but_impossible_is_dropped_not_queued_for_ever() {
    // no Morse could be made of the callsign: nothing is keyed, and the station does not queue
    // the identifier again on every pass
    let mut b = bench(identifying(Settings::unchecked()));
    b.morse = 0;
    b.transmit(call());
    b.run(0.1);
    b.run(3.0);
    b.event("disconnected", "closed", QUIET);
    b.station.pumped(QUIET);
    b.run(2.0);
    b.station.pumped(QUIET);
    assert!(b.station.quiescent(Phase::Idle));
    assert_eq!(b.station.stats().cw_ids, 0);
    assert_eq!(b.station.stats().transmissions, 1, "the call alone");
}

#[test]
fn a_station_identifies_in_morse_when_asked_to_and_not_otherwise() {
    let mut quiet = idle_station();
    assert!(quiet.station.config().cw_id.is_none(), "it identified without being asked");
    quiet.transmit(call());
    quiet.run(5.0);
    assert_eq!(quiet.station.stats().cw_ids, 0);
    let mut b = bench(identifying(Settings::unchecked()));
    b.transmit(call());
    let keyed = b.run(10.0);
    assert_eq!(b.station.stats().cw_ids, 1, "the identifier never went out");
    // the lead, the burst, the gap, the Morse and the tail, in one keying
    let expected = 4_800 + RATE + 4_800 + 2 * RATE + 2_400;
    assert!(keyed.abs_diff(expected) <= 4_800, "{keyed} for {expected}");
    assert_eq!(b.station.stats().transmissions, 1);
}

#[test]
fn a_transmission_is_laid_out_with_its_identifier_behind_the_burst() {
    let laid = |config: StationConfig, made: Result<u64, String>, morse: u64| {
        let mut b = bench(config);
        b.transmit(call());
        let r = b.station.render_next(made, 0, morse).map(|r| (r.lead, r.burst, r.gap, r.morse, r.tail, r.keep));
        let sum = r.map_or(0, |r| r.0 + u128::from(r.1) + u128::from(r.2) + u128::from(r.3) + r.4);
        assert_eq!(b.station.queued(), sum);
        (r, b.station.stats().cw_ids)
    };
    let unchecked = || identifying(Settings::unchecked());
    let tail = u128::from(config().key_tail_us) * u128::from(RATE) / 1_000_000;
    let plain = Some((4_800, RATE, 0, 0, tail, false));
    assert_eq!(laid(unchecked(), Ok(RATE), 2 * RATE), (Some((4_800, RATE, 4_800, 2 * RATE, tail, false)), 1));
    let kept = StationConfig { record_tx_audio: true, ..unchecked() };
    assert_eq!(laid(kept, Ok(RATE), 2 * RATE), (Some((4_800, RATE, 4_800, 2 * RATE, tail, true)), 1));
    // none is asked for, none could be made, or it would not fit the key
    assert_eq!(laid(config(), Ok(RATE), 2 * RATE), (plain, 0));
    assert_eq!(laid(unchecked(), Ok(RATE), 0), (plain, 0));
    assert_eq!(laid(unchecked(), Ok(RATE), 40 * RATE), (plain, 0));
    // nothing was modulated
    assert_eq!(laid(unchecked(), Ok(0), 2 * RATE), (None, 0));
    assert_eq!(laid(unchecked(), Err("no mode".into()), 2 * RATE), (None, 0));
    // an identifier on its own has no burst, and none of it is kept
    let mut b = bench(StationConfig { record_tx_audio: true, ..unchecked() });
    b.transmit(call());
    b.run(10.0);
    b.transmit(call());
    b.run(10.0);
    b.event("disconnected", "closed", QUIET);
    b.station.pumped(QUIET);
    assert!(matches!(b.station.next(), Some(Outgoing::Identifier)));
    let now = b.station.now();
    let r = b.station.render_next(Ok(0), now, RATE).expect("an identifier");
    assert_eq!((r.lead, r.burst, r.gap, r.morse, r.tail, r.keep), (4_800, 0, 4_800, RATE, tail, false));
}

#[test]
fn the_identifier_does_not_repeat_inside_its_interval() {
    let mut b = bench(identifying(Settings::unchecked()));
    for _ in 0..8 {
        b.transmit(call());
        b.run(10.0);
    }
    assert!(b.station.now() > 60_000_000, "the test did not run long enough to matter");
    assert_eq!(b.station.stats().transmissions, 8);
    assert_eq!(b.station.stats().cw_ids, 1, "it identified again inside 600 s");
}

#[test]
fn a_beacon_is_refused_while_a_session_is_running() {
    let mut b = idle_station();
    assert!(b.station.beacon(beacon(), Phase::Session).is_err(), "it beaconed during a session");
    assert_eq!(b.station.waiting_to_go(), 0);
    assert!(b.station.beacon(Err("no callsign"), Phase::Idle).is_err());
    b.station.beacon(beacon(), Phase::Idle).expect("idle");
    assert_eq!(b.station.stats().beacons_sent, 1);
}

#[test]
fn an_answer_only_station_takes_calls_and_makes_none() {
    let mut b = bench(StationConfig { answer_only: true, ..config() });
    assert_eq!(b.station.connect_as(), Err("this station is answer-only: it takes calls and makes none"));
    assert_eq!(b.station.probe(), Err("this station is answer-only: it answers probes and sends none"));
    assert!(b.station.beacon(beacon(), Phase::Idle).is_err());
    let b = idle_station();
    assert!(b.station.connect_as().is_ok() && b.station.probe().is_ok());
}

#[test]
fn a_keying_test_keys_for_the_time_asked_and_no_longer() {
    let mut b = idle_station();
    b.station.key_test(1_000_000, Phase::Idle).expect("idle");
    let keyed = b.run(5.0);
    assert!(!b.station.transmitting(), "it stayed keyed");
    let expected = (1_000_000 + 100_000 + 50_000) * RATE / 1_000_000;
    assert!(keyed.abs_diff(expected) <= 4_800, "keyed for {keyed} samples, asked for about {expected}");
    assert_eq!(b.station.stats().transmissions, 1);
    assert_eq!(
        b.station.key_test(100_000, Phase::Idle),
        Err("a keying test lasts between 0.2 and 5 seconds")
    );
    assert_eq!(b.station.key_test(1_000_000, Phase::Session), Err("a session is running"));
}

#[test]
fn a_keying_test_keys_now_and_a_tune_waits_for_the_channel() {
    // a fresh station has not learned the noise floor yet, so anything that radiates is held; a
    // keying test radiates nothing and must not be
    let mut b = bench(StationConfig { wait_for_clear: true, ..config() });
    b.channel = Channel { settled: false, busy: false };
    assert!(
        b.station.tune(1_000_000, RATE, Phase::Idle, b.channel).is_err(),
        "a tone went out before the channel was known to be clear"
    );
    assert_eq!(b.station.tune(1_000_000, RATE, Phase::Idle, BUSY), Err("the channel is busy"));
    b.station.key_test(500_000, Phase::Idle).expect("idle");
    b.playback(4096).expect("playback");
    assert!(b.station.transmitting());
    assert_eq!(b.station.stats().deferred_for_busy, 0);
}

fn block(audio: &[f32]) -> Block {
    let full = 1_000_000.0;
    let power = audio.iter().map(|x| (f64::from(*x) * full).powi(2) as u64).sum();
    let peak = audio.iter().map(|x| (f64::from(x.abs()) * full) as u64).max().unwrap_or(0);
    let block = Block::new(power, peak, &audio.iter().map(|x| x.to_bits()).collect());
    assert_eq!(block.clipped, audio.iter().filter(|x| x.abs() >= 1.0).count() as u64);
    assert_eq!(block.length, audio.len() as u64);
    block
}

#[test]
fn a_sample_clips_at_full_scale() {
    let audio =
        [0.0, -0.0, 0.99, -0.999_999_9, 1.0, -1.0, 1.000_000_1, -3.5, f32::INFINITY, f32::NAN, f32::MIN_POSITIVE];
    assert_eq!(block(&audio).clipped, 5);
    assert_eq!(block(&[]).clipped, 0);
}

fn reading(b: &Bench<NullPtt>) -> LevelReading {
    let t = b.station.audio_level();
    let mdb = |x: f64| if x > 0.0 { (20_000.0 * x.log10()).round() as i64 } else { -200_000 };
    LevelReading {
        rms_mdbfs: mdb((t.power as f64 / t.held.max(1) as f64).sqrt() / 1e6),
        peak_mdbfs: mdb(t.peak as f64 / 1e6),
        clipped: t.clipped as u64,
        count: t.held,
        settled: t.settled,
    }
}

#[test]
fn the_level_meter_tells_an_operator_what_to_do() {
    let mut b = idle_station();
    assert_eq!(reading(&b).advice(), "Still listening.");
    let listen = |b: &mut Bench<NullPtt>, level: f32| {
        let audio: Vec<f32> =
            (0..48_000).map(|i| (level * (i as f32 * 0.3).sin()).clamp(-1.0, 1.0)).collect();
        for chunk in audio.chunks(4096).cycle().take(60) {
            let bits: Vec<u32> = chunk.iter().map(|x| x.to_bits()).collect();
            b.station.capture(&bits, block(chunk), chunk.len() / 6);
        }
    };
    listen(&mut b, 0.001);
    assert!(reading(&b).settled);
    assert!(reading(&b).rms_mdbfs < -40_000);
    assert!(reading(&b).advice().starts_with("Very quiet"));
    listen(&mut b, 1.2);
    assert!(reading(&b).advice().starts_with("Clipping"));
    listen(&mut b, 0.9);
    assert!(reading(&b).advice().starts_with("Almost clipping"));
    listen(&mut b, 0.25);
    assert_eq!(reading(&b).advice(), "Good.");
}

#[test]
fn a_station_does_not_key_when_it_has_nothing_to_say() {
    let mut b = idle_station();
    for _ in 0..20 {
        assert_eq!(b.playback(4096).expect("playback"), 0);
        assert!(!b.station.transmitting());
        b.capture(4096);
    }
    assert_eq!(b.station.stats().transmissions, 0);
    assert!(b.station.quiescent(Phase::Idle));
    assert!(!b.station.quiescent(Phase::Session));
}

#[test]
fn a_busy_channel_holds_back_a_call() {
    let mut b = bench(StationConfig { wait_for_clear: true, ..config() });
    b.channel = BUSY;
    b.phase(Phase::Connecting);
    b.transmit(call());
    for _ in 0..5 {
        assert_eq!(b.playback(4096).expect("playback"), 0, "it transmitted over an occupied channel");
        b.capture(4096);
    }
    assert_eq!(b.station.stats().deferred_for_busy, 5);
    assert_eq!(b.station.stats().transmissions, 0);
    // the engine's timers move with the burst
    assert_eq!(b.orders.len(), 4);
    assert!(b.orders.iter().all(|o| matches!(o, Order::TxDelayed(us) if (85_333..=85_334).contains(us))));
    // a probe's answer is a response to a frame addressed to this station
    let mut b = bench(StationConfig { wait_for_clear: true, ..config() });
    b.channel = BUSY;
    b.transmit(vec![frame(DataKind::ProbeAck, 0)]);
    b.run(0.5);
    assert!(b.station.transmitting());
}

#[test]
fn a_station_in_session_answers_even_on_a_busy_channel() {
    assert!(!is_clear(Phase::Idle, BUSY), "an idle station must wait for a busy channel");
    assert!(!is_clear(Phase::Connecting, BUSY), "still only calling");
    assert!(is_clear(Phase::Session, BUSY));
    assert!(is_clear(Phase::Idle, CLEAR));
}

#[test]
fn every_busy_transition_is_logged_with_the_numbers_that_decided_it() {
    let mut b = idle_station();
    let loud =
        BusyReading { level_mdb: -20_000, floor_mdb: -52_000, margin_mdb: 6_000, reason: BusyReason::Level };
    b.station.note_busy_transition(true, &loud, "Idle");
    b.station.note_busy_transition(true, &loud, "Idle");
    let events = b.station.take_events();
    assert_eq!(events.len(), 1, "logged exactly once");
    let on = &events[0];
    assert!(
        on.starts_with("busy:") && on.contains("OFF -> ON") && on.contains("margin 6.0") && on.contains("delta +"),
        "the log carries the level, floor, delta, margin and direction: {on}"
    );
    let quiet = BusyReading { level_mdb: -51_900, ..loud };
    b.station.note_busy_transition(false, &quiet, "Idle");
    assert!(b.station.take_events().iter().any(|e| e.starts_with("busy:") && e.contains("ON -> OFF")));
}

fn heard(detect_confidence: u32, decoded: bool) -> Heard {
    Heard {
        control: true,
        rung: None,
        rv: 0,
        snr_mdb: -12_000,
        cfo_mhz: 0,
        confidence: 1_000,
        detect_confidence,
        decoded,
        bytes: if decoded { 7 } else { 0 },
        says: Says::Nothing,
    }
}

#[test]
fn no_acquisition_lights_the_busy_indicator_on_its_own_only_a_decode_does() {
    let mut b = idle_station();
    b.run(8.0);
    let now = b.station.now();
    let preamble = |detect_confidence: u32| Preamble { tone: false, detect_confidence, start: 0, end: 1000 };
    // just over the threshold: what noise produces
    assert!(b.station.heed_preambles(&vec![preamble(1_050)], now, 0).is_empty());
    assert!(!b.station.receiving());
    // well clear of it, as a frame would be: the receive indicator follows, the channel does not
    let orders = b.station.heed_preambles(&vec![preamble(2_500)], now, 1_000_000);
    assert!(matches!(orders[..], [Order::Preamble(0, seen, 125_000)] if seen == now));
    assert!(b.station.receiving());
    // only a decode is evidence that somebody is on the channel
    assert_eq!(b.station.absorb(&heard(1_380, false), now, &None, "Idle", 1_200), Absorbed::Frame(false));
    assert_eq!(b.station.absorb(&heard(1_380, true), now, &None, "Idle", 1_200), Absorbed::Frame(true));
}

#[test]
fn a_noise_candidate_that_fails_to_decode_does_not_light_the_receive_lamp() {
    let mut b = idle_station();
    b.run(8.0);
    let now = b.station.now();
    assert!(!b.station.receiving(), "dark to begin with");
    b.station.report(&heard(1_050, false), 0, now, &None);
    assert!(!b.station.receiving(), "a candidate that neither decoded nor acquired confidently lit the lamp");
    // a frame that acquired well clear of the threshold is a burst even undecoded
    b.station.report(&heard(1_500, false), 0, now, &None);
    assert!(b.station.receiving(), "a confident acquisition keeps the lamp lit");
    // and a decode is a burst whatever its acquisition looked like
    b.run(1.0);
    assert!(!b.station.receiving(), "the half second has run out a second later");
    let later = b.station.now();
    b.station.report(&heard(1_050, true), 0, later, &None);
    assert!(b.station.receiving(), "a decoded frame lights the lamp");
}

#[test]
fn every_frame_is_reported_with_what_the_receiver_made_of_it() {
    let mut b = idle_station();
    assert!(b.station.last_frame().is_none());
    let beacon = Heard {
        control: false,
        rung: Some(0),
        snr_mdb: 16_040,
        bytes: 9,
        says: Says::Beacon(Some("KK4XYZ".into())),
        ..heard(2_000, true)
    };
    assert_eq!(b.station.absorb(&beacon, 0, &None, "Idle", 1_200), Absorbed::Beacon);
    assert_eq!(b.station.stats().beacons_heard, 1);
    assert_eq!(b.station.take_events(), ["beacon:KK4XYZ at 16.0 dB"]);
    let reports = b.station.take_frame_reports();
    assert_eq!(reports.len(), 1);
    assert_eq!((reports[0].kind, reports[0].from.as_deref(), reports[0].to.as_deref()), ("beacon", Some("KK4XYZ"), None));
    assert_eq!(b.station.last_frame().map(|r| r.kind), Some("beacon"));
    assert!(b.station.take_frame_reports().is_empty(), "reports are taken once");

    // a session's frames carry no callsign, and are attributed by their session number
    let talking = Some(Talking { session: 7, remote: "KK4XYZ".into() });
    let data = |session: u8| Heard { control: false, rung: Some(4), says: Says::Data(session), ..heard(2_000, true) };
    b.station.absorb(&data(7), 0, &talking, "Connected", 1_200);
    b.station.absorb(&data(8), 0, &talking, "Connected", 1_200);
    let from: Vec<Option<String>> = b.station.take_frame_reports().into_iter().map(|r| r.from).collect();
    assert_eq!(from, [Some("KK4XYZ".to_owned()), None]);
    // chips that name no rung of the ladder are noise
    let odd = Heard { control: false, rung: None, ..heard(2_000, false) };
    assert_eq!(b.station.absorb(&odd, 0, &talking, "Connected", 1_200), Absorbed::Noise);
    assert_eq!(b.station.stats().frames_detected, 4);
}

#[test]
fn a_long_frame_costs_a_display_no_more_than_a_short_one() {
    assert_eq!(constellation_step(0), 1);
    assert_eq!(constellation_step(1024), 1);
    assert_eq!(constellation_step(1025), 2);
    assert_eq!(constellation_step(4096), 4);
}

#[test]
fn a_session_keeps_its_account_and_its_throughput() {
    let mut b = idle_station();
    assert!(b.station.link().is_none());
    assert_eq!(b.station.throughput_milli_bps(), 0);
    b.run(1.0);
    b.phase(Phase::Session);
    b.event("connected", "KK4XYZ (iss)", QUIET);
    let link = b.station.link().expect("a session is up");
    assert_eq!((link.started_us, link.bytes_sent, link.bytes_received), (1_000_000, 0, 0));
    assert_eq!(b.station.send(&vec![0x33; 500], true).map(|v| v.len()), Some(500));
    b.station.pump(Action::Deliver(vec![1; 40], false), QUIET, &b.link, &floors());
    let link = b.station.link().expect("still up");
    assert_eq!((link.bytes_sent, link.bytes_received), (500, 40));
    assert_eq!(b.station.take_received(), vec![1; 40]);
    assert_eq!(b.station.received_len(), 0);
    b.station.account(0);
    b.run(10.0);
    b.station.account(1_000);
    assert!(b.station.throughput_milli_bps() > 0);
    b.event("disconnected", "closed", QUIET);
    assert!(b.station.link().is_none(), "the account ends with the session");
    assert_eq!(b.station.throughput_milli_bps(), 0);
    // bytes handed over before a session exists are held
    assert!(b.station.send(&vec![1, 2], false).is_none());
    assert_eq!(b.station.queued_bytes(5), 7);
    assert_eq!(b.station.flush_outbound(), Some(vec![1, 2]));
}

#[test]
fn a_recording_says_what_the_station_transmitted_not_only_what_it_heard() {
    let mut b = bench(StationConfig { record_dir: Some("rec".into()), ..config() });
    let ends = Ends { my_call: "W4ODA".into(), remote: None };
    b.run(1.0);
    let tape = b.station.prepare_recording(Some("sent"), None, "2026-09-19T10:00:00Z", &ends, "Idle").expect("ready");
    assert_eq!((tape.path().as_str(), tape.sidecar().as_str()), ("sent.wav", "sent.json"));
    b.station.begin_recording(tape, "rec/sent.wav", "Idle");
    b.station.set_drive(1, &ladder(), Phase::Idle, CLEAR).expect("set drive");
    b.playback(4800).expect("playback");
    b.station.peaked(500_000);
    b.run(20.0);
    let done = b.station.stop_recording().expect("a recording");
    let sidecar: serde_json::Value =
        serde_json::from_str(&done.document("0.5.0", None, None).write()).expect("json");
    let sent = sidecar["sent"].as_array().expect("a sent array");
    assert!(!sent.is_empty(), "the burst it transmitted is recorded");
    // and the mode it went out on: the fastest the station may use
    assert_eq!((sent[0]["mode"].as_u64(), sent[0]["kind"].as_str(), sent[0]["t_s"].as_f64()), (Some(15), Some("data"), Some(0.0)));
    assert_eq!((sent[0]["bytes"].as_u64(), sent[0]["floor"].as_bool()), (Some(55), Some(false)));
    let events = sidecar["events"].as_array().expect("events");
    assert!(events.iter().any(|e| e["event"] == "ptt" && e["detail"] == "released"));
    // the keying tells how hard the transmitter was driven for it
    let peak = events.iter().find(|e| e["event"] == "tx_peak").expect("a tx_peak event");
    assert_eq!(peak["detail"], "-12.0 dBFS");
}

#[test]
fn a_session_records_itself_when_asked_to() {
    let mut b = idle_station();
    let ends = Ends { my_call: "KK4XYZ".into(), remote: Some("W4ODA".into()) };
    let stamp = "2026-09-19T10:00:00Z";
    assert_eq!(
        b.station.prepare_recording(None, None, stamp, &ends, "Idle").expect_err("nowhere"),
        "no recording directory is configured ([record] dir)"
    );
    b.station.set_recording(Some("rec".into()), true, "40 m dipole, the standing note".into());
    b.station.set_record_notes(Some("bench loopback".into()));
    b.phase(Phase::Session);
    let notes = match b.event("connected", "W4ODA (irs)", QUIET) {
        ForTape::Start(notes) => notes,
        other => panic!("the session did not start a recording: {other:?}"),
    };
    assert_eq!(notes.as_deref(), Some("bench loopback"));
    let tape = b.station.prepare_recording(None, notes.as_deref(), stamp, &ends, "Connected").expect("ready");
    assert!(tape.path().ends_with("_KK4XYZ_W4ODA.wav"), "{}", tape.path());
    let path = tape.path().clone();
    b.station.begin_recording(tape, &path, "Connected");
    assert!(b.station.recording().is_some());
    assert_eq!(
        b.station.prepare_recording(None, None, stamp, &ends, "Idle").expect_err("one at a time"),
        "a recording is already running"
    );
    let frame = Heard { control: false, rung: Some(3), says: Says::Data(1), ..heard(2_000, true) };
    b.station.absorb(&frame, 0, &None, "Connected", 1_200);
    b.transmit(call());
    b.run(6.0);
    assert_eq!(b.station.record_dir(), Some(&"rec".to_owned()));
    assert!(matches!(b.event("disconnected", "closed", QUIET), ForTape::Stop));
    let done = b.station.stop_recording().expect("a recording");
    assert!(b.station.recording().is_none(), "the recording did not stop with the session");
    assert_eq!(done.samples(), 6 * RATE);
    let sidecar: serde_json::Value =
        serde_json::from_str(&done.document("0.5.0", None, None).write()).expect("json");
    assert_eq!(sidecar["session"]["notes"], "bench loopback");
    assert_eq!(sidecar["session"]["remote"], "W4ODA");
    assert!(sidecar["session"]["frequency_hz"].is_null(), "a keying line cannot know the frequency");
    assert!(sidecar["frames"].as_array().expect("frames").iter().any(|f| f["decoded"] == true && f["kind"] == "data"));
    let events: Vec<(String, String)> = sidecar["events"]
        .as_array()
        .expect("events")
        .iter()
        .map(|e| (e["event"].as_str().unwrap_or("").to_owned(), e["detail"].as_str().unwrap_or("").to_owned()))
        .collect();
    // the ptt details are exactly these: the replay reads them back
    assert!(events.contains(&("ptt".into(), "keyed".into())), "{events:?}");
    assert!(events.contains(&("ptt".into(), "released".into())), "{events:?}");
    assert!(events.iter().any(|(e, _)| e == "disconnected"), "{events:?}");
    let summary = done.finish();
    assert_eq!((summary.frames, summary.decoded), (1, 1));
    assert!(b.station.recording_stopped(Ok(summary), "Idle").is_some());
    assert!(b.station.recording_stopped(Err("disk full".into()), "Idle").is_none());
    assert!(
        b.station.take_events().iter().any(|e| e == "error:could not finish the recording: disk full")
    );
    // a second session with no note of its own gets the standing note
    match b.event("connected", "W4ODA (irs)", QUIET) {
        ForTape::Start(notes) => assert_eq!(notes.as_deref(), Some("40 m dipole, the standing note")),
        other => panic!("{other:?}"),
    }
}

#[test]
fn a_spectrum_is_available_once_a_window_of_audio_was_heard() {
    let mut b = idle_station();
    assert!(b.station.spectrum().is_none());
    b.capture(8192);
    assert_eq!(b.station.spectrum().map(|w| w.len()), Some(4096));
    assert!(b.station.passband_due(b.station.now(), CLEAR, -50_000));
    assert!(!b.station.passband_due(b.station.now(), BUSY, -50_000));
    assert!(!b.station.passband_due(b.station.now(), CLEAR, -80_000));
    assert_eq!(b.station.rx_passband(1_500_000_000), None, "not enough quiet audio yet");
}

#[test]
fn the_watchdog_brings_the_key_up_and_drops_what_was_queued() {
    let mut b = bench(StationConfig { max_key_us: 2_000_000, ..config() });
    b.per_frame = 10 * RATE;
    b.transmit(call());
    b.transmit(call());
    b.run(1.0);
    assert!(b.station.transmitting());
    b.run(1.5);
    assert!(!b.station.transmitting(), "the key was down for longer than it may be");
    assert_eq!(b.station.stats().watchdog_trips, 1);
    assert_eq!((b.station.queued(), b.station.waiting_to_go()), (0, 0));
    assert!(b.station.take_device_flush());
    assert!(b.station.take_events().iter().any(|e| e == "watchdog:key time exceeded"));
    b.station.reset_counters();
    assert_eq!(b.station.stats().watchdog_trips, 0);
}

#[test]
fn a_station_that_gives_up_or_shuts_down_is_not_keyed() {
    let mut b = idle_station();
    b.transmit(call());
    b.transmit(call());
    b.run(0.5);
    let (dropped, was, released) = b.station.abandon_tx();
    assert_eq!(dropped.len(), 1);
    assert!(was && released.is_ok());
    assert!(!b.station.transmitting() && b.station.queued() == 0);
    b.transmit(call());
    b.run(0.5);
    assert!(b.station.transmitting());
    b.station.shut_down().expect("released");
    assert!(b.station.quiescent(Phase::Idle));
}

/// A radio that can be asked for its dial and tuned.
struct Rig {
    hz: u64,
}

impl Ptt for Rig {
    fn key(&mut self) -> Result<(), PttError> {
        Ok(())
    }
    fn unkey(&mut self) -> Result<(), PttError> {
        Ok(())
    }
    fn describe(&self) -> String {
        "a rig".into()
    }
    fn fault(&self) -> Option<String> {
        None
    }
    fn frequency_hz(&mut self) -> Option<u64> {
        Some(self.hz)
    }
    fn set_frequency_hz(&mut self, hz: u64) -> Result<(), PttError> {
        if hz > 30_000_000 {
            return Err(PttError::Backend("out of range".into()));
        }
        self.hz = hz;
        Ok(())
    }
    fn can_tune(&self) -> bool {
        true
    }
}

#[test]
fn a_radio_that_reports_its_dial_is_judged_by_it() {
    let settings = Settings { dial_hz: None, ..under_us_rules(0, ControlMode::Local) };
    let mut b = bench_with(
        StationConfig { regulatory: settings, ..config() },
        Rig { hz: 14_200_000 },
        twenty_metres(),
    );
    assert!(b.station.can_tune());
    assert_eq!(b.station.ptt_description(), "a rig");
    assert_eq!(b.station.check_originate(0).expect_err("phone").code, "no_data_here");
    assert_eq!(b.station.tune_to(40_000_000, &b.link, &floors()).expect_err("refused"), "out of range");
    b.station.tune_to(14_078_000, &b.link, &floors()).expect("tuned");
    assert_eq!(b.station.take_events(), ["tune:dial set to 14078000 Hz"]);
    assert_eq!(b.station.frequency_hz(), Some(14_078_000));
    assert!(b.station.check_originate(0).is_ok());
    let talking = Link { phase: Phase::Session, word: "Connected".into() };
    assert_eq!(b.station.tune_to(14_080_000, &talking, &floors()).expect_err("busy"), "a session is running");
    // what would hold on another dial, without going there
    let query = RegulatoryQuery {
        dial: Some(hz(14_200_000.0)),
        control: None,
        license: None,
        sideband: None,
        direction: None,
        rung: None,
    };
    let answer = b.station.regulatory_check(&query, Phase::Idle, &floors()).expect("measured");
    assert_eq!(answer.decision.code, "no_data_here");
    assert_eq!(b.station.regulatory_profile().map(|p| p.id.as_str()), Some("us-fcc-part97"));
    b.transmit(call());
    b.run(0.3);
    assert_eq!(
        b.station.tune_to(14_080_000, &Link { phase: Phase::Idle, word: "Idle".into() }, &floors()).expect_err("keyed"),
        "the transmitter is keyed"
    );
}

#[test]
fn an_air_nobody_measured_is_refused() {
    let mut b = idle_station();
    b.station = Station::new(
        StationConfig { regulatory: under_us_rules(14_078_000, ControlMode::Local), ..config() },
        NullPtt::default(),
        None,
        Ok(twenty_metres()),
    );
    b.transmit(call());
    b.run(1.0);
    assert_eq!(b.station.stats().transmissions, 0);
    assert!(matches!(
        b.station.refresh_ceiling(true, Phase::Idle, &floors()),
        Some(Order::SetCeiling(Some(0)))
    ));
}

#[test]
fn the_link_is_told_the_airs_timing() {
    let tables = |narrow: bool| AirTables {
        narrow,
        data_frame_us: 1_000_000,
        control_frame_us: 400_000,
        symbol_us: 30_000,
        preamble_symbols: 2,
        tone_data_us: vec![5_300_000, 5_300_000],
        tone_control_us: 2_200_000,
        floor_modes: 6,
        payload_bytes: vec![20, 36, 60],
        narrow_thresholds: vec![-12_000, -9_000, -6_000],
        narrow_controls: (-5_200, -11_000),
        wide_controls: (-4_000, -10_000),
        wide_floor_margin: 1_000,
        announce_us: 900_000,
    };
    let wide = phy_timing(&tables(false));
    assert_eq!((wide.turnaround_us, wide.detect_latency_us, wide.tx_latency_us), (250_000, 150_000, 0));
    assert_eq!(wide.preamble_detect_us, Some(120_000));
    assert_eq!(wide.floor_data_frame_us, Some(5_300_000));
    assert!(wide.mode_thresholds.is_empty(), "the wide ladder is the link's own");
    assert_eq!((wide.control_thresholds, wide.floor_margin), (Some((-4_000, -10_000)), Some(1_000)));
    let narrow = phy_timing(&tables(true));
    assert_eq!(narrow.mode_thresholds, [-12_000, -9_000, -6_000]);
    assert_eq!((narrow.control_thresholds, narrow.floor_margin), (Some((-5_200, -11_000)), None));
}

#[test]
fn the_status_says_when_nothing_is_measured_or_the_rules_did_not_load() {
    let regulatory = under_us_rules(14_080_000, ControlMode::Local);
    let config = StationConfig { regulatory, ..config() };
    let mut unmeasured = Station::new(config, NullPtt::default(), None, Ok(twenty_metres()));
    let status = unmeasured.regulatory_status(Phase::Idle, &floors());
    assert_eq!(status.policy, "rules");
    assert_eq!(status.error.as_deref(), Some("nothing is measured for this air"));
    assert!(status.profile.is_some());
    assert!(status.standing.is_none() && status.ceiling.is_none() && status.last.is_none());

    let regulatory = under_us_rules(14_080_000, ControlMode::Local);
    let config = StationConfig { regulatory, ..self::config() };
    let mut broken = Station::new(config, NullPtt::default(), Some(air()), Err("line 3".to_owned()));
    let status = broken.regulatory_status(Phase::Idle, &floors());
    assert_eq!(status.policy, "broken");
    assert_eq!(status.profile, None);
    assert_eq!(
        status.error.as_deref(),
        Some("the us-fcc-part97 regulatory profile is malformed: line 3")
    );
    assert!(!status.standing.expect("measured").indicator.allowed());
}
