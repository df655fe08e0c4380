//! The regulatory policy against 47 CFR Part 97, edge by edge.
use std::sync::Arc;

use aetherd::regulatory::occupancy::{
    AirOccupancy, Edges, Millihertz, Reading, RungOccupancy, CW_HALF_WIDTH_HZ,
};
use aetherd::regulatory::profile::{
    khz, load, Automatic, Band, BandPlan, BandwidthRule, Channel, Channels, CwIdLimit, DataLimit, Elsewhere, Excluded,
    PlanArea, PowerLimit, Privilege, Privileges, Profile, Range, Segment, SixtyEmissions,
};
use aetherd::regulatory::{
    rf_range, Authorization, ControlMode, Decision, DialSource, Direction, EmissionKind, LicenseClass, Policy, Settings,
    Sideband, Situation, Transmission, Verdict,
};

fn hz(f: f64) -> Millihertz {
    (f * 1000.0).round() as Millihertz
}

fn range(low: f64, high: f64) -> Range {
    Range { low: hz(low), high: hz(high) }
}

fn band(name: &str, low: f64, high: f64) -> Band {
    Band { name: name.into(), range: range(low, high) }
}

fn segment(band: &str, low: f64, high: f64) -> Segment {
    Segment {
        band: band.into(),
        range: range(low, high),
        rule: "§97.305(c)".into(),
        max_bandwidth: None,
        bandwidth_rule: None,
    }
}

fn all_modes(low: f64, high: f64) -> Privilege {
    Privilege { range: range(low, high), emissions: None, rule: None }
}

fn only(low: f64, high: f64, emissions: &[&str]) -> Privilege {
    Privilege {
        range: range(low, high),
        emissions: Some(emissions.iter().map(|e| (*e).to_owned()).collect()),
        rule: Some("§97.307(f)(9)".into()),
    }
}

fn united_states() -> Profile {
    let bands = vec![
        band("160 m", 1_800_000.0, 2_000_000.0),
        band("80 m", 3_500_000.0, 4_000_000.0),
        band("60 m", 5_330_500.0, 5_406_500.0),
        band("40 m", 7_000_000.0, 7_300_000.0),
        band("30 m", 10_100_000.0, 10_150_000.0),
        band("20 m", 14_000_000.0, 14_350_000.0),
        band("17 m", 18_068_000.0, 18_168_000.0),
        band("15 m", 21_000_000.0, 21_450_000.0),
        band("12 m", 24_890_000.0, 24_990_000.0),
        band("10 m", 28_000_000.0, 29_700_000.0),
        band("6 m", 50_000_000.0, 54_000_000.0),
    ];
    let mut six = segment("6 m", 50_100_000.0, 54_000_000.0);
    six.max_bandwidth = Some(hz(2800.0));
    six.bandwidth_rule = Some("§97.307(f)(2), (5)".into());
    let extra = bands.iter().map(|b| Privilege { range: b.range, emissions: None, rule: None }).collect();
    Profile {
        id: "us-fcc-part97".into(),
        name: "United States — FCC Part 97".into(),
        country: "US".into(),
        authority: "FCC".into(),
        rules_as_of: "2026-09-01".into(),
        last_amended: "2026-01-01".into(),
        source: "47 CFR Part 97".into(),
        itu_region: 2,
        notes: Vec::new(),
        bandwidth: BandwidthRule { rule: "§97.3(a)(8)".into(), reading: Reading::Wider, why: "the wider of the two".into() },
        data: DataLimit { max_bandwidth: hz(2800.0), rule: "§97.307(f)(3)".into() },
        cw_id: Some(CwIdLimit { max_milli_wpm: 20_000, rule: "§97.119(b)(1)".into() }),
        bands,
        data_segments: vec![
            segment("160 m", 1_800_000.0, 2_000_000.0),
            segment("80 m", 3_500_000.0, 3_600_000.0),
            segment("60 m", 5_351_500.0, 5_366_500.0),
            segment("40 m", 7_000_000.0, 7_125_000.0),
            segment("30 m", 10_100_000.0, 10_150_000.0),
            segment("20 m", 14_000_000.0, 14_150_000.0),
            segment("17 m", 18_068_000.0, 18_110_000.0),
            segment("15 m", 21_000_000.0, 21_200_000.0),
            segment("12 m", 24_890_000.0, 24_930_000.0),
            segment("10 m", 28_000_000.0, 28_300_000.0),
            six,
        ],
        channels: Some(Channels {
            band: "60 m".into(),
            rule: "§97.303(h)".into(),
            width: hz(2800.0),
            carrier_offset: hz(1500.0),
            carrier_tolerance: hz(20.0),
            sideband: "usb".into(),
            list: [5_332_000.0, 5_348_000.0, 5_373_000.0, 5_405_000.0]
                .iter()
                .map(|&f| Channel { center: hz(f) })
                .collect(),
            why: "The channels are shared.".into(),
        }),
        sixty_meter_emissions: Some(SixtyEmissions {
            allowed: vec!["cw".into(), "data".into()],
            rule: "§97.305(c)".into(),
        }),
        privileges: Privileges {
            extra,
            advanced: vec![all_modes(7_025_000.0, 7_300_000.0), all_modes(14_025_000.0, 14_350_000.0)],
            general: vec![
                all_modes(1_800_000.0, 2_000_000.0),
                all_modes(3_525_000.0, 3_600_000.0),
                all_modes(5_330_500.0, 5_406_500.0),
                all_modes(7_025_000.0, 7_125_000.0),
                all_modes(7_175_000.0, 7_300_000.0),
                all_modes(10_100_000.0, 10_150_000.0),
                all_modes(14_025_000.0, 14_150_000.0),
                all_modes(14_225_000.0, 14_350_000.0),
                all_modes(28_000_000.0, 29_700_000.0),
                all_modes(50_000_000.0, 54_000_000.0),
            ],
            technician: vec![
                only(3_525_000.0, 3_600_000.0, &["cw"]),
                only(7_025_000.0, 7_125_000.0, &["cw"]),
                only(28_000_000.0, 28_300_000.0, &["cw", "data", "test"]),
                all_modes(50_000_000.0, 54_000_000.0),
            ],
            novice: vec![only(7_025_000.0, 7_125_000.0, &["cw"])],
            rule: "§97.301".into(),
        },
        automatic: Automatic {
            segments: vec![
                range(3_585_000.0, 3_600_000.0),
                range(7_100_000.0, 7_105_000.0),
                range(10_140_000.0, 10_150_000.0),
                range(14_095_000.0, 14_099_500.0),
                range(14_100_500.0, 14_112_000.0),
                range(18_105_000.0, 18_110_000.0),
                range(21_090_000.0, 21_100_000.0),
                range(24_925_000.0, 24_930_000.0),
                range(28_120_000.0, 28_189_000.0),
                range(50_100_000.0, 54_000_000.0),
            ],
            segments_rule: "§97.221(b)".into(),
            elsewhere: Some(Elsewhere {
                max_bandwidth: hz(500.0),
                requires_response: true,
                rule: "§97.221(c)".into(),
            }),
            excluded_bands: vec![Excluded {
                band: "60 m".into(),
                rule: "§97.221(a)".into(),
                why: "no automatic control there".into(),
            }],
        },
        power: vec![PowerLimit {
            range: range(28_000_000.0, 28_500_000.0),
            max_mw: 200_000,
            measure: "PEP".into(),
            classes: Some(vec!["technician".into(), "novice".into()]),
            rule: "§97.313(c)".into(),
        }],
        band_plan: Some(BandPlan {
            authority: "ARRL".into(),
            source: "arrl.org".into(),
            as_of: "2026".into(),
            data: vec![PlanArea {
                range: range(14_070_000.0, 14_112_000.0),
                label: "the customary data area".into(),
            }],
            avoid: vec![PlanArea { range: range(14_099_500.0, 14_100_500.0), label: "the NCDXF beacons".into() }],
        }),
    }
}

fn edges(power: f64, spectral: f64) -> Edges {
    Edges {
        power: (hz(1500.0 - power), hz(1500.0 + power)),
        spectral: (hz(1500.0 - spectral), hz(1500.0 + spectral)),
    }
}

fn ladder(bandwidth_hz: u64, tones: &[(f64, f64)], ofdm: (f64, f64), rungs: usize) -> AirOccupancy {
    AirOccupancy {
        bandwidth_hz,
        centre: hz(1500.0),
        rungs: (0..rungs)
            .map(|r| {
                let (power, spectral) = tones.get(r).copied().unwrap_or(ofdm);
                RungOccupancy { name: format!("rung {r}"), tone: r < tones.len(), edges: edges(power, spectral) }
            })
            .collect(),
        control_ordinary: edges(ofdm.0, ofdm.1),
        control_floor: edges(tones[0].0, tones[0].1),
    }
}

fn air(bandwidth: usize) -> AirOccupancy {
    if bandwidth == 2300 {
        let tones =
            [(215.0, 262.0), (220.0, 264.0), (420.0, 470.0), (550.0, 600.0), (980.0, 1040.0), (990.0, 1050.0)];
        ladder(2300, &tones, (1180.0, 1260.0), 20)
    } else {
        ladder(500, &[(215.0, 262.0), (220.0, 264.0), (222.0, 266.0), (224.0, 268.0)], (280.0, 355.0), 15)
    }
}

fn us() -> Policy {
    Policy::from_setting("us-fcc-part97", Ok(united_states()))
}

/// The United States profile read the literal way (a ratio of powers), for the paths the
/// conservative reading closes.
fn us_power_reading() -> Policy {
    let mut profile = load("us-fcc-part97", Ok(united_states())).expect("loads");
    profile.bandwidth.reading = Reading::Power;
    Policy::Rules(Arc::new(profile))
}

fn station(dial: f64, control: ControlMode, license: LicenseClass, sideband: Sideband) -> Situation {
    Situation {
        dial: Some(hz(dial)),
        dial_source: Some(DialSource::Radio),
        sideband: Some(sideband),
        control: Some(control),
        license: Some(license),
        itu_region: 2,
        margin: 0,
        band_plan: false,
        power_mw: None,
    }
}

fn local(dial: f64) -> Situation {
    station(dial, ControlMode::Local, LicenseClass::Extra, Sideband::Usb)
}

/// A data emission of known audio edges, the same under both readings: exact arithmetic.
fn data(low: f64, high: f64, direction: Direction) -> Transmission {
    Transmission {
        what: "a test emission".into(),
        kind: EmissionKind::Data,
        audio: Edges { power: (hz(low), hz(high)), spectral: (hz(low), hz(high)) },
        direction,
    }
}

/// Data frames at a rung of an air.
fn rung(bandwidth: usize, rung: usize, direction: Direction) -> Transmission {
    Transmission {
        what: format!("rung {rung} of the {bandwidth} Hz air"),
        kind: EmissionKind::Data,
        audio: air(bandwidth).rung(rung).expect("a rung"),
        direction,
    }
}

fn verdict(policy: &Policy, s: &Situation, tx: &Transmission) -> (Verdict, &'static str) {
    let d = policy.evaluate(s, tx);
    (d.verdict, d.code)
}

const LEGAL: (Verdict, &str) = (Verdict::Legal, "permitted");

#[test]
fn the_united_states_profile_loads_and_holds_together() {
    let us = load("us-fcc-part97", Ok(united_states())).expect("loads");
    assert_eq!(us.itu_region, 2);
    assert_eq!(us.data.max_bandwidth, hz(2800.0));
    assert_eq!(us.data_segments.len(), 11);
    assert_eq!(us.automatic.segments.len(), 10);
    // 6 m: its own bandwidth rule, the HF bands the general one
    let six = us.data_segments.iter().find(|s| s.band == "6 m").expect("6 m");
    assert_eq!(six.data_limit(&us.data), (hz(2800.0), "§97.307(f)(2), (5)"));
    let twenty = us.data_segments.iter().find(|s| s.band == "20 m").expect("20 m");
    assert_eq!(twenty.data_limit(&us.data), (hz(2800.0), "§97.307(f)(3)"));
    assert!(load("uk-ofcom", Ok(united_states())).is_err());
    assert_eq!(khz(hz(7_125_000.0)), "7125");
    assert_eq!(khz(hz(14_099_500.0)), "14099.5");
}

#[test]
fn a_profile_that_does_not_hold_together_is_refused() {
    let mut us = united_states();
    us.data_segments[0].range.high = hz(1_000_000.0);
    assert!(us.check().is_err());
    let mut us = united_states();
    us.data_segments[0].range.low = hz(1_700_000.0);
    assert!(us.check().is_err(), "a segment outside every band");
    let mut us = united_states();
    us.data.max_bandwidth = 0;
    assert!(us.check().is_err());
    let mut us = united_states();
    us.data_segments.last_mut().expect("6 m").max_bandwidth = Some(0);
    assert!(us.check().is_err(), "a segment limit that allows nothing");
}

#[test]
fn what_does_not_hold_together_is_said() {
    let mut us = united_states();
    us.data_segments[0].range.high = hz(1_000_000.0);
    assert_eq!(
        us.check(),
        Err("the us-fcc-part97 profile has a data segment of 1800–1000 kHz".to_owned())
    );
    let mut us = united_states();
    us.bands.clear();
    assert_eq!(
        us.check(),
        Err("the us-fcc-part97 profile names no bands or no data segments".to_owned())
    );
    let mut us = united_states();
    us.data.max_bandwidth = -1;
    assert_eq!(us.check(), Err("the us-fcc-part97 profile has no data bandwidth limit".to_owned()));
    assert!(united_states().check().is_ok());
    assert!(load("us-fcc-part97", Err("line 3".to_owned())).unwrap_err().contains("line 3"));
}

#[test]
fn the_rf_range_is_the_audio_on_the_dial_upper_or_mirrored_lower() {
    let at = |f: f64| hz(f) as i128;
    assert_eq!(
        rf_range(hz(7_080_000.0), Sideband::Usb, hz(1000.0), hz(2000.0)),
        (at(7_081_000.0), at(7_082_000.0))
    );
    assert_eq!(
        rf_range(hz(7_080_000.0), Sideband::Lsb, hz(1000.0), hz(2000.0)),
        (at(7_078_000.0), at(7_079_000.0))
    );
    // the dial is not the centre: a 2 300 Hz waveform centred at 1 500 Hz of audio
    let wide = air(2300).rung(10).expect("rung");
    let (lo, hi) = wide.range(Reading::Wider);
    let (rf_lo, rf_hi) = rf_range(hz(7_080_000.0), Sideband::Usb, lo, hi);
    assert!(((rf_lo + rf_hi) / 2 - at(7_081_500.0)).abs() < at(10.0));
    assert!(rf_lo > at(7_080_000.0), "all of it above the dial on USB");
}

#[test]
fn a_data_segment_holds_a_signal_to_its_last_hertz_and_no_further() {
    let policy = us();
    let tx = data(1000.0, 2000.0, Direction::Originate);
    // 40 m data: 7.000–7.125 MHz; on USB the signal is dial + 1000 … dial + 2000
    let at = |dial: f64| verdict(&policy, &local(dial), &tx);
    assert_eq!(at(7_123_000.0), LEGAL, "the upper occupied edge exactly on the segment's");
    assert_eq!(at(7_122_999.0), LEGAL, "one hertz inside");
    assert_eq!(at(7_123_001.0), (Verdict::Blocked, "outside_data_segment"), "one hertz beyond");
    assert_eq!(at(6_999_000.0), LEGAL, "the lower occupied edge exactly on the segment's");
    assert_eq!(at(6_999_001.0), LEGAL, "one hertz inside");
    assert_eq!(at(6_998_999.0).0, Verdict::Blocked, "one hertz below the band");
    assert_eq!(at(6_900_000.0), (Verdict::Blocked, "out_of_band"), "well below");
    // the 75 m phone band has no data at all
    assert_eq!(at(3_800_000.0), (Verdict::Blocked, "no_data_here"));
}

#[test]
fn on_the_lower_sideband_the_signal_is_mirrored_below_the_dial() {
    let policy = us();
    let tx = data(1000.0, 2000.0, Direction::Originate);
    let lsb = |dial: f64| {
        verdict(&policy, &station(dial, ControlMode::Local, LicenseClass::Extra, Sideband::Lsb), &tx)
    };
    // dial − 2000 … dial − 1000
    assert_eq!(lsb(7_126_000.0), LEGAL, "the upper occupied edge exactly on the segment's");
    assert_eq!(lsb(7_126_001.0).0, Verdict::Blocked, "one hertz beyond");
    assert_eq!(lsb(7_002_000.0), LEGAL, "the lower edge exactly on the band's");
    assert_eq!(lsb(7_001_999.0).0, Verdict::Blocked);
}

#[test]
fn a_nominally_legal_dial_is_refused_when_the_signal_crosses_the_edge() {
    let policy = us();
    // the dial is inside the 40 m data segment; the 2 300 Hz waveform is not
    let tx = rung(2300, 10, Direction::Originate);
    let (_, audio_hi) = tx.audio.range(Reading::Wider);
    let beyond = (hz(7_123_000.0) + audio_hi - hz(7_125_000.0)) as f64 / 1000.0;
    let d = policy.evaluate(&local(7_123_000.0), &tx);
    assert_eq!(d.verdict, Verdict::Blocked);
    assert_eq!(d.code, "outside_data_segment");
    assert!(beyond > 700.0, "{beyond}");
    assert!(d.summary.contains(&format!("extends {beyond:.0} Hz beyond")), "{}", d.summary);
    assert!(d.detail.contains("upper edge of the 40 m data segment"), "{}", d.detail);
    assert_eq!(d.rf_high, Some(hz(7_125_000.0 + beyond) as i128));
    // the 500 Hz waveform fits there
    assert_eq!(verdict(&policy, &local(7_123_000.0), &rung(500, 10, Direction::Originate)), LEGAL);
}

#[test]
fn the_margin_is_kept_at_the_edges() {
    let policy = us();
    let tx = data(1000.0, 2000.0, Direction::Originate);
    let mut s = local(7_123_000.0);
    s.margin = hz(50.0);
    let d = policy.evaluate(&s, &tx);
    assert_eq!(d.code, "outside_data_segment");
    assert!(d.summary.contains("too close"), "{}", d.summary);
    s.dial = Some(hz(7_122_950.0));
    assert_eq!(verdict(&policy, &s, &tx), LEGAL);
}

#[test]
fn an_operator_controls_the_station_locally_or_remotely_under_the_same_rules() {
    let policy = us();
    for control in [ControlMode::Local, ControlMode::Remote] {
        let s = station(14_080_000.0, control, LicenseClass::General, Sideband::Usb);
        for (bandwidth, top) in [(500, 14), (2300, 19)] {
            for r in [0, top] {
                for direction in [Direction::Originate, Direction::Respond] {
                    assert_eq!(
                        verdict(&policy, &s, &rung(bandwidth, r, direction)),
                        LEGAL,
                        "{bandwidth} {r} {control:?}"
                    );
                }
            }
        }
        // §97.221(c)'s 500 Hz is no condition on an operator's station
        let wide = policy.evaluate(&s, &rung(2300, 19, Direction::Originate));
        assert!(wide.bandwidth > hz(2400.0) as i128 && wide.allowed());
    }
}

fn automatic(dial: f64) -> Situation {
    station(dial, ControlMode::Automatic, LicenseClass::General, Sideband::Usb)
}

#[test]
fn an_automatic_station_uses_either_waveform_inside_the_97_221_b_segments() {
    let policy = us();
    // 14.1005–14.112 MHz
    let s = automatic(14_103_000.0);
    for (bandwidth, r) in [(500, 5), (500, 14), (2300, 10), (2300, 19)] {
        for direction in [Direction::Originate, Direction::Respond] {
            let d = policy.evaluate(&s, &rung(bandwidth, r, direction));
            assert_eq!((d.verdict, d.code), (Verdict::Legal, "automatic_segment"), "{bandwidth} {r}");
            assert!(d.summary.contains("§97.221(b)"));
            assert_eq!(d.automatic_segment.map(|a| a.low), Some(hz(14_100_500.0)));
        }
    }
    // a 2 300 Hz signal must fit the segment whole: 14.095–14.0995 is 4.5 kHz, and the
    // beacon gap above it is not in it
    let d = policy.evaluate(&automatic(14_097_500.0), &rung(2300, 10, Direction::Respond));
    assert_eq!(d.code, "automatic_bandwidth", "{}", d.detail);
}

#[test]
fn outside_the_segments_an_automatic_station_may_only_answer_and_only_narrowly() {
    let policy = us();
    let s = automatic(14_080_000.0); // a data segment, not a §97.221(b) segment
    // a 400 Hz emission answering a station under local or remote control: §97.221(c)
    let narrow_answer = policy.evaluate(&s, &data(1300.0, 1700.0, Direction::Respond));
    assert_eq!((narrow_answer.verdict, narrow_answer.code), (Verdict::Legal, "automatic_response"));
    // the same emission starting an exchange
    let narrow_call = policy.evaluate(&s, &data(1300.0, 1700.0, Direction::Originate));
    assert_eq!(narrow_call.code, "automatic_originate");
    assert!(narrow_call.summary.contains("may only respond"), "{}", narrow_call.summary);
    // the 2 300 Hz waveform either way
    for direction in [Direction::Respond, Direction::Originate] {
        let d = policy.evaluate(&s, &rung(2300, 10, direction));
        assert_eq!(d.code, "automatic_bandwidth");
        assert!(d.summary.contains("outside the §97.221(b)"), "{}", d.summary);
    }
    // an operator testing the station at the control point is not automatic control
    assert_eq!(verdict(&policy, &s, &rung(2300, 10, Direction::Operator)), LEGAL);
}

#[test]
fn the_500_hz_air_is_wider_than_500_hz_and_the_tone_floor_depends_on_the_reading() {
    // the narrow air's OFDM rungs exceed 500 Hz however the rule is read, and the tone floor is
    // under it as a ratio of powers but over it as a spectral level; the conservative profile
    // refuses both outside §97.221(b)
    let s = automatic(14_080_000.0);
    let conservative = us();
    let literal = us_power_reading();
    for policy in [&conservative, &literal] {
        assert_eq!(policy.evaluate(&s, &rung(500, 5, Direction::Respond)).code, "automatic_bandwidth");
    }
    assert_eq!(conservative.evaluate(&s, &rung(500, 0, Direction::Respond)).code, "automatic_bandwidth");
    assert_eq!(literal.evaluate(&s, &rung(500, 0, Direction::Respond)).code, "automatic_response");
    assert_eq!(literal.evaluate(&s, &rung(500, 0, Direction::Originate)).code, "automatic_originate");
}

fn floors(bandwidth: usize) -> Vec<bool> {
    let (rungs, floor) = if bandwidth == 2300 { (20, 6) } else { (15, 4) };
    (0..rungs).map(|r| r < floor).collect()
}

#[test]
fn an_automatic_answer_never_climbs_past_500_hz() {
    // the ceiling the link's rate control is held to: however good the path
    let s = automatic(14_080_000.0);
    let wide = air(2300);
    let literal = us_power_reading();
    let ceiling = literal.ceiling(&s, &wide, Direction::Respond, &floors(2300));
    assert_eq!(ceiling.rung, Some(1), "the tone floor's two rungs, and no further");
    assert_eq!(ceiling.limit.as_ref().map(|d| d.code), Some("automatic_bandwidth"));
    // the conservative reading allows nothing there
    assert_eq!(us().ceiling(&s, &wide, Direction::Respond, &floors(2300)).rung, None);
    // inside §97.221(b), everything
    let inside = us().ceiling(&automatic(14_103_000.0), &wide, Direction::Respond, &floors(2300));
    assert_eq!(inside.rung, Some(19));
    // an operator's station near a segment edge: the rungs that fit, and no more
    let edge = us().ceiling(&local(7_122_500.0), &wide, Direction::Originate, &floors(2300));
    assert_eq!(edge.rung, Some(3), "the fast tones up to 1.1 kHz fit, the 1.6 kHz ones do not");
    assert_eq!(edge.limit.map(|d| d.code), Some("outside_data_segment"));
}

fn identifier() -> Transmission {
    Transmission {
        what: "the Morse identifier".into(),
        kind: EmissionKind::Cw,
        audio: Edges::tone(hz(1500.0), CW_HALF_WIDTH_HZ),
        direction: Direction::Originate,
    }
}

#[test]
fn sixty_metres_is_four_channels_and_a_segment() {
    let policy = us();
    let general = |dial: f64, sideband| station(dial, ControlMode::Local, LicenseClass::General, sideband);
    let wide = rung(2300, 10, Direction::Originate);
    // on the 5348 kHz channel: the dial on the carrier, 1.5 kHz below the centre
    let on = policy.evaluate(&general(5_346_500.0, Sideband::Usb), &wide);
    assert_eq!((on.verdict, on.code), (Verdict::Legal, "sixty_channel"), "{}", on.detail);
    assert_eq!(policy.evaluate(&general(5_346_550.0, Sideband::Usb), &wide).code, "sixty_channel");
    assert_eq!(
        policy.evaluate(&general(5_346_550.0, Sideband::Usb), &wide).verdict,
        Verdict::Blocked,
        "50 Hz off the carrier"
    );
    assert_eq!(
        policy.evaluate(&general(5_349_500.0, Sideband::Lsb), &wide).verdict,
        Verdict::Blocked,
        "LSB"
    );
    // in the segment, anywhere it fits
    assert_eq!(policy.evaluate(&general(5_355_000.0, Sideband::Usb), &wide).code, "sixty_segment");
    assert_eq!(policy.evaluate(&general(5_365_000.0, Sideband::Usb), &wide).verdict, Verdict::Blocked);
    // between channels
    assert_eq!(policy.evaluate(&general(5_380_000.0, Sideband::Usb), &wide).code, "sixty_off_channel");
    // CW on the centre; a tune tone nowhere on 60 m; no automatic control
    let id = identifier();
    assert!(policy.evaluate(&general(5_346_500.0, Sideband::Usb), &id).allowed());
    let tune = Transmission { kind: EmissionKind::Test, what: "the tune tone".into(), ..id.clone() };
    assert_eq!(policy.evaluate(&general(5_346_500.0, Sideband::Usb), &tune).code, "sixty_emission");
    let auto = station(5_346_500.0, ControlMode::Automatic, LicenseClass::General, Sideband::Usb);
    assert_eq!(policy.evaluate(&auto, &rung(500, 0, Direction::Respond)).code, "automatic_excluded");
    // a Technician has no 60 m
    let tech = station(5_346_500.0, ControlMode::Local, LicenseClass::Technician, Sideband::Usb);
    assert_eq!(policy.evaluate(&tech, &wide).code, "privilege");
}

#[test]
fn a_license_class_reaches_only_its_privileges() {
    let policy = us();
    let class = |dial: f64, license| station(dial, ControlMode::Local, license, Sideband::Usb);
    let wide = rung(2300, 10, Direction::Originate);
    // 7.020 MHz is Extra only
    assert_eq!(verdict(&policy, &class(7_018_000.0, LicenseClass::Extra), &wide), LEGAL);
    assert_eq!(
        verdict(&policy, &class(7_018_000.0, LicenseClass::General), &wide),
        (Verdict::Blocked, "privilege")
    );
    assert_eq!(verdict(&policy, &class(7_080_000.0, LicenseClass::General), &wide), LEGAL);
    // a Technician's 40 m is CW only; their HF data is 28.0–28.3 MHz
    let tech = policy.evaluate(&class(7_080_000.0, LicenseClass::Technician), &wide);
    assert_eq!(tech.code, "privilege");
    assert!(tech.summary.contains("only CW"), "{}", tech.summary);
    assert_eq!(verdict(&policy, &class(28_120_000.0, LicenseClass::Technician), &wide), LEGAL);
    // CW anywhere in the privileges
    let id = identifier();
    assert!(policy.evaluate(&class(7_080_000.0, LicenseClass::Technician), &id).allowed());
    assert!(
        policy.evaluate(&class(14_300_000.0, LicenseClass::General), &id).allowed(),
        "CW in the phone segment"
    );
    assert!(
        !policy.evaluate(&class(14_300_000.0, LicenseClass::General), &wide).allowed(),
        "but no data there"
    );
}

#[test]
fn the_band_plan_advises_and_never_forbids() {
    let policy = us();
    let wide = rung(2300, 10, Direction::Originate);
    let mut s = local(14_078_000.0);
    s.band_plan = true;
    let inside = policy.evaluate(&s, &wide);
    assert_eq!(inside.verdict, Verdict::Legal);
    assert!(inside.guidance.as_deref().is_some_and(|g| g.contains("band plan")));
    s.dial = Some(hz(14_030_000.0)); // legal, outside the customary data area
    let outside = policy.evaluate(&s, &wide);
    assert_eq!(outside.verdict, Verdict::Warning);
    assert!(outside.allowed());
    assert!(outside.summary.contains("legal under Part 97"), "{}", outside.summary);
    assert!(!outside.summary.contains("BLOCKED"));
    s.band_plan = false;
    assert_eq!(policy.evaluate(&s, &wide).verdict, Verdict::Legal, "guidance off");
}

#[test]
fn what_cannot_be_known_is_a_refusal() {
    let policy = us();
    let wide = rung(2300, 10, Direction::Originate);
    let base = local(14_080_000.0);
    let without = |f: fn(&mut Situation)| {
        let mut s = base;
        f(&mut s);
        policy.evaluate(&s, &wide).code
    };
    assert_eq!(without(|s| s.dial = None), "no_dial");
    assert_eq!(without(|s| s.sideband = None), "no_sideband");
    assert_eq!(without(|s| s.control = None), "no_control");
    assert_eq!(without(|s| s.license = None), "no_license");
    assert_eq!(without(|s| s.itu_region = 3), "region");
    assert_eq!(Policy::Unset.evaluate(&base, &wide).code, "no_profile");
    let broken = Policy::from_setting("xx-nowhere", Ok(united_states()));
    assert!(matches!(broken, Policy::Broken(_)));
    assert_eq!(broken.evaluate(&base, &wide).code, "profile_broken");
    // the operator's own word that no profile applies is not a guess
    assert!(Policy::from_setting("none", Ok(united_states())).evaluate(&base, &wide).allowed());
    // and only the policy makes leave to transmit
    assert!(policy.authorize(&base, &wide).is_ok());
    assert!(Policy::Unset.authorize(&base, &wide).is_err());
}

#[test]
fn the_safe_dial_range_is_the_segment_less_the_signal() {
    let policy = us();
    let wide = air(2300).rung(10).expect("rung");
    let (lo, hi) = wide.range(Reading::Wider);
    let s = station(0.0, ControlMode::Local, LicenseClass::General, Sideband::Usb);
    let dials = policy.safe_dials(&s, wide, Direction::Originate);
    let forty = dials.iter().find(|d| d.band == "40 m").expect("40 m");
    // General on 40 m data: 7.025–7.125 MHz
    assert_eq!(forty.dial_low, (hz(7_025_000.0) - lo) as i128);
    assert_eq!(forty.dial_high, (hz(7_125_000.0) - hi) as i128);
    // at either end the signal sits exactly on the segment's edges
    for dial in [forty.dial_low, forty.dial_high] {
        let mut here = s;
        here.dial = Some(dial as Millihertz);
        assert!(policy.evaluate(&here, &rung(2300, 10, Direction::Originate)).allowed());
    }
    // the 60 m channels, each a single dial
    assert!(dials.iter().any(|d| d.band == "60 m" && d.dial_low == hz(5_346_500.0) as i128));
    // an automatic station: the §97.221(b) segments only
    let auto = station(0.0, ControlMode::Automatic, LicenseClass::General, Sideband::Usb);
    let auto_dials = policy.safe_dials(&auto, wide, Direction::Respond);
    assert!(!auto_dials.is_empty());
    assert!(auto_dials.iter().all(|d| d.rule == "§97.221(b)"), "{auto_dials:?}");
    assert!(auto_dials.iter().all(|d| d.band != "60 m"));
}

#[test]
fn every_safe_dial_is_lawful_to_its_ends_and_no_further() {
    let policy = us();
    for license in [LicenseClass::Technician, LicenseClass::General, LicenseClass::Extra] {
        for sideband in [Sideband::Usb, Sideband::Lsb] {
            for (control, direction) in [
                (ControlMode::Local, Direction::Originate),
                (ControlMode::Automatic, Direction::Respond),
            ] {
                let s = station(0.0, control, license, sideband);
                let tx = rung(2300, 10, direction);
                let dials = policy.safe_dials(&s, tx.audio, direction);
                for d in &dials {
                    for dial in [d.dial_low, d.dial_high] {
                        let mut here = s;
                        here.dial = Some(dial as Millihertz);
                        let decision = policy.evaluate(&here, &tx);
                        assert!(decision.allowed(), "{license:?} {sideband:?} {d:?}: {}", decision.detail);
                    }
                }
                for beyond in dials.iter().filter(|d| d.band == "40 m").map(|d| d.dial_high + 1) {
                    let mut here = s;
                    here.dial = Some(beyond as Millihertz);
                    let listed = dials.iter().any(|d| d.dial_low <= beyond && beyond <= d.dial_high);
                    assert_eq!(policy.evaluate(&here, &tx).allowed(), listed);
                }
            }
        }
    }
}

#[test]
fn the_dials_come_from_the_lowest_up() {
    let s = station(0.0, ControlMode::Local, LicenseClass::Extra, Sideband::Usb);
    let dials = us().safe_dials(&s, air(500).rung(0).expect("rung"), Direction::Originate);
    assert!(dials.len() > 11);
    assert!(dials.windows(2).all(|w| w[0].dial_low <= w[1].dial_low));
}

#[test]
fn a_station_with_no_rules_and_one_with_none_chosen() {
    let s = local(1_000_000.0);
    let tx = data(1000.0, 2000.0, Direction::Originate);
    let free = Policy::NoProfile.evaluate(&s, &tx);
    assert_eq!((free.verdict, free.code), (Verdict::Legal, "no_rules"));
    assert_eq!(free.summary, "No regulatory profile: you check every transmission");
    let unset = Policy::from_setting("  ", Ok(united_states()));
    assert!(matches!(unset, Policy::Unset));
    assert_eq!(unset.id(), "");
    assert_eq!(Policy::NoProfile.id(), "none");
    assert_eq!(us().id(), "us-fcc-part97");
    assert_eq!(us().cw_id_max_milli_wpm(), Some(20_000));
    assert_eq!(Policy::NoProfile.cw_id_max_milli_wpm(), None);
    match Policy::from_setting("\"q\"", Ok(united_states())) {
        Policy::Broken(e) => assert_eq!(e, "there is no regulatory profile called \"\\\"q\\\"\""),
        other => panic!("{other:?}"),
    }
    let unmeasured = us().unmeasured(&s, "this transmission", "nothing is measured");
    assert_eq!(unmeasured.code, "unmeasured");
    assert!(!unmeasured.allowed());
    assert_eq!(
        unmeasured.detail,
        "nothing is measured. Without it Aether cannot say where the signal lands."
    );
}

#[test]
fn leave_is_made_of_the_decision_that_allows() {
    let base = local(14_080_000.0);
    let tx = data(1000.0, 2000.0, Direction::Originate);
    let leave: Authorization = us().authorize(&base, &tx).expect("allowed");
    let d: &Decision = leave.decision();
    assert_eq!((d.verdict, d.code), LEGAL);
    assert_eq!((d.rf_low, d.rf_high), (Some(hz(14_081_000.0) as i128), Some(hz(14_082_000.0) as i128)));
    let refusal = us().authorize(&local(6_900_000.0), &tx).expect_err("refused");
    assert_eq!(refusal.code, "out_of_band");
}

#[test]
fn the_words_of_the_settings_are_read_and_written() {
    for (word, mode) in [("local", ControlMode::Local), ("remote", ControlMode::Remote), ("automatic", ControlMode::Automatic)] {
        assert_eq!(ControlMode::parse(word), Some(mode));
        assert_eq!(mode.name(), word);
    }
    assert_eq!(ControlMode::parse("Local"), None);
    for (word, class) in [
        ("extra", LicenseClass::Extra),
        ("advanced", LicenseClass::Advanced),
        ("general", LicenseClass::General),
        ("technician", LicenseClass::Technician),
        ("novice", LicenseClass::Novice),
    ] {
        assert_eq!(LicenseClass::parse(word), Some(class));
        assert_eq!(class.name(), word);
    }
    assert_eq!(LicenseClass::parse("amateur"), None);
    assert_eq!(LicenseClass::Extra.title(), "Amateur Extra");
    assert_eq!(Sideband::parse("usb"), Some(Sideband::Usb));
    assert_eq!(Sideband::parse("lsb"), Some(Sideband::Lsb));
    assert_eq!(Sideband::parse("am"), None);
    assert_eq!(Sideband::Lsb.name(), "lsb");
    assert_eq!(EmissionKind::Data.name(), "data");
    assert_eq!(EmissionKind::Cw.name(), "cw");
    let free = Settings::unchecked();
    assert_eq!(free.profile, "none");
    assert_eq!(free.margin, 50_000);
}

#[test]
fn power_beyond_a_limit_is_a_warning() {
    let mut s = station(28_120_000.0, ControlMode::Local, LicenseClass::Technician, Sideband::Usb);
    s.power_mw = Some(250_000);
    let d = us().evaluate(&s, &rung(2300, 10, Direction::Originate));
    assert_eq!(d.verdict, Verdict::Warning);
    assert_eq!(d.notes, ["At 250 W: a Novice or Technician is limited to 200 W PEP here (§97.313(c))."]);
    s.power_mw = Some(200_000);
    assert_eq!(verdict(&us(), &s, &rung(2300, 10, Direction::Originate)), LEGAL);
}

#[test]
fn a_station_in_another_region_has_no_safe_dial() {
    let tx = data(1000.0, 2000.0, Direction::Originate);
    let mut s = station(0.0, ControlMode::Local, LicenseClass::General, Sideband::Usb);
    assert!(!us().safe_dials(&s, tx.audio, Direction::Originate).is_empty());
    s.itu_region = 3;
    s.dial = Some(hz(14_080_000.0));
    assert_eq!(us().evaluate(&s, &tx).code, "region");
    assert!(us().safe_dials(&s, tx.audio, Direction::Originate).is_empty());
}
