//! Recordings, their replay, the session history, the simulated channel and the spectrum.
use aetherd::json::Json;
use aetherd::record::{
    looks_like_chunk, read_wav, sample_bytes, session_name, wav_header, FrameRecord, Recording, Samples, FORMAT,
};
use aetherd::replay::{check_rate, compare, describe, is_deaf, run, Block, Expectation, Muted, Verdict};
use aetherd::sessions::{File, Role, Session, SessionLog, LIMIT};
use aetherd::sim::{tries_again, Noise, Peer, SimConfig, SimLink};
use aetherd::spectrum::{passband_width, PassbandMonitor, Spectrum, SpectrumAnalyser, MIN_OBSERVATIONS, TOP_HZ, WINDOW};

fn json(text: &str) -> Json {
    Json::parse(text).expect("json")
}

fn value(json: &Json) -> serde_json::Value {
    serde_json::from_str(&json.write()).expect("json")
}

fn quantised(audio: &[f32]) -> Vec<i16> {
    audio.iter().map(|x| (x.clamp(-1.0, 1.0) * 32_767.0).round() as i16).collect()
}

fn wav(rate: u32, declared: u64, samples: &Vec<i16>) -> Vec<u8> {
    let mut bytes = wav_header(rate, declared);
    bytes.extend(sample_bytes(samples));
    bytes
}

#[test]
fn a_recording_round_trips_through_the_wav_it_writes() {
    let audio: Vec<f32> = (0..96_000).map(|i| 0.5 * (i as f32 * 0.05).sin()).collect();
    let mut recording =
        Recording::start("test", 48_000, "2026-09-14T12:34:56Z", 10_000_000, json(r#"{"callsign": "W4ODA"}"#));
    let mut samples: Vec<i16> = Vec::new();
    for block in audio.chunks(4_096) {
        recording.captured(block.len());
        samples.extend(quantised(block));
    }
    recording.frame(FrameRecord {
        t_us: 11_500_000,
        kind: "data".into(),
        mode: 4,
        rv: 0,
        snr_3k_mdb: 7_250,
        cfo_mhz: Some(-3_000),
        confidence: 940,
        detect_confidence: 13_600,
        decoded: true,
        bytes: 144,
        control: None,
    });
    recording.event(12_000_000, "connected", "W4XYZ", "Connected");
    let counters = json(r#"{"frames_sent": 3}"#);
    let ended = "2026-09-14T12:34:58Z".to_owned();
    let sidecar = value(&recording.document("0.1.0", Some(&ended), Some(&counters)));
    assert_eq!(recording.milliseconds(), 2_000);
    let summary = recording.finish();
    assert_eq!(summary.samples, 2 * 48_000);
    assert_eq!(summary.frames, 1);
    assert_eq!(summary.decoded, 1);
    assert_eq!(summary.wav, "test.wav");
    assert_eq!(summary.sidecar, "test.json");

    let back = read_wav(&wav(48_000, summary.samples, &samples)).expect("read");
    assert_eq!(back.sample_rate, 48_000);
    let heard = match back.samples {
        Samples::Pcm(v) => v,
        Samples::Float(_) => panic!("sixteen bits were written"),
    };
    assert_eq!(heard.len(), audio.len());
    let worst = heard
        .iter()
        .zip(&audio)
        .map(|(a, b)| (f32::from(*a) / 32_768.0 - b).abs())
        .fold(0.0f32, f32::max);
    assert!(worst < 1.0 / 32_000.0, "16-bit round trip is off by {worst}");

    assert_eq!(sidecar["format"], FORMAT);
    assert_eq!(sidecar["audio"]["samples"], 96_000);
    assert_eq!(sidecar["session"]["callsign"], "W4ODA");
    // times are relative to the start of the recording
    assert!((sidecar["frames"][0]["t_s"].as_f64().unwrap() - 1.5).abs() < 1e-9);
    assert!((sidecar["events"][0]["t_s"].as_f64().unwrap() - 2.0).abs() < 1e-9);
    assert_eq!(sidecar["frames"][0]["cfo_hz"], -3.0);
    assert_eq!(sidecar["frames"][0]["snr_3k_db"], 7.25);
    assert_eq!(sidecar["frames"][0]["confidence"], 0.94);
    assert_eq!(sidecar["frames"][0]["detect_confidence"], 13.6);
    assert_eq!(sidecar["counters"]["frames_sent"], 3);
    assert!(sidecar["ended"].is_string());
}

#[test]
fn a_recording_cut_short_still_plays_to_where_it_got() {
    // the header is patched every five seconds; a daemon that died a second after the last patch
    // leaves a file whose declared length is short, and the reader takes the data that is
    // actually there, not the header's word for it
    let mut recording = Recording::start("short", 48_000, "2026-09-14T12:34:56Z", 0, json("{}"));
    let mut declared = 0;
    let mut written = None;
    let mut samples: Vec<i16> = Vec::new();
    for _ in 0..7 {
        let block = vec![0.25f32; 48_000];
        samples.extend(quantised(&block));
        if recording.captured(block.len()) {
            declared = recording.samples();
            written = Some(value(&recording.document("0.1.0", None, None)));
        }
    }
    assert_eq!(declared, 5 * 48_000);
    // no finish: as a crash would leave it
    let back = read_wav(&wav(48_000, declared, &samples)).expect("read");
    match back.samples {
        Samples::Pcm(v) => assert_eq!(v.len(), 7 * 48_000, "the un-patched tail was dropped"),
        Samples::Float(_) => panic!("sixteen bits were written"),
    }
    // and the sidecar written at the last patch is a complete document
    let sidecar = written.expect("a patch");
    assert_eq!(sidecar["audio"]["samples"], 5 * 48_000);
    assert!(sidecar["ended"].is_null());
}

#[test]
fn the_reader_takes_the_first_channel_of_a_float_file() {
    // what most recorders write: stereo 32-bit float
    let mut bytes = Vec::new();
    let frames = 100u32;
    bytes.extend_from_slice(b"RIFF");
    bytes.extend_from_slice(&(36 + frames * 8).to_le_bytes());
    bytes.extend_from_slice(b"WAVEfmt ");
    bytes.extend_from_slice(&16u32.to_le_bytes());
    bytes.extend_from_slice(&3u16.to_le_bytes()); // float
    bytes.extend_from_slice(&2u16.to_le_bytes()); // stereo
    bytes.extend_from_slice(&48_000u32.to_le_bytes());
    bytes.extend_from_slice(&(48_000u32 * 8).to_le_bytes());
    bytes.extend_from_slice(&8u16.to_le_bytes());
    bytes.extend_from_slice(&32u16.to_le_bytes());
    bytes.extend_from_slice(b"data");
    bytes.extend_from_slice(&(frames * 8).to_le_bytes());
    for i in 0..frames {
        bytes.extend_from_slice(&(i as f32 / 100.0).to_le_bytes());
        bytes.extend_from_slice(&(-1.0f32).to_le_bytes());
    }
    let back = read_wav(&bytes).expect("read");
    let samples = match back.samples {
        Samples::Float(v) => v,
        Samples::Pcm(_) => panic!("floats were written"),
    };
    assert_eq!(samples.len(), 100);
    assert!((f32::from_bits(samples[42]) - 0.42).abs() < 1e-6);
}

#[test]
fn a_file_that_is_no_recording_is_refused_with_a_reason() {
    assert!(read_wav(&b"not a wav".to_vec()).is_err());
    let good = wav(48_000, 2, &vec![1, -2]);
    assert_eq!(good.len(), 44 + 4);
    assert_eq!(&good[..4], b"RIFF");
    assert!(read_wav(&good[..20].to_vec()).is_err(), "no format");
    assert!(read_wav(&good[..36].to_vec()).is_err(), "no data");
    let mut strange = good.clone();
    strange[20] = 7;
    assert!(read_wav(&strange).is_err(), "an encoding nobody knows");
    match read_wav(&good).expect("read").samples {
        Samples::Pcm(v) => assert_eq!(v, [1, -2]),
        Samples::Float(_) => panic!("sixteen bits were written"),
    }
    assert!(looks_like_chunk(&b"data\x01\x00\x00\x00".to_vec(), 0));
    assert!(!looks_like_chunk(&b"da\x01a\x01\x00\x00\x00".to_vec(), 0));
    assert!(!looks_like_chunk(&b"data\x01\x00\x00".to_vec(), 0));
}

#[test]
fn session_names_are_sortable_and_safe_for_a_file_system() {
    let stamp = "2026-09-14T12:34:56.789Z";
    let name = session_name(stamp, "KK4ODA/M", Some("W4XYZ"));
    assert!(name.ends_with("_KK4ODA-M_W4XYZ"), "{name}");
    assert_eq!(name.len(), "20260914-123456".len() + "_KK4ODA-M_W4XYZ".len(), "{name}");
    assert!(name.chars().all(|c| c.is_ascii_alphanumeric() || c == '-' || c == '_'));
    assert!(session_name(stamp, "W4ODA", None).ends_with("_W4ODA_listen"));
    assert_eq!(name, "20260914-123456_KK4ODA-M_W4XYZ");
}

fn frame(t_us: i64, kind: &str, mode: usize, rv: u8, snr: i64, decoded: bool, bytes: usize) -> FrameRecord {
    FrameRecord {
        t_us,
        kind: kind.into(),
        mode,
        rv,
        snr_3k_mdb: snr,
        cfo_mhz: Some(0),
        confidence: 0,
        detect_confidence: 0,
        decoded,
        bytes,
        control: None,
    }
}

#[test]
fn a_sidecar_yields_its_frames_and_the_keyed_intervals() {
    let sidecar = format!(
        r#"{{
            "format": "{FORMAT}",
            "frames": [
                {{"t_s": 1.0, "kind": "control", "mode": 0, "rv": 0, "snr_3k_db": 5.0,
                  "cfo_hz": 0.0, "decoded": true, "bytes": 10}},
                {{"t_s": 3.0, "kind": "data", "mode": 4, "rv": 1, "snr_3k_db": 2.0,
                  "cfo_hz": 0.0, "decoded": false, "bytes": 0}}
            ],
            "events": [
                {{"t_s": 1.5, "event": "ptt", "detail": "keyed", "state": "Connected"}},
                {{"t_s": 2.5, "event": "ptt", "detail": "released", "state": "Connected"}},
                {{"t_s": 4.0, "event": "ptt", "detail": "keyed", "state": "Connected"}}
            ]
        }}"#
    );
    let frames = vec![
        frame(1_000_000, "control", 0, 0, 5_000, true, 10),
        frame(3_000_000, "data", 4, 1, 2_000, false, 0),
    ];
    let expectation = Expectation::from_sidecar("s.json", &sidecar, Ok(frames)).expect("sidecar");
    assert_eq!(expectation.frames.len(), 2);
    assert_eq!(
        expectation.muted,
        vec![
            Muted { from: 1_500_000_000, until: Some(2_500_000_000) },
            Muted { from: 4_000_000_000, until: None }
        ]
    );
    assert_eq!(compare(&expectation.frames, &Vec::new()).recorded, 1);
}

#[test]
fn a_document_that_is_no_sidecar_is_refused() {
    let other = Expectation::from_sidecar("x.json", "{}", Ok(Vec::new()));
    assert_eq!(
        other.err(),
        Some("x.json is not a session sidecar (aether-hf-session/1 expected)".to_owned())
    );
    let gone = Expectation::from_document("x.json", &Err("no such file".to_owned()), Ok(Vec::new()));
    assert_eq!(gone.err(), Some("x.json: no such file".to_owned()));
    let torn = Expectation::from_sidecar("x.json", "{", Ok(Vec::new()));
    assert_eq!(torn.err(), Some("x.json: EOF while parsing an object at line 1 column 1".to_owned()));
    let sidecar = format!(r#"{{"format": "{FORMAT}"}}"#);
    let odd = Expectation::from_sidecar("x.json", &sidecar, Err("missing field `t_s`".to_owned()));
    assert_eq!(odd.err(), Some("x.json: frames: missing field `t_s`".to_owned()));
}

#[test]
fn a_replay_feeds_every_sample_once_and_hears_nothing_while_keyed() {
    let muted = vec![Muted { from: 20_000_000, until: Some(40_000_000) }];
    assert!(is_deaf(&muted, 960, 48_000));
    assert!(!is_deaf(&muted, 959, 48_000));
    assert!(!is_deaf(&muted, 1_920, 48_000));
    let blocks = run(2_000, 48_000, &muted);
    assert_eq!(
        blocks,
        [
            Block { from: 0, to: 960, deaf: false },
            Block { from: 960, to: 1_920, deaf: true },
            Block { from: 1_920, to: 2_000, deaf: false },
        ]
    );
    let for_ever = vec![Muted { from: 0, until: None }];
    assert!(run(5_000, 48_000, &for_ever).iter().all(|b| b.deaf));
}

#[test]
fn a_replay_holds_when_no_fewer_frames_decode() {
    let found = vec![frame(0, "data", 0, 0, 0, true, 26)];
    let verdict = compare(&found, &Vec::new());
    assert_eq!(verdict, Verdict { recorded: 1, replayed: 0, found: 0 });
    assert!(!verdict.holds());
    assert!(compare(&found, &found).holds());
    assert!(compare(&Vec::new(), &found).holds());
    assert!(check_rate("a.wav", 48_000, 48_000).is_ok());
    assert!(check_rate("a.wav", 44_100, 48_000).unwrap_err().contains("44100"));
    let mut line = frame(1_234_567, "data", 4, 1, -1_250, true, 26);
    line.cfo_mhz = Some(3_460);
    assert_eq!(describe(&line), "    1.23 s  data    mode  4 rv 1    -1.2 dB  cfo   +3.5 Hz  decoded 26 bytes");
    line.control = Some("ACK 3".into());
    assert!(describe(&line).ends_with("ACK 3"));
}

fn session(remote: &str, ended_ms: u64) -> Session {
    Session {
        remote: remote.to_owned(),
        started_ms: 0,
        ended_ms,
        duration_us: 60_000_000,
        role: Role::Caller,
        bandwidth_hz: 2300,
        frequency_hz: Some(3_588_000),
        bytes_sent: 2048,
        bytes_acked: 2100,
        bytes_received: 12,
        end: "closed".to_owned(),
        snr_mdb: Some(4_500),
        best_snr_mdb: Some(6_000),
        heard_there_mdb: Some(-500),
        top_rung_sent: Some(3),
        top_rung_heard: Some(7),
        test: true,
        recording: Some("20260925-015107_KK4ODA-1_ND1J_test".to_owned()),
    }
}

#[test]
fn a_session_is_placed_on_the_calendar_by_when_it_ended() {
    let s = session("ND1J", 0).ended_at(1_790_000_000_000);
    assert_eq!(s.ended_ms, 1_790_000_000_000);
    assert_eq!(s.started_ms, 1_790_000_000_000 - 60_000);
}

#[test]
fn the_sessions_are_newest_first_bounded_and_found_by_station() {
    let mut log = SessionLog::open(None, None);
    for i in 0..(LIMIT as u64 + 5) {
        log.add(session(if i % 2 == 0 { "ND1J" } else { "W4TGA" }, 1_000 + i));
    }
    let all = log.sessions(None);
    assert_eq!(all.len(), LIMIT);
    assert_eq!(all[0].ended_ms, 1_000 + LIMIT as u64 + 4);
    let nd1j = log.sessions(Some("nd1j"));
    assert!(!nd1j.is_empty());
    assert!(nd1j.iter().all(|s| s.remote == "ND1J"));
    assert!(nd1j.windows(2).all(|w| w[0].ended_ms > w[1].ended_ms));
    assert_eq!(log.clear(), LIMIT);
    assert!(log.sessions(None).is_empty());
}

#[test]
fn the_sessions_survive_a_restart_in_their_file() {
    let path = Some("sessions.json".to_owned());
    let saved = {
        let mut log = SessionLog::open(path.clone(), None);
        assert!(log.sessions(None).is_empty());
        log.add(session("ND1J", 1_000));
        log.add(session("W4TGA", 2_000));
        log.save()
    };
    let log = SessionLog::open(path.clone(), Some(saved));
    assert_eq!(log.path(), Some(&"sessions.json".to_owned()));
    let sessions = log.sessions(None);
    assert_eq!(sessions.len(), 2);
    assert_eq!(sessions[0].remote, "W4TGA");
    assert_eq!(sessions[1], session("ND1J", 1_000));
    // a damaged file is an empty history, not a refusal to start
    assert!(SessionLog::open(path.clone(), None).sessions(None).is_empty());
    let newer = File { schema: 2, sessions: vec![session("ND1J", 1_000)] };
    assert!(SessionLog::open(path, Some(newer)).sessions(None).is_empty());
}

#[test]
fn two_ends_carry_audio_both_ways_paced_by_the_clock() {
    let config = |peer: Peer| SimConfig { peer, snr_mdb: 60_000, sample_rate: 48_000 };
    let mut a = SimLink::open(&config(Peer::Listen("127.0.0.1:0".into())), 0);
    let mut b = SimLink::open(&config(Peer::Connect("127.0.0.1:0".into())), 0);
    assert_eq!(a.description(), "simulated channel (listening on 127.0.0.1:0), 60 dB SNR in 3 kHz");
    let tone: Vec<u32> = (0..9_600).map(|i| (0.25 * (i as f32 * 0.2).sin()).to_bits()).collect();
    assert_eq!(a.playback(&tone), None, "nobody is there yet");
    a.found();
    b.found();
    assert!(a.connected() && b.connected());

    // a plays a tone; b captures it at the wall clock's pace
    let bytes = a.playback(&tone).expect("bytes for the peer");
    assert_eq!(bytes.len(), 4 * tone.len());
    assert!(a.queued(10_000) > 0, "the backlog should be visible until the clock eats it");
    // however the reads cut it
    b.heard(&bytes[..4_001].to_vec());
    b.heard(&bytes[4_001..].to_vec());
    let mut heard = Vec::new();
    for t in 1..=5u64 {
        heard.extend(b.capture(250_000 + t * 20_000));
    }
    assert_eq!(heard.len(), 350 * 48);
    assert_eq!(heard[..tone.len()], tone[..]);
    assert!(heard[tone.len()..].iter().all(|&x| x == 0));

    // and the other way
    let back = b.playback(&tone).expect("bytes for the peer");
    a.heard(&back);
    assert_eq!(a.capture(350_000)[..tone.len()], tone[..]);
    assert!(!a.lost() && !b.lost());
    b.gone();
    assert!(b.lost() && b.connected());
}

#[test]
fn the_channel_is_tried_again_for_a_while_and_its_noise_is_drawn() {
    assert!(tries_again(0, 1_000_000));
    assert!(!tries_again(0, u64::MAX));
    let mut noise = Noise::new(42);
    let mut sum = 0.0f64;
    let n = 100_000;
    for _ in 0..n {
        let x = noise.uniform();
        assert!(x < 1 << 53);
        sum += x as f64 / (1u64 << 53) as f64;
    }
    assert!((sum / f64::from(n) - 0.5).abs() < 0.01);
    let mut again = Noise::new(42);
    let mut other = Noise::new(44);
    assert_eq!(Noise::new(42).uniform(), again.uniform());
    assert_ne!(Noise::new(42).uniform(), other.uniform());
}

const BIN: u64 = 48_000_000_000 / 4096;

/// A flat noise spectrum band-limited to `[lo, hi]` Hz: full noise inside, a floor outside, as a
/// receiver's filter delivers it.
fn filtered_noise(lo: f64, hi: f64) -> Vec<i64> {
    let bin_hz = BIN as f64 / 1e6;
    let bins = (TOP_HZ as f64 / bin_hz) as usize + 1;
    (0..bins)
        .map(|k| {
            let hz = k as f64 * bin_hz;
            if hz >= lo && hz <= hi { -40_000_000 } else { -95_000_000 }
        })
        .collect()
}

fn hertz(width: Option<u128>) -> f64 {
    width.expect("a width") as f64 / 1e6
}

const CENTRE: u64 = 1_500_000_000;

#[test]
fn the_passband_width_is_read_from_where_the_noise_drops() {
    // a 2.4 kHz SSB filter around 1500 Hz: ~300..2700
    let wide = filtered_noise(300.0, 2700.0);
    let w = hertz(passband_width(&wide, BIN, CENTRE));
    assert!((w - 2400.0).abs() < 120.0, "wide filter read as {w} Hz");
    // a 500 Hz filter around 1500 Hz: ~1250..1750
    let narrow = filtered_noise(1250.0, 1750.0);
    let n = hertz(passband_width(&narrow, BIN, CENTRE));
    assert!((n - 500.0).abs() < 120.0, "narrow filter read as {n} Hz");
    assert!(n < 2300.0 - 400.0, "a 500 Hz filter must read narrow: {n} Hz");
}

#[test]
fn a_flat_spectrum_with_no_drop_reads_wide_not_narrow() {
    let flat = vec![-40_000_000i64; filtered_noise(0.0, 0.0).len()];
    // nothing drops, so it runs to the ends: wider than any modem bandwidth, never a false
    // "too narrow"
    let w = hertz(passband_width(&flat, BIN, CENTRE));
    assert!(w > 2300.0, "flat noise read as {w} Hz, would false-warn");
}

#[test]
fn the_monitor_waits_for_enough_noise_before_it_estimates() {
    let spectrum = Spectrum { bin: BIN, bins: filtered_noise(1250.0, 1750.0) };
    let mut monitor = PassbandMonitor::new();
    monitor.observe(&spectrum);
    assert!(monitor.width(CENTRE).is_none(), "one look is not enough");
    for _ in 0..MIN_OBSERVATIONS {
        monitor.observe(&spectrum);
    }
    let w = hertz(monitor.width(CENTRE));
    assert!((w - 500.0).abs() < 120.0, "monitor read {w} Hz");
    assert_eq!(monitor.observations(), MIN_OBSERVATIONS + 1);
}

#[test]
fn only_the_newest_window_is_kept() {
    let mut analyser = SpectrumAnalyser::new(48_000);
    assert!(analyser.compute().is_none(), "nothing heard yet");
    analyser.push(&vec![1.0f32.to_bits(); 3 * WINDOW]);
    assert!(analyser.ready());
    assert_eq!(analyser.compute().expect("a window").len(), WINDOW);
    analyser.push(&vec![0.0f32.to_bits(); 100]);
    let window = analyser.compute().expect("a window");
    assert_eq!(window.len(), WINDOW);
    assert_eq!(window.last(), Some(&0.0f32.to_bits()));
    assert_eq!(window.iter().filter(|&&x| x == 1.0f32.to_bits()).count(), WINDOW - 100);
    assert_eq!(analyser.window_us(), 85_333);
    assert_eq!(analyser.bins(), 342);
}
