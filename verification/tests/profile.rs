//! Station profiles.
use aetherd::json::{Json, Number};
use aetherd::profile::{
    changed_keys, id_for, portable, strip_nulls, Adoption, Applied, DeviceHint, Entry, Hardware, Inventory, Memory,
    Parsed, Profile, ProfileError, State, Store, ADOPTED_NAME, EXTENSION, FORMAT, NAME_CHARS, SCHEMA,
};
use aetherd::settings::{set_leaf, shapes};

const CURRENT: u32 = 2;

fn json(text: &str) -> Json {
    Json::parse(text).expect("json")
}

fn text(s: &str) -> Json {
    Json::Text(s.to_owned())
}

fn at<'a>(document: &'a Json, key: &str) -> Option<&'a Json> {
    key.split('.').try_fold(document, |cursor, part| cursor.get(part))
}

fn is(document: &Json, key: &str, value: &str) -> bool {
    at(document, key).is_some_and(|v| v.equal(&json(value)))
}

/// A configuration where nothing is set.
fn plain() -> Json {
    let mut out = Json::Table(Vec::new());
    for (key, value) in shapes() {
        if !key.starts_with("ptt.") {
            set_leaf(&mut out, &key, value);
        }
    }
    for key in [
        "operator.power_w", "audio.input", "audio.output", "control.token", "control.ui_dir", "log.file",
        "record.dir", "sim.listen", "sim.connect",
    ] {
        set_leaf(&mut out, key, Json::Null);
    }
    for key in ["operator.grid", "operator.rig", "operator.antenna"] {
        set_leaf(&mut out, key, text(""));
    }
    set_leaf(&mut out, "radio.max_mode", json("15"));
    set_leaf(&mut out, "ptt", json(r#"{"kind": "none"}"#));
    out
}

fn station() -> Json {
    let mut out = plain();
    for (key, value) in [
        ("callsign", r#""KK4ODA""#),
        ("operator.grid", r#""EM73tv""#),
        ("operator.rig", r#""FTDX10""#),
        ("operator.power_w", "30"),
        ("audio.input", r#""FTDX10 (USB AUDIO  CODEC)""#),
        ("audio.output", r#""FTDX10 (USB AUDIO  CODEC)""#),
        ("audio.tx_level", "0.2"),
        ("radio.max_mode", "11"),
        ("radio.busy_threshold_db", "7.5"),
        ("control.token", r#""hunter2""#),
        ("log.file", r#""aetherd.log""#),
        ("record.dir", r#""C:/somewhere/recordings""#),
        ("panel.interface", r#""yaesu-usb""#),
        ("panel.waterfall.gain_db", "50"),
        ("panel.waterfall.palette", r#""blue""#),
        ("ptt", r#"{"kind": "cat", "port": "COM6", "protocol": "yaesu", "baud": 38400}"#),
    ] {
        set_leaf(&mut out, key, json(value));
    }
    out
}

fn inventory() -> Inventory {
    Inventory::from_json(&json(
        r#"{
        "devices": [
            {"name": "FTDX10 (USB AUDIO  CODEC)", "input": true, "output": true},
            {"name": "Speakers", "input": false, "output": true}
        ],
        "serial_ports": [
            {"name": "COM6", "description": "Silicon Labs CP210x USB to UART Bridge Enhanced COM Port"},
            {"name": "COM7", "description": "Silicon Labs CP210x USB to UART Bridge Standard COM Port"}
        ],
        "gpio_interfaces": [{"path": "hid#vid_0d8c", "name": "C-Media USB Audio Device"}]
    }"#,
    ))
}

fn nothing() -> Inventory {
    Inventory::from_json(&json("{}"))
}

fn memories() -> Vec<Memory> {
    vec![
        Memory { hz: 7_101_000, name: "40 m".into() },
        Memory { hz: 14_107_000, name: "20 m".into() },
    ]
}

fn dials(list: &[Memory]) -> Vec<(u64, String)> {
    list.iter().map(|m| (m.hz, m.name.clone())).collect()
}

const NOW: &str = "2026-09-19T10:00:00Z";

fn capture(name: &str, config: &Json, memories: &Vec<Memory>, inventory: Option<&Inventory>) -> Profile {
    Profile::capture(name, config, CURRENT, "0.5.0", memories, inventory, NOW)
}

/// What the configuration makes of a document: an Icom needs an address.
fn judge(config: Json) -> Result<Json, String> {
    if is(&config, "ptt.protocol", r#""icom""#) && at(&config, "ptt.civ_address").is_none() {
        Err("an Icom needs a civ_address".to_owned())
    } else {
        Ok(config)
    }
}

fn again(memories: &Option<Vec<Memory>>) -> Vec<Memory> {
    memories.iter().flatten().map(|m| Memory { hz: m.hz, name: m.name.clone() }).collect()
}

fn apply(profile: &Profile, base: &Json, inventory: Option<&Inventory>) -> Result<Applied, ProfileError> {
    let sorted = profile.sort_settings(base, &plain());
    profile.apply(base, &plain(), judge(sorted.document), Ok(again(&profile.memories)), inventory)
}

/// Read a profile's text.
fn parse(source: &str) -> Result<Parsed, ProfileError> {
    Profile::parse(source, Err("missing field `settings`".to_owned()), CURRENT)
}

fn reread(source: &str) -> Result<Profile, ProfileError> {
    parse(source).map(|p| match p {
        Parsed::Whole(p) => p,
        Parsed::Older(p, _) => p,
    })
}

#[test]
fn a_profile_holds_the_portable_settings_and_nothing_else() {
    let config = station();
    let profile = capture("Home FTDX10", &config, &memories(), Some(&inventory()));
    let written = profile.settings.write();
    assert!(!written.contains("hunter2"), "the token leaked: {written}");
    assert!(!written.contains("aetherd.log"), "a path leaked: {written}");
    assert!(!written.contains("somewhere/recordings"), "a path leaked: {written}");
    assert!(!written.contains("\"sim\""), "the bench leaked: {written}");
    assert!(!written.contains("127.0.0.1:8515"), "the control port leaked");
    assert!(!written.contains("schema_version"));
    assert!(is(&profile.settings, "callsign", r#""KK4ODA""#));
    assert!(is(&profile.settings, "ptt.kind", r#""cat""#));
    assert!(is(&profile.settings, "ptt.port", r#""COM6""#));
    assert!(is(&profile.settings, "host.bind", r#""127.0.0.1:8300""#), "a preference travels");
    assert!(is(&profile.settings, "panel.waterfall.palette", r#""blue""#));
    assert!(is(&profile.settings, "radio.max_mode", "11"));
    let hint = profile.hardware.ptt_port.as_ref().expect("a hint");
    assert_eq!(hint.name, "COM6");
    assert_eq!(hint.description, "Silicon Labs CP210x USB to UART Bridge Enhanced COM Port");
    assert_eq!(dials(&again(&profile.memories)), dials(&memories()));
    assert_eq!(profile.format, FORMAT);
    assert_eq!(profile.schema, SCHEMA);
    assert_eq!(profile.settings_schema, CURRENT);
    assert_eq!(profile.name, "Home FTDX10");
    assert_eq!(profile.created, "2026-09-19T10:00:00Z");
}

#[test]
fn saving_and_loading_gives_back_the_same_station() {
    let config = station();
    let profile = capture("Home", &config, &memories(), Some(&inventory()));
    let reread = reread(&profile.to_text()).expect("parse");
    assert_eq!(reread.to_text(), profile.to_text());
    assert!(reread.settings.equal(&profile.settings));
    assert_eq!(reread.hardware, profile.hardware);
    assert_eq!(dials(&again(&reread.memories)), dials(&again(&profile.memories)));
    assert_eq!(
        (&reread.format, reread.schema, reread.settings_schema, &reread.aether_version),
        (&profile.format, profile.schema, profile.settings_schema, &profile.aether_version)
    );
    assert_eq!((&reread.name, &reread.created, &reread.modified), (&profile.name, &profile.created, &profile.modified));
    let applied = apply(&reread, &config, Some(&inventory())).expect("apply");
    assert!(changed_keys(&config, &applied.config).is_empty(), "a round trip changed the configuration");
    assert!(applied.changed.is_empty(), "{:?}", applied.changed);
    assert!(applied.unknown.is_empty());
    assert!(applied.invalid.is_empty());
    assert!(applied.missing_hardware.is_empty());
    assert_eq!(dials(&again(&applied.memories)), dials(&memories()));
}

#[test]
fn loading_keeps_this_computers_own_settings() {
    // a profile from the home station, loaded on a laptop with its own token, log and recordings
    // directory: those stay, the station's settings arrive
    let profile = capture("Home", &station(), &Vec::new(), None);
    let mut laptop = plain();
    for (key, value) in [
        ("control.token", "laptop-secret"),
        ("control.bind", "127.0.0.1:9000"),
        ("log.file", "laptop.log"),
        ("record.dir", "D:/rec"),
        ("sim.listen", "127.0.0.1:8600"),
    ] {
        set_leaf(&mut laptop, key, text(value));
    }
    let applied = apply(&profile, &laptop, None).expect("apply");
    assert!(is(&applied.config, "callsign", r#""KK4ODA""#));
    assert!(is(&applied.config, "radio.max_mode", "11"));
    assert!(is(&applied.config, "control.token", r#""laptop-secret""#));
    assert!(is(&applied.config, "control.bind", r#""127.0.0.1:9000""#));
    assert!(is(&applied.config, "log.file", r#""laptop.log""#));
    assert!(is(&applied.config, "record.dir", r#""D:/rec""#));
    assert!(is(&applied.config, "sim.listen", r#""127.0.0.1:8600""#));
    assert!(applied.changed.contains(&"callsign".to_owned()));
    assert!(applied.changed.contains(&"ptt.kind".to_owned()));
    let live = vec!["radio.max_mode".to_owned()];
    assert!(applied.restart_required(&live).contains(&"audio.input".to_owned()));
    assert!(!applied.restart_required(&live).contains(&"radio.max_mode".to_owned()));
}

fn without(document: &Json, section: &str, key: &str) -> Json {
    let Json::Table(sections) = document else { panic!("a table") };
    Json::Table(
        sections
            .iter()
            .filter(|(name, _)| !(key.is_empty() && name == section))
            .map(|(name, value)| match value {
                Json::Table(entries) if name == section => (
                    name.clone(),
                    Json::Table(entries.iter().filter(|(k, _)| k != key).cloned().collect()),
                ),
                other => (name.clone(), other.clone()),
            })
            .collect(),
    )
}

#[test]
fn a_setting_the_profile_does_not_name_gets_its_default_not_the_running_value() {
    // a profile means the same station wherever it is loaded; what it does not say is the
    // default, or switching profiles would leak settings from one to the next
    let mut running = station();
    set_leaf(&mut running, "radio.max_mode", json("5"));
    set_leaf(&mut running, "radio.cw_id", json("true"));
    set_leaf(&mut running, "update.channel", text("beta"));
    let mut profile = capture("Sparse", &running, &Vec::new(), None);
    profile.settings = without(&profile.settings, "radio", "max_mode");
    profile.settings = without(&profile.settings, "radio", "cw_id");
    profile.settings = without(&profile.settings, "update", "");
    let applied = apply(&profile, &running, None).expect("apply");
    assert!(is(&applied.config, "radio.max_mode", "15"));
    assert!(is(&applied.config, "radio.cw_id", "false"));
    assert!(at(&applied.config, "update").expect("update").equal(at(&plain(), "update").expect("update")));
    assert!(applied.unknown.is_empty());
    assert!(applied.invalid.is_empty());
}

#[test]
fn a_setting_this_version_does_not_have_is_reported_and_left_out() {
    let config = station();
    let mut profile = capture("Future", &config, &Vec::new(), None);
    set_leaf(&mut profile.settings, "radio.time_diversity", json("true"));
    set_leaf(&mut profile.settings, "antenna", json(r#"{"rotator": "yes"}"#));
    profile.aether_version = "0.9.0".into();
    let applied = apply(&profile, &config, None).expect("apply");
    assert_eq!(applied.unknown, vec!["antenna.rotator".to_owned(), "radio.time_diversity".to_owned()]);
    assert!(changed_keys(&config, &applied.config).is_empty());
}

#[test]
fn a_secret_or_a_path_in_a_profile_is_ignored_not_applied() {
    let config = station();
    let mut profile = capture("Tampered", &config, &Vec::new(), None);
    set_leaf(&mut profile.settings, "control", json(r#"{"token": "injected", "bind": "0.0.0.0:8515"}"#));
    set_leaf(&mut profile.settings, "log.file", text("/etc/passwd"));
    let applied = apply(&profile, &config, None).expect("apply");
    assert!(is(&applied.config, "control.token", r#""hunter2""#));
    assert!(is(&applied.config, "control.bind", r#""127.0.0.1:8515""#));
    assert!(is(&applied.config, "log.file", r#""aetherd.log""#));
    assert!(applied.ignored.contains(&"control.token".to_owned()));
    assert!(applied.ignored.contains(&"log.file".to_owned()));
}

#[test]
fn a_bad_value_is_reported_and_the_default_kept_while_the_rest_loads() {
    let config = station();
    let mut profile = capture("Odd", &config, &Vec::new(), None);
    for (key, value) in [
        ("radio.max_key_s", "-5"),
        ("radio.bandwidth", "2750"),
        ("radio.wait_for_clear", r#""yes""#),
        ("audio.tx_level", "4.0"),
        ("update.channel", r#""alpha""#),
        ("radio.max_mode", "3.7"),
    ] {
        set_leaf(&mut profile.settings, key, json(value));
    }
    let applied = apply(&profile, &config, None).expect("the rest loads");
    let keys: Vec<&str> = applied.invalid.iter().map(|r| r.key.as_str()).collect();
    assert_eq!(
        keys,
        vec![
            "audio.tx_level",
            "radio.bandwidth",
            "radio.max_key_s",
            "radio.max_mode",
            "radio.wait_for_clear",
            "update.channel"
        ]
    );
    assert!(applied.invalid[2].reason.contains("watchdog"), "{}", applied.invalid[2].reason);
    assert!(is(&applied.config, "radio.max_key_s", "30.0"), "the default");
    assert!(is(&applied.config, "radio.bandwidth", "2300"));
    assert!(is(&applied.config, "radio.wait_for_clear", "true"));
    assert!(is(&applied.config, "audio.tx_level", "0.25"));
    assert!(is(&applied.config, "radio.max_mode", "15"));
    // and what was fine arrived
    assert!(is(&applied.config, "callsign", r#""KK4ODA""#));
    assert!(is(&applied.config, "radio.busy_threshold_db", "7.5"));
}

#[test]
fn settings_that_will_not_work_together_refuse_the_whole_load() {
    // an Icom with no address is a rule between two settings; nothing is half applied
    let config = station();
    let mut profile = capture("Icom", &config, &Vec::new(), None);
    set_leaf(&mut profile.settings, "ptt", json(r#"{"kind": "cat", "port": "COM4", "protocol": "icom"}"#));
    let error = apply(&profile, &config, None).expect_err("refused");
    assert!(matches!(error, ProfileError::Invalid(_)), "{error:?}");
    assert!(error.text().contains("civ_address"), "{error:?}");
}

#[test]
fn keying_fields_without_a_kind_key_nothing() {
    let config = station();
    let mut profile = capture("No kind", &config, &Vec::new(), None);
    set_leaf(&mut profile.settings, "ptt", json(r#"{"port": "COM4", "line": "rts"}"#));
    let applied = apply(&profile, &config, None).expect("apply");
    assert!(is(&applied.config, "ptt", r#"{"kind": "none"}"#));
    assert_eq!(applied.invalid.len(), 2);
    // and a profile with no keying section at all is a station that keys nothing
    profile.settings = without(&profile.settings, "ptt", "");
    let applied = apply(&profile, &config, None).expect("apply");
    assert!(is(&applied.config, "ptt", r#"{"kind": "none"}"#));
    assert!(applied.invalid.is_empty());
}

#[test]
fn a_missing_sound_card_is_reported_and_left_as_named() {
    let config = station();
    let profile = capture("Home", &config, &Vec::new(), Some(&inventory()));
    let elsewhere = Inventory::from_json(&json(
        r#"{"devices": [{"name": "Realtek Audio", "input": true, "output": true}],
            "serial_ports": [{"name": "COM6", "description": "whatever"}]}"#,
    ));
    let applied = apply(&profile, &config, Some(&elsewhere)).expect("apply");
    let keys: Vec<&str> = applied.missing_hardware.iter().map(|m| m.key.as_str()).collect();
    assert_eq!(keys, vec!["audio.input", "audio.output"]);
    assert_eq!(applied.missing_hardware[0].name, "FTDX10 (USB AUDIO  CODEC)");
    // kept as named, never swapped for whatever is there: the daemon runs without audio and says
    // so until the operator chooses
    assert!(is(&applied.config, "audio.input", r#""FTDX10 (USB AUDIO  CODEC)""#));
}

#[test]
fn a_missing_serial_port_is_reported_with_the_port_that_has_the_same_thing_behind_it() {
    let config = station();
    let profile = capture("Home", &config, &Vec::new(), Some(&inventory()));
    // the other computer numbered the same bridge differently: COM6 became COM11
    let elsewhere = Inventory::from_json(&json(
        r#"{"devices": [{"name": "FTDX10 (USB AUDIO  CODEC)", "input": true, "output": true}],
            "serial_ports": [
                {"name": "COM10", "description": "Silicon Labs CP210x USB to UART Bridge Standard COM Port"},
                {"name": "COM11", "description": "Silicon Labs CP210x USB to UART Bridge Enhanced COM Port"}
            ]}"#,
    ));
    let applied = apply(&profile, &config, Some(&elsewhere)).expect("apply");
    assert_eq!(applied.missing_hardware.len(), 1);
    let missing = &applied.missing_hardware[0];
    assert_eq!(missing.key, "ptt.port");
    assert_eq!(missing.name, "COM6");
    assert_eq!(missing.suggestion.as_deref(), Some("COM11"));
    assert!(is(&applied.config, "ptt.port", r#""COM6""#), "the suggestion was taken without asking");
    // two ports with the same description is a guess, and a guess is not offered
    let ambiguous = Inventory::from_json(&json(
        r#"{"serial_ports": [
                {"name": "COM10", "description": "Silicon Labs CP210x USB to UART Bridge Enhanced COM Port"},
                {"name": "COM11", "description": "Silicon Labs CP210x USB to UART Bridge Enhanced COM Port"}
            ]}"#,
    ));
    let applied = apply(&profile, &config, Some(&ambiguous)).expect("apply");
    assert_eq!(applied.missing_hardware[0].suggestion, None);
    // a computer that could not be asked reports nothing rather than everything
    let applied = apply(&profile, &config, Some(&nothing())).expect("apply");
    assert!(applied.missing_hardware.is_empty());
}

#[test]
fn a_missing_gpio_interface_is_reported_too() {
    let mut config = station();
    set_leaf(&mut config, "ptt", json(r#"{"kind": "cm108", "device": "hid#vid_0d8c", "gpio": 3}"#));
    let profile = capture("DRA", &config, &Vec::new(), Some(&inventory()));
    assert_eq!(
        profile.hardware.ptt_device.as_ref().map(|h| h.description.as_str()),
        Some("C-Media USB Audio Device")
    );
    let elsewhere = Inventory::from_json(&json(
        r#"{"devices": [{"name": "FTDX10 (USB AUDIO  CODEC)", "input": true, "output": true}],
            "gpio_interfaces": [{"path": "hid#other", "name": "C-Media USB Audio Device"}]}"#,
    ));
    let applied = apply(&profile, &config, Some(&elsewhere)).expect("apply");
    assert_eq!(applied.missing_hardware.len(), 1);
    assert_eq!(applied.missing_hardware[0].key, "ptt.device");
    assert_eq!(applied.missing_hardware[0].suggestion.as_deref(), Some("hid#other"));
}

#[test]
fn corrupt_files_are_refused_with_a_reason() {
    for (source, fragment) in [
        ("", "JSON"),
        ("{", "JSON"),
        ("[1, 2]", "object"),
        ("{\"callsign\": \"W4ODA\"}", "format"),
        ("{\"format\": \"something-else\", \"settings\": {}}", "not"),
        ("{\"format\": \"aether-hf-profile\", \"schema\": 1}", "settings"),
        ("{\"format\": \"aether-hf-profile\", \"schema\": 1, \"settings\": 7}", "settings"),
        ("{\"format\": \"aether-hf-profile\", \"schema\": \"one\", \"settings\": {}}", "schema"),
    ] {
        let error = parse(source).expect_err(source);
        assert!(matches!(error, ProfileError::NotAProfile(_)), "{source}: {error:?}");
        assert!(error.text().contains(fragment), "{source}: {error:?}");
    }
}

#[test]
fn a_profile_from_a_newer_version_is_refused_not_misread() {
    let newer = "{\"format\": \"aether-hf-profile\", \"schema\": 99, \"settings\": {}}";
    let error = parse(newer).expect_err("newer");
    assert!(matches!(error, ProfileError::Newer(_)), "{error:?}");
    assert!(error.text().contains("newer"), "{error:?}");
    let newer_settings = format!(
        "{{\"format\": \"aether-hf-profile\", \"schema\": 1, \"settings_schema\": {}, \"settings\": {{}}}}",
        CURRENT + 1
    );
    let error = parse(&newer_settings).expect_err("newer settings");
    assert!(matches!(error, ProfileError::Newer(_)), "{error:?}");
}

/// The configuration file's own migration: an OFDM mode of the first schema is two rungs up the
/// ladder of the second.
fn migrated(settings: &Json) -> Result<(Json, u32), String> {
    let mut out = settings.clone();
    if let Some(Json::Number(Number::Unsigned(mode))) = at(settings, "radio.max_mode") {
        let rung = mode + 2;
        set_leaf(&mut out, "radio.max_mode", Json::Number(Number::Unsigned(rung)));
    }
    set_leaf(&mut out, "schema_version", json("2"));
    Ok((out, CURRENT))
}

#[test]
fn an_older_profile_is_read_with_what_it_has_and_defaults_for_the_rest() {
    // the first shape, with the envelope fields a later version added missing
    let old = r#"{
      "format": "aether-hf-profile",
      "schema": 1,
      "name": "Old",
      "settings": { "callsign": "W4ODA", "radio": { "max_mode": 6 } }
    }"#;
    let mut profile = match parse(old).expect("parse") {
        Parsed::Older(mut profile, settings) => {
            profile.migrate_settings(migrated(&settings)).expect("migrates");
            profile
        }
        Parsed::Whole(_) => panic!("its settings are the first schema's"),
    };
    // its settings were the first schema's, and come forward through the file's chain
    assert_eq!(profile.settings_schema, CURRENT);
    assert_eq!(profile.aether_version, "");
    assert!(profile.memories.is_none());
    let applied = apply(&profile, &station(), None).expect("apply");
    assert!(is(&applied.config, "callsign", r#""W4ODA""#));
    // the OFDM mode 6 it named is rung 8 of the wide ladder
    assert!(is(&applied.config, "radio.max_mode", "8"));
    assert!(is(&applied.config, "ptt", r#"{"kind": "none"}"#));
    assert!(applied.memories.is_none(), "a profile without dials leaves the list alone");
    let failed = profile.migrate_settings(Err("line 2".to_owned())).expect_err("no migration");
    assert_eq!(
        failed.text(),
        "this is not an Aether HF profile: its settings cannot be read: line 2"
    );
}

#[test]
fn the_settings_go_through_the_configuration_files_own_migrations() {
    // a profile of the first schema, with a null leaf, which TOML cannot hold and the conversion
    // must strip: its max_mode comes forward as the file's would
    let mut profile = capture("Now", &station(), &Vec::new(), None);
    set_leaf(&mut profile.settings, "audio.input", Json::Null);
    set_leaf(&mut profile.settings, "radio.max_mode", json("13"));
    profile.settings_schema = 1;
    let bare = strip_nulls(&profile.settings);
    profile.migrate_settings(migrated(&bare)).expect("migrates");
    assert_eq!(profile.settings_schema, CURRENT);
    assert!(is(&profile.settings, "radio.max_mode", "15"));
    assert!(at(&profile.settings, "audio.input").is_none(), "a null is an absent setting");
    assert!(is(&profile.settings, "callsign", r#""KK4ODA""#));
    assert!(at(&profile.settings, "schema_version").is_none());
}

/// A directory of profiles, in memory.
struct Shelf {
    store: Store,
    files: Vec<(String, String)>,
}

impl Shelf {
    fn open() -> Self {
        Shelf { store: Store::open(Some(("profiles".into(), "profiles/state.json".into())), None), files: Vec::new() }
    }

    fn entries(&self) -> Vec<Entry> {
        self.files.iter().map(|(id, text)| Entry::of(id, &self.path(id), &reread(text))).collect()
    }

    fn path(&self, id: &str) -> String {
        let (dir, file) = self.store.path_of(id).expect("a directory");
        format!("{dir}/{file}")
    }

    fn list(&self) -> Vec<Entry> {
        Store::list(&self.entries())
    }

    fn put(&mut self, id: &str, profile: &Profile) {
        self.files.retain(|(other, _)| other != id);
        self.files.push((id.to_owned(), profile.to_text()));
    }

    fn write(&mut self, profile: &Profile, replace: Option<&str>) -> Result<Entry, ProfileError> {
        let id = id_for(&profile.name);
        let replace = replace.map(str::to_owned);
        let entry = self.store.write(profile, replace.as_ref(), &self.entries(), &self.path(&id))?;
        self.put(&entry.id, profile);
        Ok(entry)
    }

    fn read(&self, id: &str) -> Result<Profile, ProfileError> {
        match self.files.iter().find(|(other, _)| other == id) {
            Some((_, text)) => reread(text).map(|p| Store::parse_named(p, id)),
            None => Err(ProfileError::NoSuchProfile(id.to_owned())),
        }
    }

    fn delete(&mut self, id: &str) -> Result<(), ProfileError> {
        let there = self.files.iter().any(|(other, _)| other == id);
        self.store.delete(id, there)?;
        self.files.retain(|(other, _)| other != id);
        Ok(())
    }

    fn rename(&mut self, id: &str, name: &str, now: &str) -> Result<Entry, ProfileError> {
        let id = id.to_owned();
        let path = self.path(&id_for(name));
        let done = self.store.rename(&id, name, now, self.read(&id), &self.entries(), &path)?;
        self.put(&done.entry.id.clone(), &done.profile);
        if done.moved {
            self.files.retain(|(other, _)| *other != id);
        }
        if done.activate {
            self.store.set_active(Some(done.entry.id.clone()), Ok(()))?;
        }
        Ok(done.entry)
    }

    fn dirty(&self, config: &Json, memories: &[Memory]) -> Option<bool> {
        let id = self.store.active()?.clone();
        let applied = self.read(&id).and_then(|p| apply(&p, config, None));
        let running = memories.iter().map(|m| Memory { hz: m.hz, name: m.name.clone() }).collect();
        self.store.dirty(&applied, config, &Ok(running))
    }
}

#[test]
fn the_store_lists_reads_writes_renames_and_deletes() {
    let mut shelf = Shelf::open();
    assert_eq!(shelf.store.dir(), Some(&"profiles".to_owned()));
    assert!(shelf.list().is_empty());
    assert_eq!(shelf.store.active(), None);

    let home = capture("Home FTDX10", &station(), &memories(), None);
    let entry = shelf.write(&home, None).expect("write");
    assert_eq!(entry.id, "Home FTDX10");
    assert_eq!(entry.path, format!("profiles/Home FTDX10.{EXTENSION}"));
    assert_eq!(
        shelf.write(&home, None).expect_err("twice"),
        ProfileError::NameTaken("Home FTDX10".into())
    );
    let mut truck = Profile::fresh(
        "Truck / IC-705",
        &station(),
        &plain(),
        CURRENT,
        "0.5.0",
        &Vec::new(),
        "2026-09-19T11:00:00Z",
    );
    assert!(is(&truck.settings, "callsign", r#""KK4ODA""#), "the identity stays");
    assert!(is(&truck.settings, "operator.grid", r#""EM73tv""#));
    assert!(is(&truck.settings, "ptt.kind", r#""none""#), "everything else is the default");
    assert!(is(&truck.settings, "radio.max_mode", "15"));
    let entry = shelf.write(&truck, None).expect("write");
    assert_eq!(entry.id, "Truck - IC-705", "the slash is not a file's to have");
    truck.name = "home ftdx10".into();
    assert!(
        matches!(shelf.write(&truck, None), Err(ProfileError::NameTaken(_))),
        "names differ in case only"
    );

    let listed = shelf.list();
    assert_eq!(
        listed.iter().map(|e| e.name.as_str()).collect::<Vec<_>>(),
        vec!["Home FTDX10", "Truck / IC-705"]
    );
    assert_eq!(Store::find(&shelf.entries(), "home ftdx10").as_deref(), Some("Home FTDX10"));
    let back = shelf.read("Home FTDX10").expect("read");
    assert_eq!((back.name.as_str(), back.created.as_str()), ("Home FTDX10", NOW));
    assert!(back.settings.equal(&home.settings));
    assert!(matches!(shelf.read("Nope"), Err(ProfileError::NoSuchProfile(_))));

    shelf.store.set_active(Some("Home FTDX10".into()), Ok(())).expect("active");
    let restarted = Store::open(
        Some(("profiles".into(), "profiles/state.json".into())),
        Some(State { schema: 1, active: Some("Home FTDX10".into()) }),
    );
    assert_eq!(restarted.active(), Some(&"Home FTDX10".to_owned()), "remembered across a restart");
    assert!(
        matches!(shelf.delete("Home FTDX10"), Err(ProfileError::Invalid(_))),
        "the active one stays"
    );

    let renamed = shelf.rename("Home FTDX10", "Home", "2026-09-19T12:00:00Z").expect("rename");
    assert_eq!(renamed.id, "Home");
    assert_eq!(shelf.store.active(), Some(&"Home".to_owned()), "the mark moved with it");
    assert!(matches!(shelf.read("Home FTDX10"), Err(ProfileError::NoSuchProfile(_))));
    assert_eq!(shelf.read("Home").expect("read").modified, "2026-09-19T12:00:00Z");
    assert!(matches!(shelf.rename("Home", "Truck / IC-705", "x"), Err(ProfileError::NameTaken(_))));
    assert!(matches!(shelf.rename("Home", "  ", "x"), Err(ProfileError::BadName(_))));

    shelf.delete("Truck - IC-705").expect("delete");
    assert_eq!(shelf.list().len(), 1);
    assert!(matches!(shelf.delete("Truck - IC-705"), Err(ProfileError::NoSuchProfile(_))));
}

#[test]
fn a_corrupt_file_in_the_directory_is_listed_with_its_error_and_the_rest_still_work() {
    let mut shelf = Shelf::open();
    shelf.write(&capture("Good", &station(), &Vec::new(), None), None).expect("write");
    shelf.files.push(("Broken".to_owned(), "{ not json".to_owned()));
    let listed = shelf.list();
    assert_eq!(listed.len(), 2);
    let broken = listed.iter().find(|e| e.id == "Broken").expect("listed");
    assert!(broken.error.as_deref().is_some_and(|e| e.contains("JSON")), "{broken:?}");
    assert!(listed.iter().any(|e| e.id == "Good" && e.error.is_none()));
    assert!(matches!(shelf.read("Broken"), Err(ProfileError::NotAProfile(_))));
}

#[test]
fn the_first_start_adopts_the_running_configuration_and_is_not_dirty() {
    let config = station();
    let mut shelf = Shelf::open();
    let adopted = shelf.store.adopt(
        &config,
        CURRENT,
        "0.5.0",
        &memories(),
        Some(&inventory()),
        NOW,
        false,
        &shelf.entries(),
    );
    let profile = match adopted {
        Adoption::Save(p) => p,
        other => panic!("{other:?}"),
    };
    let entry = shelf.write(&profile, None).expect("adopted");
    assert_eq!(entry.name, ADOPTED_NAME);
    shelf.store.set_active(Some(entry.id), Ok(())).expect("active");
    assert_eq!(shelf.store.active(), Some(&"Default".to_owned()));
    assert_eq!(shelf.dirty(&config, &memories()), Some(false));
    // the next start finds the state and adopts nothing, even with no active profile
    shelf.store.set_active(None, Ok(())).expect("cleared");
    let again = shelf.store.adopt(&config, CURRENT, "0.5.0", &Vec::new(), None, NOW, true, &shelf.entries());
    assert!(matches!(again, Adoption::Leave));
    assert_eq!(shelf.list().len(), 1);
}

#[test]
fn a_change_to_the_running_configuration_makes_the_profile_dirty_and_saving_cleans_it() {
    let mut config = station();
    let mut shelf = Shelf::open();
    shelf.write(&capture("Default", &config, &memories(), None), None).expect("write");
    shelf.store.set_active(Some("Default".into()), Ok(())).expect("active");
    assert_eq!(shelf.dirty(&config, &memories()), Some(false));
    set_leaf(&mut config, "radio.max_mode", json("4"));
    assert_eq!(shelf.dirty(&config, &memories()), Some(true));
    // a machine-local change is not the profile's business
    set_leaf(&mut config, "radio.max_mode", json("11"));
    set_leaf(&mut config, "log.file", text("elsewhere.log"));
    assert_eq!(shelf.dirty(&config, &memories()), Some(false));
    // the dials are the profile's
    let mut dials = memories();
    dials.push(Memory { hz: 3_590_000, name: "80 m".into() });
    assert_eq!(shelf.dirty(&config, &dials), Some(true));
    let saved = capture("Default", &config, &dials, None);
    shelf.write(&saved, Some("Default")).expect("overwrite");
    assert_eq!(shelf.dirty(&config, &dials), Some(false));
    // no active profile: nothing to be dirty against
    shelf.store.set_active(None, Ok(())).expect("cleared");
    assert_eq!(shelf.dirty(&config, &dials), None);
}

#[test]
fn a_daemon_without_a_configuration_file_has_no_store() {
    let mut store = Store::open(None, None);
    assert_eq!(store.dir(), None);
    let profile = capture("X", &station(), &Vec::new(), None);
    assert_eq!(store.write(&profile, None, &Vec::new(), "").expect_err("no dir"), ProfileError::NoDirectory);
    let adopted = store.adopt(&station(), CURRENT, "0.5.0", &Vec::new(), None, NOW, false, &Vec::new());
    assert!(matches!(adopted, Adoption::Leave));
    let applied = apply(&profile, &station(), None);
    assert_eq!(store.dirty(&applied, &station(), &Ok(Vec::new())), None);
    assert_eq!(store.set_active(None, Ok(())).expect_err("no dir"), ProfileError::NoDirectory);
    assert_eq!(store.path_of("X"), None);
}

#[test]
fn ids_are_names_a_file_system_takes() {
    assert_eq!(id_for("Home FTDX10"), "Home FTDX10");
    assert_eq!(id_for("  Truck / IC-705  "), "Truck - IC-705");
    assert_eq!(id_for("a:b*c?d\"e<f>g|h\\i"), "a-b-c-d-e-f-g-h-i");
    assert_eq!(id_for("..."), "profile");
    assert_eq!(id_for(""), "profile");
    assert_eq!(id_for("trailing. "), "trailing");
}

#[test]
fn a_name_is_checked_and_an_error_is_said() {
    assert_eq!(Store::check_name("  Home "), Ok("Home".to_owned()));
    assert_eq!(Store::check_name(" ").expect_err("empty").text(), "a profile needs a name");
    let long = "x".repeat(NAME_CHARS + 1);
    assert!(matches!(Store::check_name(&long), Err(ProfileError::BadName(_))));
    assert_eq!(
        ProfileError::NoSuchProfile("a\"b".into()).text(),
        "there is no profile called \"a\\\"b\""
    );
    assert_eq!(
        ProfileError::NameTaken("Home".into()).text(),
        "a profile called \"Home\" already exists"
    );
    assert_eq!(ProfileError::Io("disk full".into()).text(), "disk full");
    let mut store = Shelf::open().store;
    assert_eq!(
        store.set_active(Some("a".into()), Err("disk full".into())).expect_err("io"),
        ProfileError::Io("disk full".into())
    );
    assert_eq!(store.active(), None);
}

#[test]
fn the_portable_part_is_its_own_portable_part() {
    let part = portable(&station());
    assert!(portable(&part).equal(&part));
    assert!(at(&part, "control.token").is_none());
    assert!(nothing().is_empty());
    assert!(!inventory().is_empty());
}

#[test]
fn an_id_handed_back_as_a_name_is_the_same_id() {
    for name in ["Home FTDX10", "  Truck / IC-705  ", "a:b*c?d", "...", " \t.-x-. ", "", "\u{7f}\u{1}ab"] {
        let id = id_for(name);
        assert_eq!(id_for(&id), id, "{name:?}");
    }
}

#[test]
fn a_profile_is_written_field_by_field() {
    let mut profile = capture("Home", &station(), &vec![Memory { hz: 7_102_000, name: "40 m \"net\"".into() }], None);
    profile.settings = json(r#"{"radio": {"max_mode": 11, "tags": []}, "callsign": "KK4ODA"}"#);
    profile.hardware =
        Hardware { ptt_port: Some(DeviceHint { name: "COM6".into(), description: "CP210x".into() }), ptt_device: None };
    assert_eq!(
        profile.to_text(),
        format!(
            r#"{{
  "format": "{FORMAT}",
  "schema": 1,
  "settings_schema": 2,
  "aether_version": "{}",
  "name": "Home",
  "created": "{NOW}",
  "modified": "{NOW}",
  "settings": {{
    "callsign": "KK4ODA",
    "radio": {{
      "max_mode": 11,
      "tags": []
    }}
  }},
  "hardware": {{
    "ptt_port": {{
      "name": "COM6",
      "description": "CP210x"
    }}
  }},
  "memories": [
    {{
      "hz": 7102000,
      "name": "40 m \"net\""
    }}
  ]
}}
"#,
            profile.aether_version
        )
    );
    let value: serde_json::Value = serde_json::from_str(&profile.to_text()).expect("json");
    assert_eq!(serde_json::to_string_pretty(&value["settings"]).expect("text"), profile.settings.write_lines(""));
    let back = reread(&profile.to_text()).expect("a profile");
    assert_eq!(back.to_text(), profile.to_text());
    assert_eq!(back.memories.expect("dials")[0].name, "40 m \"net\"");
}

#[test]
fn fields_that_are_missing_take_their_defaults_and_odd_ones_are_left_to_the_reader() {
    let text = format!(r#"{{"format": "{FORMAT}", "settings_schema": 2, "settings": {{}}, "colour": "red"}}"#);
    let p = reread(&text).expect("a profile");
    assert_eq!((p.schema, p.settings_schema, p.name.as_str(), p.memories.is_none()), (1, 2, "", true));
    assert_eq!(p.hardware, Hardware { ptt_port: None, ptt_device: None });
    assert!(Profile::from_fields(&json(&text)).is_some());
    for odd in [
        r#""name": 3"#,
        r#""memories": {}"#,
        r#""memories": [{"name": "no dial"}]"#,
        r#""memories": [{"hz": 1.5}]"#,
        r#""hardware": null"#,
        r#""hardware": {"ptt_port": "COM6"}"#,
        r#""settings_schema": 4294967296"#,
    ] {
        let text = format!(r#"{{"format": "{FORMAT}", "settings": {{}}, {odd}}}"#);
        assert!(Profile::from_fields(&json(&text)).is_none(), "{odd}");
        let error = Profile::parse(&text, Err("odd".to_owned()), CURRENT).expect_err(odd);
        assert_eq!(error, ProfileError::NotAProfile("odd".to_owned()));
        let spare = capture("Spare", &station(), &Vec::new(), None);
        assert!(matches!(Profile::parse(&text, Ok(spare), CURRENT), Ok(Parsed::Whole(p)) if p.name == "Spare"));
    }
}
