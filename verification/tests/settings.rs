//! The registry of settings.
use aetherd::json::read::read_number;
use aetherd::json::{Json, Number};
use aetherd::settings::{
    check_bounds, covers, fits, is_portable, keying_kinds, keys, leaves, rule_for, rules, schema, set_leaf, shapes,
    type_word, violation, with_every_keying_kind, Scope, ONE, POSITIVE,
};

fn whole(n: u64) -> Json {
    Json::Number(Number::Unsigned(n))
}

fn fraction(x: f64) -> Json {
    Json::Number(Number::Real((x * 1e9).round() as i128))
}

fn text(s: &str) -> Json {
    Json::Text(s.to_owned())
}

fn at<'a>(document: &'a Json, key: &str) -> Option<&'a Json> {
    key.split('.').try_fold(document, |cursor, part| cursor.get(part))
}

/// A document with every leaf of the registry's shapes, keyed by nothing.
fn plain() -> Json {
    let mut document = Json::Table(Vec::new());
    for (key, value) in shapes() {
        if !key.starts_with("ptt.") {
            set_leaf(&mut document, &key, value);
        }
    }
    set_leaf(&mut document, "ptt.kind", text("none"));
    document
}

#[test]
fn every_rule_names_a_setting_that_exists() {
    let keys = keys();
    for rule in rules() {
        let found = if rule.key.ends_with(".*") {
            keys.iter().any(|k| covers(rule.key, k))
        } else {
            keys.contains(&rule.key.to_owned())
        };
        assert!(found, "the rule for {} names a setting that does not exist", rule.key);
    }
}

#[test]
fn the_template_sets_every_optional_field() {
    // a null leaf is a field nobody added to the template, and a setting the registry cannot type
    for (key, value) in shapes() {
        assert!(!matches!(value, Json::Null), "{key} is unset in the settings template: add it");
    }
}

#[test]
fn every_keying_kind_is_in_the_shapes() {
    let kinds = keying_kinds();
    for kind in ["none", "serial", "rigctld", "cat", "cm108"] {
        assert!(
            rule_for("ptt.kind").options.contains(&kind.to_owned()),
            "keying kind {kind} is missing from the registry"
        );
    }
    assert!(kinds.iter().all(|(key, _)| key.starts_with("ptt.")));
    assert_eq!(rule_for("ptt.kind").options.len(), 5);
    let keys = keys();
    for field in ["ptt.port", "ptt.line", "ptt.address", "ptt.device", "ptt.gpio"] {
        assert!(keys.contains(&field.to_owned()), "{field} is not in the shapes");
    }
}

#[test]
fn the_bounds_written_here_are_the_ones_the_configuration_enforces() {
    // a value just outside a rule is refused
    let base = plain();
    let live: Vec<String> = Vec::new();
    let mut checked = 0;
    for setting in schema(&base, &live) {
        let Some(present) = at(&base, &setting.key) else {
            continue; // a keying field of another kind
        };
        let mut probes: Vec<Json> = Vec::new();
        if let Some(min) = setting.min {
            probes.push(Json::Number(Number::Real(if min == POSITIVE { -ONE } else { min - ONE })));
        }
        if let Some(max) = setting.max {
            probes.push(Json::Number(Number::Real(max + ONE)));
        }
        if !setting.options.is_empty() {
            probes.push(match present {
                Json::Number(_) => whole(999_999),
                _ => text("not-an-option"),
            });
        }
        for probe in probes {
            let mut document = base.clone();
            set_leaf(&mut document, &setting.key, probe);
            assert!(check_bounds(&document).is_err(), "{} was accepted", setting.key);
            checked += 1;
        }
    }
    assert!(checked > 10, "the bounds were not exercised");
    assert!(check_bounds(&base).is_ok());
}

#[test]
fn the_scopes_are_what_a_profile_needs() {
    assert!(is_portable("callsign"));
    assert!(is_portable("radio.max_key_s"));
    assert!(is_portable("audio.input"), "a device name travels, checked");
    assert!(is_portable("ptt.port"));
    assert!(is_portable("host.bind"));
    assert!(is_portable("panel.waterfall.gain_db"));
    assert!(!is_portable("control.token"), "a secret never leaves");
    assert!(!is_portable("control.bind"), "this installation's port");
    assert!(!is_portable("log.file"), "a path on this machine");
    assert!(!is_portable("record.dir"));
    assert!(!is_portable("sim.listen"), "the bench's wiring");
    assert!(!is_portable("sim.snr_db"));
    assert!(!is_portable("schema_version"), "the file's shape is not a setting");
    assert_eq!(rule_for("audio.input").scope, Scope::Hardware);
    assert!(Scope::Hardware.is_portable() && !Scope::Secret.is_portable() && !Scope::Machine.is_portable());
}

#[test]
fn the_schema_describes_every_setting_with_a_type_and_a_default() {
    let live = vec!["radio.max_key_s".to_owned()];
    let schema = schema(&plain(), &live);
    let key = schema.iter().find(|s| s.key == "radio.max_key_s").expect("max_key_s");
    assert_eq!(key.type_, "number");
    assert!(key.default.equal(&fraction(30.0)));
    assert!(key.live);
    assert_eq!(key.min, Some(POSITIVE));
    let modes = schema.iter().find(|s| s.key == "radio.max_mode").expect("max_mode");
    assert_eq!(modes.type_, "integer");
    assert!(!modes.live);
    let port = schema.iter().find(|s| s.key == "ptt.port").expect("a keying field");
    assert_eq!(port.type_, "string");
    assert_eq!(port.scope, Scope::Hardware);
    let civ = schema.iter().find(|s| s.key == "ptt.civ_address").expect("civ");
    assert!(civ.nullable);
    assert!(!schema.iter().any(|s| s.key == "schema_version"));
    for setting in &schema {
        assert!(
            matches!(setting.type_, "boolean" | "integer" | "number" | "string"),
            "{} has type {}",
            setting.key,
            setting.type_
        );
    }
}

#[test]
fn a_violation_says_what_the_bound_is_and_why() {
    let said = violation("ptt.gpio", &whole(9)).expect("out of range");
    assert!(said.contains("between 1 and 8"), "{said}");
    assert!(said.contains("DRA"), "{said}");
    let said = violation("radio.bandwidth", &whole(2750)).expect("not an option");
    assert!(said.contains("2300, 500"), "{said}");
    assert!(violation("radio.bandwidth", &whole(500)).is_none());
    assert!(violation("ptt.line", &text("dtr")).is_none());
    assert!(violation("ptt.line", &text("cts")).is_some());
    assert!(violation("audio.tx_level", &fraction(0.0)).is_some());
    assert!(violation("audio.tx_level", &fraction(1.0)).is_none());
    assert!(violation("operator.power_w", &Json::Null).is_none(), "unset is fine");
    assert!(violation("radio.nobody_bounded_this", &text("x")).is_none());
}

#[test]
fn a_value_fits_its_type_or_does_not() {
    assert!(fits("radio.max_mode", &whole(8), "integer"));
    assert!(!fits("radio.max_mode", &fraction(8.5), "integer"));
    assert!(fits("radio.max_key_s", &whole(8), "number"), "a whole number is a number");
    assert!(fits("audio.input", &Json::Null, "string"), "declared nullable");
    assert!(!fits("callsign", &Json::Null, "string"));
    assert!(!fits("radio.cw_id", &text("yes"), "boolean"));
    assert_eq!(type_word(&fraction(1.5)), "number");
    assert_eq!(type_word(&whole(1)), "integer");
    assert_eq!(type_word(&Json::Bool(true)), "boolean");
    assert_eq!(type_word(&text("")), "string");
}

#[test]
fn a_leaf_that_is_set_is_found_and_the_rest_stays() {
    let mut document = plain();
    let before = document.clone();
    set_leaf(&mut document, "panel.waterfall.palette", text("blue"));
    assert!(at(&document, "panel.waterfall.palette").expect("set").equal(&text("blue")));
    for (key, _) in shapes() {
        if key != "panel.waterfall.palette" && !key.starts_with("ptt.") {
            assert!(at(&document, &key).expect("kept").equal(at(&before, &key).expect("there")), "{key}");
        }
    }
    // the tables on the way are made, and what stands in the way gives way
    set_leaf(&mut document, "antenna.rotator.speed", whole(3));
    assert!(at(&document, "antenna.rotator.speed").expect("set").equal(&whole(3)));
    set_leaf(&mut document, "callsign.suffix", text("M"));
    assert!(at(&document, "callsign.suffix").expect("set").equal(&text("M")));
    let mut all = Vec::new();
    leaves("", &document, &mut all);
    assert!(all.iter().any(|(k, _)| k == "antenna.rotator.speed"));
    assert!(covers("panel.*", "panel.waterfall.palette"));
    assert!(!covers("panel.*", "panels.x"));
    assert!(!covers("callsign", "callsign"), "a rule for one setting is no pattern");
    let every = with_every_keying_kind(&plain());
    assert!(every.iter().any(|(k, _)| k == "ptt.gpio"));
}

#[test]
fn a_fine_number_keeps_its_value() {
    let near = |s: &str| read_number(s).expect("a number").billionths();
    assert_eq!(near("0.1234567894"), 123_456_789);
    assert_eq!(near("0.1234567895"), 123_456_790);
    assert_eq!(near("1e-400"), 1);
    assert_eq!(near("-1e-10"), -1);
    assert_eq!(near("-1e40"), -i128::MAX);
    assert_eq!(near("0e-10"), 0);
    let level = |s: &str| {
        let mut document = plain();
        set_leaf(&mut document, "audio.tx_level", Json::parse(s).expect("a number"));
        check_bounds(&document)
    };
    assert!(level("1.0").is_ok());
    assert!(level("1.0000000001").is_err(), "above one by less than a billionth");
    assert!(level("0.99999999999").is_ok());
    assert!(level("1e-10").is_ok());
    assert!(level("-1e-10").is_err());
    assert!(level("1e300").is_err());
    assert!(read_number("1e40").expect("a number").is_above(i128::MAX));
    assert!(read_number("-1e40").expect("a number").is_below(i128::MIN));
    let a = Json::parse("1e-10").expect("a number");
    let b = Json::parse("2e-10").expect("a number");
    assert!(a.equal(&a.clone()) && !a.equal(&b));
    for text in ["1.5e-12", "1e+300", "-2.5e-10"] {
        assert_eq!(Json::parse(text).expect("a number").write(), text);
    }
}

#[test]
fn a_number_inside_a_document_is_read_once() {
    for text in ["0.1", "1.7976931348623157e+308", "4.35", "0.30000000000000004", "123456789.12345678", "2.2250738585072014e-308"] {
        let alone: serde_json::Value = serde_json::from_str(text).expect("a number");
        let nested = Json::parse(&format!(r#"{{"a": [[{{"b": {text}}}]]}}"#)).expect("a document");
        let inside: serde_json::Value = serde_json::from_str(&format!("[[{text}]]")).expect("a document");
        assert_eq!(inside[0][0], alone);
        let Some(Json::List(rows)) = nested.get("a") else { panic!("a list") };
        let Json::List(row) = &rows[0] else { panic!("a list") };
        assert!(row[0].get("b").expect("a number").equal(&Json::parse(text).expect("a number")), "{text}");
    }
    let deep = |n: usize| Json::parse(&format!("{}{}", "[".repeat(n), "]".repeat(n)));
    assert!(deep(127).is_ok());
    assert!(deep(128).err().is_some_and(|e| e.starts_with("recursion limit exceeded")));
}

#[test]
fn what_is_written_over_several_lines_is_read_back_in_order() {
    let document = Json::parse(r#"{"b": [1, -2, 2.5, {}, []], "a": {"z": null, "y": "é\n"}}"#).expect("a document");
    let text = document.write_lines("") + "\n";
    assert!(text.starts_with("{\n  \"a\": {\n    \"y\": "), "{text}");
    assert!(Json::parse(&text).expect("its own text").equal(&document));
    let value: serde_json::Value = serde_json::from_str(&text).expect("json");
    assert_eq!(serde_json::to_string_pretty(&value).expect("text") + "\n", text);
    // a table keeps its names in order, and of two under one name the later
    let untidy = Json::Table(vec![
        ("b".to_owned(), whole(1)),
        ("a".to_owned(), whole(2)),
        ("b".to_owned(), whole(3)),
    ]);
    assert_eq!(Json::parse(&(untidy.write_lines("") + "\n")).expect("a table").write(), r#"{"a":2,"b":3}"#);
}

#[test]
fn documents_are_written_and_read_back() {
    let mut document = Json::Table(Vec::new());
    set_leaf(&mut document, "b", fraction(0.25));
    set_leaf(&mut document, "a", text("x\"y\n"));
    set_leaf(&mut document, "c", Json::List(vec![whole(1), Json::Null, Json::Bool(false)]));
    assert_eq!(document.write(), r#"{"a":"x\"y\n","b":0.25,"c":[1,null,false]}"#);
    let read: serde_json::Value = serde_json::from_str(&document.write()).expect("json");
    assert_eq!(read["a"], "x\"y\n");
    assert_eq!(read["b"], 0.25);
    assert!(document.equal(&document.clone()));
    assert!(document.get("nothing").is_none());
    assert!(Json::parse(&document.write()).expect("its own text").equal(&document));
}

#[test]
fn a_text_is_read_for_the_document_it_is() {
    let read = Json::parse(
        r#" {"name": "caf\u00e9\n", "deep": [[], {"x": [null, true]}], "n": 18446744073709551615,
             "low": -9223372036854775808, "real": 2.5e-3, "big": 1e300, "half": -0.25} "#,
    )
    .expect("a document");
    let number = |key: &str| match read.get(key) {
        Some(Json::Number(n)) => *n,
        other => panic!("{other:?}"),
    };
    assert!(read.get("name").expect("a text").equal(&text("café\n")));
    assert_eq!(read.get("deep").expect("a list").write(), r#"[[],{"x":[null,true]}]"#);
    assert_eq!(number("n"), Number::Unsigned(u64::MAX));
    assert_eq!(number("low"), Number::Negative(i64::MIN));
    assert_eq!(number("real"), Number::Real(2_500_000));
    assert_eq!(number("big"), Number::Fine(false, 1, 300));
    assert_eq!(number("half"), Number::Real(-250_000_000));
    // the names of a table come in their order
    assert!(Json::parse(r#"{"b": 1, "a": 2}"#).expect("a table").write().starts_with(r#"{"a""#));
    assert_eq!(Json::parse("{").err(), Some("EOF while parsing an object at line 1 column 1".to_owned()));
    assert!(Json::parse(&"[".repeat(200)).is_err());
    assert!(Json::parse(&format!("{}{}", "[".repeat(100), "]".repeat(100))).is_ok());
}

#[test]
fn a_number_is_read_for_what_it_is() {
    assert_eq!(read_number("12"), Some(Number::Unsigned(12)));
    assert_eq!(read_number("-12"), Some(Number::Negative(-12)));
    assert_eq!(read_number("0.1234567894"), Some(Number::Fine(false, 1_234_567_894, -10)));
    assert_eq!(read_number("0.1234567890"), Some(Number::Real(123_456_789)));
    assert_eq!(read_number("1e3"), Some(Number::Real(1_000_000_000_000)));
    assert_eq!(read_number("1e-400"), Some(Number::Fine(false, 1, -400)));
    assert_eq!(read_number("-1e-10"), Some(Number::Fine(true, 1, -10)));
    assert_eq!(read_number("0e-10"), Some(Number::Real(0)));
    assert_eq!(read_number("-1E+40"), Some(Number::Fine(true, 1, 40)));
    assert_eq!(read_number("18446744073709551616"), Some(Number::Real(18_446_744_073_709_551_616_000_000_000)));
    for odd in ["", "-", "x", "1e", "1.2.3", "1e99999", "+1"] {
        assert_eq!(read_number(odd), None, "{odd}");
    }
}

#[test]
fn documents_are_written_as_they_are_read() {
    let written = |j: Json| j.write();
    assert_eq!(written(Json::Number(Number::Real(1_000))), "1e-6");
    assert_eq!(written(Json::Number(Number::Real(10_000))), "0.00001");
    assert_eq!(written(Json::Number(Number::Real(10_000_000_000_000_000_000_000_000))), "1e+16");
    assert_eq!(written(Json::Number(Number::Real(2_500_000_000))), "2.5");
    assert_eq!(written(Json::Number(Number::Real(30_000_000_000))), "30.0");
    assert_eq!(written(Json::Text("a\"b\\c\n\u{1}é".to_owned())), "\"a\\\"b\\\\c\\n\\u0001é\"");
    let text = r#"{"a":[1,-2,null,true],"b":{"c":"d"}}"#;
    assert_eq!(written(Json::parse(text).expect("a document")), text);
}
