//! The occupancy table.
use aetherd::regulatory::occupancy::{air, parse, AirOccupancy, Edges, Reading};

#[test]
fn a_malformed_table_is_an_error_not_a_guess() {
    assert!(parse("{not json").is_err());
    let backwards = r#"{"airs": {"500": {"centre_hz": 1500, "rungs": [
        {"rung": 0, "name": "x", "family": "tone", "power": [200, -200], "spectral": [-250, 250]}],
        "control": {"ordinary": {"power": [-1, 1], "spectral": [-1, 1]},
                    "floor": {"power": [-1, 1], "spectral": [-1, 1]}}}}}"#;
    assert!(parse(backwards).is_err());
}

const TABLE: &str = r#"{"airs": {"500": {"centre_hz": 1500, "rungs": [
    {"rung": 0, "name": "tone 8", "family": "tone", "power": [-220.5, 220.5], "spectral": [-260, 260.25]},
    {"rung": 1, "name": "BPSK-1/3", "family": "ofdm", "power": [-280, 280], "spectral": [-300, 300]}],
    "control": {"ordinary": {"power": [-281, 281], "spectral": [-301, 301]},
                "floor": {"power": [-221, 221], "spectral": [-261, 261]}}}}}"#;

#[test]
fn the_table_is_read_rung_by_rung_about_its_centre() {
    let table = parse(TABLE);
    let narrow = air(&table, 500).expect("measured");
    assert_eq!(narrow.centre, 1_500_000);
    assert_eq!(narrow.rungs.len(), 2);
    assert_eq!(narrow.rungs[0].name, "tone 8");
    assert!(narrow.rungs[0].tone && !narrow.rungs[1].tone);
    assert_eq!(
        narrow.rungs[0].edges,
        Edges { power: (1_279_500, 1_720_500), spectral: (1_240_000, 1_760_250) }
    );
    assert_eq!(narrow.rung(1), Some(narrow.rungs[1].edges));
    assert_eq!(narrow.rung(2), None);
    assert_eq!(narrow.control(true).power, (1_279_000, 1_721_000));
    assert_eq!(narrow.control(false).power, (1_219_000, 1_781_000));
    for rung in &narrow.rungs {
        let (lo, hi) = rung.edges.range(Reading::Wider);
        assert!(lo < narrow.centre && narrow.centre < hi, "{}", rung.name);
    }
    assert_eq!(
        air(&table, 9600),
        Err("no occupancy is measured for the 9600 Hz air".to_owned())
    );
    let broken: Result<Vec<AirOccupancy>, String> = Err("gone".to_owned());
    assert_eq!(air(&broken, 500), Err("gone".to_owned()));
}

#[test]
fn what_is_wrong_with_a_table_is_said() {
    let swapped = TABLE.replace("\"rung\": 1", "\"rung\": 2");
    assert_eq!(parse(&swapped), Err("occupancy.json: rung 1 of the 500 Hz air".to_owned()));
    let named = TABLE.replace("\"500\"", "\"narrow\"");
    assert_eq!(parse(&named), Err("occupancy.json names an air \"narrow\"".to_owned()));
    let shapeless = TABLE.replace("\"family\": \"tone\", ", "");
    assert_eq!(
        parse(&shapeless),
        Err("occupancy.json is malformed: an air is not written as one".to_owned())
    );
    assert_eq!(
        parse("{}"),
        Err("occupancy.json is malformed: it has no table of airs".to_owned())
    );
}

#[test]
fn edges_are_joined_shifted_and_read() {
    let a = Edges { power: (-10, 20), spectral: (-30, 15) };
    let b = Edges { power: (-5, 40), spectral: (-31, 10) };
    let both = a.union(b);
    assert_eq!(both, Edges { power: (-10, 40), spectral: (-31, 15) });
    assert_eq!(both, b.union(a));
    assert_eq!(a.range(Reading::Power), (-10, 20));
    assert_eq!(a.range(Reading::Spectral), (-30, 15));
    assert_eq!(a.range(Reading::Wider), (-30, 20));
    assert_eq!(a.shifted(100), Edges { power: (90, 120), spectral: (70, 115) });
    assert_eq!(Edges::tone(1_500_000, 25_000).power, (1_475_000, 1_525_000));
    assert_eq!(Edges::tone(i64::MIN, 1).power.0, i64::MIN);
}

/// A table of both airs: tone rungs under 500 Hz by power and over it by density, and OFDM rungs
/// of the air's own width.
fn both_airs() -> String {
    let air = |width: &str, rungs: usize, tones: usize, power: f64, spectral: f64| {
        let lines: Vec<String> = (0..rungs)
            .map(|r| {
                let (family, p, s) = if r < tones { ("tone", 220.0, 262.0) } else { ("ofdm", power, spectral) };
                format!(
                    r#"{{"rung": {r}, "name": "r{r}", "family": "{family}", "power": [-{p}, {p}], "spectral": [-{s}, {s}]}}"#
                )
            })
            .collect();
        format!(
            r#""{width}": {{"centre_hz": 1500, "rungs": [{}], "control": {{
                "ordinary": {{"power": [-{power}, {power}], "spectral": [-{spectral}, {spectral}]}},
                "floor": {{"power": [-220, 220], "spectral": [-262, 262]}}}}}}"#,
            lines.join(", ")
        )
    };
    format!(
        "{{\"airs\": {{{}, {}}}}}",
        air("2300", 20, 6, 1180.5, 1260.0),
        air("500", 15, 4, 262.0, 300.0)
    )
}

#[test]
fn the_measured_table_describes_both_airs_rung_by_rung() {
    let table = parse(&both_airs());
    for (bandwidth, rungs) in [(2300, 20), (500, 15)] {
        let air = air(&table, bandwidth).expect("measured");
        assert_eq!(air.rungs.len(), rungs);
        assert_eq!(air.centre, 1_500_000);
        for rung in &air.rungs {
            let (lo, hi) = rung.edges.range(Reading::Wider);
            assert!(lo < air.centre && air.centre < hi, "{}", rung.name);
            // the spectral reading is the wider for every emission
            assert!(rung.edges.spectral.1 - rung.edges.spectral.0 >= rung.edges.power.1 - rung.edges.power.0);
        }
    }
    // what the regulatory decisions rest on: the tone floor under 500 Hz by power and over
    // it by density, and the narrow air's OFDM over it either way
    let narrow = air(&table, 500).expect("measured");
    let width = |e: Edges, r| {
        let (lo, hi) = e.range(r);
        hi - lo
    };
    assert!(width(narrow.rungs[0].edges, Reading::Power) < 500_000);
    assert!(width(narrow.rungs[0].edges, Reading::Spectral) > 500_000);
    assert!(width(narrow.rungs[4].edges, Reading::Power) > 500_000);
    let wide = air(&table, 2300).expect("measured");
    assert!(width(wide.control_ordinary, Reading::Wider) < 2_800_000);
    assert!(air(&table, 9600).is_err());
}
