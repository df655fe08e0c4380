//! What a setting may be, setting by setting.
use vstd::prelude::*;

use crate::figures::a_number_is_written_in_figures;
use crate::json::{Number, Tree};
use crate::settings::{
    breach, carried, covered, first_covering, first_named, option_text, rule_of, rule_table, RuleModel, Scope,
};
use crate::text::{digits, without_suffix};

verus! {

/// What the rule for a setting comes to: whose it is, its bounds and its choices.
pub open spec fn ruled(
    key: Seq<char>,
    scope: Scope,
    min: Option<i128>,
    max: Option<i128>,
    options: Seq<Seq<char>>,
) -> bool {
    let rule = rule_of(key);
    rule.scope == scope && rule.min == min && rule.max == max && rule.options == options
}

proof fn lemma_first_named(s: Seq<RuleModel>, key: Seq<char>, from: nat, n: nat)
    requires
        from <= n < s.len(),
        s[n as int].key == key,
        forall|i: int| from <= i < n ==> (#[trigger] s[i]).key != key,
    ensures
        first_named(s, key, from) == n,
    decreases n - from,
{
    if from < n {
        lemma_first_named(s, key, from + 1, n);
    }
}

proof fn lemma_among_2(s: Seq<Seq<char>>, word: Seq<char>)
    requires
        s.len() == 2,
    ensures
        s.contains(word) <==> s[0] == word || s[1] == word,
{
}

proof fn lemma_among_3(s: Seq<Seq<char>>, word: Seq<char>)
    requires
        s.len() == 3,
    ensures
        s.contains(word) <==> s[0] == word || s[1] == word || s[2] == word,
{
}

proof fn lemma_among_5(s: Seq<Seq<char>>, word: Seq<char>)
    requires
        s.len() == 5,
    ensures
        s.contains(word) <==> s[0] == word || s[1] == word || s[2] == word || s[3] == word || s[4] == word,
{
}

/// How long the names in the table are.
proof fn lemma_name_lengths()
    ensures
        rule_table().len() == 29,
        rule_table()[0].key.len() == 16,
        rule_table()[1].key.len() == 11,
        rule_table()[2].key.len() == 12,
        rule_table()[3].key.len() == 17,
        rule_table()[4].key.len() == 14,
        rule_table()[5].key.len() == 8,
        rule_table()[6].key.len() == 8,
        rule_table()[7].key.len() == 10,
        rule_table()[8].key.len() == 8,
        rule_table()[9].key.len() == 12,
        rule_table()[10].key.len() == 10,
        rule_table()[11].key.len() == 8,
        rule_table()[12].key.len() == 15,
        rule_table()[13].key.len() == 8,
        rule_table()[14].key.len() == 15,
        rule_table()[15].key.len() == 15,
        rule_table()[16].key.len() == 14,
        rule_table()[17].key.len() == 15,
        rule_table()[18].key.len() == 12,
        rule_table()[19].key.len() == 13,
        rule_table()[20].key.len() == 14,
        rule_table()[21].key.len() == 10,
        rule_table()[22].key.len() == 8,
        rule_table()[23].key.len() == 14,
        rule_table()[24].key.len() == 10,
        rule_table()[25].key.len() == 10,
        rule_table()[26].key.len() == 11,
        rule_table()[27].key.len() == 5,
        rule_table()[28].key.len() == 15,
{
    reveal_strlit("operator.power_w");
    reveal_strlit("audio.input");
    reveal_strlit("audio.output");
    reveal_strlit("audio.sample_rate");
    reveal_strlit("audio.tx_level");
    reveal_strlit("ptt.kind");
    reveal_strlit("ptt.port");
    reveal_strlit("ptt.device");
    reveal_strlit("ptt.line");
    reveal_strlit("ptt.protocol");
    reveal_strlit("ptt.source");
    reveal_strlit("ptt.baud");
    reveal_strlit("ptt.civ_address");
    reveal_strlit("ptt.gpio");
    reveal_strlit("radio.max_key_s");
    reveal_strlit("radio.bandwidth");
    reveal_strlit("radio.max_mode");
    reveal_strlit("control.enabled");
    reveal_strlit("control.bind");
    reveal_strlit("control.token");
    reveal_strlit("control.ui_dir");
    reveal_strlit("log.format");
    reveal_strlit("log.file");
    reveal_strlit("update.channel");
    reveal_strlit("record.dir");
    reveal_strlit("sim.listen");
    reveal_strlit("sim.connect");
    reveal_strlit("sim.*");
    reveal_strlit("panel.interface");
}

proof fn lemma_operator_power_w()
    ensures
        ruled("operator.power_w"@, Scope::Portable, Some(1), Some(2_000_000_000_000), Seq::<Seq<char>>::empty()),
{
    lemma_name_lengths();
    lemma_first_named(rule_table(), "operator.power_w"@, 0, 0);
}

proof fn lemma_audio_input()
    ensures
        ruled("audio.input"@, Scope::Hardware, None, None, Seq::<Seq<char>>::empty()),
{
    lemma_name_lengths();
    lemma_first_named(rule_table(), "audio.input"@, 0, 1);
}

proof fn lemma_audio_output()
    ensures
        ruled("audio.output"@, Scope::Hardware, None, None, Seq::<Seq<char>>::empty()),
{
    lemma_name_lengths();
    lemma_first_named(rule_table(), "audio.output"@, 0, 2);
}

proof fn lemma_audio_sample_rate()
    ensures
        ruled("audio.sample_rate"@, Scope::Portable, None, None, seq!["48000"@]),
{
    lemma_name_lengths();
    lemma_first_named(rule_table(), "audio.sample_rate"@, 0, 3);
}

proof fn lemma_audio_tx_level()
    ensures
        ruled("audio.tx_level"@, Scope::Portable, Some(1), Some(1_000_000_000), Seq::<Seq<char>>::empty()),
{
    lemma_name_lengths();
    lemma_first_named(rule_table(), "audio.tx_level"@, 0, 4);
}

proof fn lemma_ptt_kind()
    ensures
        ruled("ptt.kind"@, Scope::Portable, None, None, seq!["none"@, "serial"@, "rigctld"@, "cat"@, "cm108"@]),
{
    lemma_name_lengths();
    lemma_first_named(rule_table(), "ptt.kind"@, 0, 5);
}

proof fn lemma_ptt_port()
    ensures
        ruled("ptt.port"@, Scope::Hardware, None, None, Seq::<Seq<char>>::empty()),
{
    lemma_name_lengths();
    reveal_strlit("ptt.port");
    reveal_strlit("ptt.kind");
    assert(rule_table()[5].key[4] != rule_table()[6].key[4]);
    lemma_first_named(rule_table(), "ptt.port"@, 0, 6);
}

proof fn lemma_ptt_device()
    ensures
        ruled("ptt.device"@, Scope::Hardware, None, None, Seq::<Seq<char>>::empty()),
{
    lemma_name_lengths();
    lemma_first_named(rule_table(), "ptt.device"@, 0, 7);
}

proof fn lemma_ptt_line()
    ensures
        ruled("ptt.line"@, Scope::Portable, None, None, seq!["rts"@, "dtr"@, "both"@]),
{
    lemma_name_lengths();
    reveal_strlit("ptt.line");
    reveal_strlit("ptt.kind");
    reveal_strlit("ptt.port");
    assert(rule_table()[5].key[4] != rule_table()[8].key[4]);
    assert(rule_table()[6].key[4] != rule_table()[8].key[4]);
    lemma_first_named(rule_table(), "ptt.line"@, 0, 8);
}

proof fn lemma_ptt_protocol()
    ensures
        ruled("ptt.protocol"@, Scope::Portable, None, None, seq!["yaesu"@, "kenwood"@, "icom"@]),
{
    lemma_name_lengths();
    reveal_strlit("ptt.protocol");
    reveal_strlit("audio.output");
    assert(rule_table()[2].key[0] != rule_table()[9].key[0]);
    lemma_first_named(rule_table(), "ptt.protocol"@, 0, 9);
}

proof fn lemma_ptt_source()
    ensures
        ruled("ptt.source"@, Scope::Portable, None, None, seq!["data"@, "mic"@]),
{
    lemma_name_lengths();
    reveal_strlit("ptt.source");
    reveal_strlit("ptt.device");
    assert(rule_table()[7].key[4] != rule_table()[10].key[4]);
    lemma_first_named(rule_table(), "ptt.source"@, 0, 10);
}

proof fn lemma_ptt_baud()
    ensures
        ruled("ptt.baud"@, Scope::Portable, Some(1_000_000_000), None, Seq::<Seq<char>>::empty()),
{
    lemma_name_lengths();
    reveal_strlit("ptt.baud");
    reveal_strlit("ptt.kind");
    reveal_strlit("ptt.port");
    reveal_strlit("ptt.line");
    assert(rule_table()[5].key[4] != rule_table()[11].key[4]);
    assert(rule_table()[6].key[4] != rule_table()[11].key[4]);
    assert(rule_table()[8].key[4] != rule_table()[11].key[4]);
    lemma_first_named(rule_table(), "ptt.baud"@, 0, 11);
}

proof fn lemma_ptt_civ_address()
    ensures
        ruled("ptt.civ_address"@, Scope::Portable, Some(0), Some(255_000_000_000), Seq::<Seq<char>>::empty()),
{
    lemma_name_lengths();
    lemma_first_named(rule_table(), "ptt.civ_address"@, 0, 12);
}

proof fn lemma_ptt_gpio()
    ensures
        ruled("ptt.gpio"@, Scope::Portable, Some(1_000_000_000), Some(8_000_000_000), Seq::<Seq<char>>::empty()),
{
    lemma_name_lengths();
    reveal_strlit("ptt.gpio");
    reveal_strlit("ptt.kind");
    reveal_strlit("ptt.port");
    reveal_strlit("ptt.line");
    reveal_strlit("ptt.baud");
    assert(rule_table()[5].key[4] != rule_table()[13].key[4]);
    assert(rule_table()[6].key[4] != rule_table()[13].key[4]);
    assert(rule_table()[8].key[4] != rule_table()[13].key[4]);
    assert(rule_table()[11].key[4] != rule_table()[13].key[4]);
    lemma_first_named(rule_table(), "ptt.gpio"@, 0, 13);
}

proof fn lemma_radio_max_key_s()
    ensures
        ruled("radio.max_key_s"@, Scope::Portable, Some(1), None, Seq::<Seq<char>>::empty()),
{
    lemma_name_lengths();
    reveal_strlit("radio.max_key_s");
    reveal_strlit("ptt.civ_address");
    assert(rule_table()[12].key[0] != rule_table()[14].key[0]);
    lemma_first_named(rule_table(), "radio.max_key_s"@, 0, 14);
}

proof fn lemma_radio_bandwidth()
    ensures
        ruled("radio.bandwidth"@, Scope::Portable, None, None, seq!["2300"@, "500"@]),
{
    lemma_name_lengths();
    reveal_strlit("radio.bandwidth");
    reveal_strlit("ptt.civ_address");
    reveal_strlit("radio.max_key_s");
    assert(rule_table()[12].key[0] != rule_table()[15].key[0]);
    assert(rule_table()[14].key[6] != rule_table()[15].key[6]);
    lemma_first_named(rule_table(), "radio.bandwidth"@, 0, 15);
}

proof fn lemma_radio_max_mode()
    ensures
        ruled("radio.max_mode"@, Scope::Portable, Some(0), Some(19_000_000_000), Seq::<Seq<char>>::empty()),
{
    lemma_name_lengths();
    reveal_strlit("radio.max_mode");
    reveal_strlit("audio.tx_level");
    assert(rule_table()[4].key[0] != rule_table()[16].key[0]);
    lemma_first_named(rule_table(), "radio.max_mode"@, 0, 16);
}

proof fn lemma_control_enabled()
    ensures
        ruled("control.enabled"@, Scope::Machine, None, None, Seq::<Seq<char>>::empty()),
{
    lemma_name_lengths();
    reveal_strlit("control.enabled");
    reveal_strlit("ptt.civ_address");
    reveal_strlit("radio.max_key_s");
    reveal_strlit("radio.bandwidth");
    assert(rule_table()[12].key[0] != rule_table()[17].key[0]);
    assert(rule_table()[14].key[0] != rule_table()[17].key[0]);
    assert(rule_table()[15].key[0] != rule_table()[17].key[0]);
    lemma_first_named(rule_table(), "control.enabled"@, 0, 17);
}

proof fn lemma_control_bind()
    ensures
        ruled("control.bind"@, Scope::Machine, None, None, Seq::<Seq<char>>::empty()),
{
    lemma_name_lengths();
    reveal_strlit("control.bind");
    reveal_strlit("audio.output");
    reveal_strlit("ptt.protocol");
    assert(rule_table()[2].key[0] != rule_table()[18].key[0]);
    assert(rule_table()[9].key[0] != rule_table()[18].key[0]);
    lemma_first_named(rule_table(), "control.bind"@, 0, 18);
}

proof fn lemma_control_token()
    ensures
        ruled("control.token"@, Scope::Secret, None, None, Seq::<Seq<char>>::empty()),
{
    lemma_name_lengths();
    lemma_first_named(rule_table(), "control.token"@, 0, 19);
}

proof fn lemma_control_ui_dir()
    ensures
        ruled("control.ui_dir"@, Scope::Machine, None, None, Seq::<Seq<char>>::empty()),
{
    lemma_name_lengths();
    reveal_strlit("control.ui_dir");
    reveal_strlit("audio.tx_level");
    reveal_strlit("radio.max_mode");
    assert(rule_table()[4].key[0] != rule_table()[20].key[0]);
    assert(rule_table()[16].key[0] != rule_table()[20].key[0]);
    lemma_first_named(rule_table(), "control.ui_dir"@, 0, 20);
}

proof fn lemma_log_format()
    ensures
        ruled("log.format"@, Scope::Portable, None, None, seq!["text"@, "json"@]),
{
    lemma_name_lengths();
    reveal_strlit("log.format");
    reveal_strlit("ptt.device");
    reveal_strlit("ptt.source");
    assert(rule_table()[7].key[0] != rule_table()[21].key[0]);
    assert(rule_table()[10].key[0] != rule_table()[21].key[0]);
    lemma_first_named(rule_table(), "log.format"@, 0, 21);
}

proof fn lemma_log_file()
    ensures
        ruled("log.file"@, Scope::Machine, None, None, Seq::<Seq<char>>::empty()),
{
    lemma_name_lengths();
    reveal_strlit("log.file");
    reveal_strlit("ptt.kind");
    reveal_strlit("ptt.port");
    reveal_strlit("ptt.line");
    reveal_strlit("ptt.baud");
    reveal_strlit("ptt.gpio");
    assert(rule_table()[5].key[0] != rule_table()[22].key[0]);
    assert(rule_table()[6].key[0] != rule_table()[22].key[0]);
    assert(rule_table()[8].key[0] != rule_table()[22].key[0]);
    assert(rule_table()[11].key[0] != rule_table()[22].key[0]);
    assert(rule_table()[13].key[0] != rule_table()[22].key[0]);
    lemma_first_named(rule_table(), "log.file"@, 0, 22);
}

proof fn lemma_update_channel()
    ensures
        ruled("update.channel"@, Scope::Portable, None, None, seq!["stable"@, "beta"@, "nightly"@]),
{
    lemma_name_lengths();
    reveal_strlit("update.channel");
    reveal_strlit("audio.tx_level");
    reveal_strlit("radio.max_mode");
    reveal_strlit("control.ui_dir");
    assert(rule_table()[4].key[0] != rule_table()[23].key[0]);
    assert(rule_table()[16].key[0] != rule_table()[23].key[0]);
    assert(rule_table()[20].key[0] != rule_table()[23].key[0]);
    lemma_first_named(rule_table(), "update.channel"@, 0, 23);
}

proof fn lemma_record_dir()
    ensures
        ruled("record.dir"@, Scope::Machine, None, None, Seq::<Seq<char>>::empty()),
{
    lemma_name_lengths();
    reveal_strlit("record.dir");
    reveal_strlit("ptt.device");
    reveal_strlit("ptt.source");
    reveal_strlit("log.format");
    assert(rule_table()[7].key[0] != rule_table()[24].key[0]);
    assert(rule_table()[10].key[0] != rule_table()[24].key[0]);
    assert(rule_table()[21].key[0] != rule_table()[24].key[0]);
    lemma_first_named(rule_table(), "record.dir"@, 0, 24);
}

proof fn lemma_sim_listen()
    ensures
        ruled("sim.listen"@, Scope::Machine, None, None, Seq::<Seq<char>>::empty()),
{
    lemma_name_lengths();
    reveal_strlit("sim.listen");
    reveal_strlit("ptt.device");
    reveal_strlit("ptt.source");
    reveal_strlit("log.format");
    reveal_strlit("record.dir");
    assert(rule_table()[7].key[0] != rule_table()[25].key[0]);
    assert(rule_table()[10].key[0] != rule_table()[25].key[0]);
    assert(rule_table()[21].key[0] != rule_table()[25].key[0]);
    assert(rule_table()[24].key[0] != rule_table()[25].key[0]);
    lemma_first_named(rule_table(), "sim.listen"@, 0, 25);
}

proof fn lemma_sim_connect()
    ensures
        ruled("sim.connect"@, Scope::Machine, None, None, Seq::<Seq<char>>::empty()),
{
    lemma_name_lengths();
    reveal_strlit("sim.connect");
    reveal_strlit("audio.input");
    assert(rule_table()[1].key[0] != rule_table()[26].key[0]);
    lemma_first_named(rule_table(), "sim.connect"@, 0, 26);
}

/// A number is taken for a setting exactly where it is within the setting's bounds: a power up
/// to two kilowatts, a level up to full scale, a rate of at least one, a CI-V address of one
/// byte, one of eight pins, a limit above nothing, and one of twenty rungs.
pub proof fn a_number_is_taken_within_its_bounds(n: Number)
    ensures
        breach("operator.power_w"@, Tree::Number(n)) is None <==> n.above(0) && !n.above(2_000_000_000_000),
        breach("audio.tx_level"@, Tree::Number(n)) is None <==> n.above(0) && !n.above(1_000_000_000),
        breach("ptt.baud"@, Tree::Number(n)) is None <==> !n.below(1_000_000_000),
        breach("ptt.civ_address"@, Tree::Number(n)) is None <==> !n.below(0) && !n.above(255_000_000_000),
        breach("ptt.gpio"@, Tree::Number(n)) is None <==> !n.below(1_000_000_000) && !n.above(8_000_000_000),
        breach("radio.max_key_s"@, Tree::Number(n)) is None <==> n.above(0),
        breach("radio.max_mode"@, Tree::Number(n)) is None <==> !n.below(0) && !n.above(19_000_000_000),
{
    lemma_operator_power_w();
    lemma_audio_tx_level();
    lemma_ptt_baud();
    lemma_ptt_civ_address();
    lemma_ptt_gpio();
    lemma_radio_max_key_s();
    lemma_radio_max_mode();
}

/// A word is taken for a setting exactly where it is one of the setting's choices.
pub proof fn a_word_is_taken_among_the_choices(word: Seq<char>)
    ensures
        breach("ptt.kind"@, Tree::Text(word)) is None <==> word == "none"@ || word == "serial"@ || word == "rigctld"@ || word == "cat"@ || word == "cm108"@,
        breach("ptt.line"@, Tree::Text(word)) is None <==> word == "rts"@ || word == "dtr"@ || word == "both"@,
        breach("ptt.protocol"@, Tree::Text(word)) is None <==> word == "yaesu"@ || word == "kenwood"@ || word == "icom"@,
        breach("ptt.source"@, Tree::Text(word)) is None <==> word == "data"@ || word == "mic"@,
        breach("log.format"@, Tree::Text(word)) is None <==> word == "text"@ || word == "json"@,
        breach("update.channel"@, Tree::Text(word)) is None <==> word == "stable"@ || word == "beta"@ || word == "nightly"@,
{
    lemma_ptt_kind();
    lemma_ptt_line();
    lemma_ptt_protocol();
    lemma_ptt_source();
    lemma_log_format();
    lemma_update_channel();
    lemma_among_5(seq!["none"@, "serial"@, "rigctld"@, "cat"@, "cm108"@], word);
    lemma_among_3(seq!["rts"@, "dtr"@, "both"@], word);
    lemma_among_3(seq!["yaesu"@, "kenwood"@, "icom"@], word);
    lemma_among_2(seq!["data"@, "mic"@], word);
    lemma_among_2(seq!["text"@, "json"@], word);
    lemma_among_3(seq!["stable"@, "beta"@, "nightly"@], word);
}

/// What is this computer's own stays on it: where it listens, what it serves and where it
/// writes, whatever they are set to, and the secret with them. What names the hardware travels.
pub proof fn this_computers_own_stays(key: Seq<char>)
    ensures
        key == "control.enabled"@ || key == "control.bind"@ || key == "control.ui_dir"@ || key == "log.file"@ || key == "record.dir"@ || key == "sim.listen"@ || key == "sim.connect"@ || key == "control.token"@ ==> !carried(key),
        key == "audio.input"@ || key == "audio.output"@ || key == "ptt.port"@ || key == "ptt.device"@ ==> carried(key),
        !carried("schema_version"@),
{
    lemma_audio_input();
    lemma_audio_output();
    lemma_ptt_port();
    lemma_ptt_device();
    lemma_control_enabled();
    lemma_control_bind();
    lemma_control_token();
    lemma_control_ui_dir();
    lemma_log_file();
    lemma_record_dir();
    lemma_sim_listen();
    lemma_sim_connect();
    lemma_name_lengths();
    reveal_strlit("schema_version");
    assert("schema_version"@.len() == 14);
}

/// What a text of figures stands for is what was written.
proof fn lemma_same_figures(a: nat, b: nat)
    ensures
        digits(a) == digits(b) <==> a == b,
{
    a_number_is_written_in_figures(a);
    a_number_is_written_in_figures(b);
}

/// The sample rate is the one the waveform is built around, and the bandwidth one of the two
/// there are.
pub proof fn the_rate_and_the_bandwidth_are_those_there_are(n: u64)
    ensures
        breach("audio.sample_rate"@, Tree::Number(Number::Unsigned(n))) is None <==> n == 48_000,
        breach("radio.bandwidth"@, Tree::Number(Number::Unsigned(n))) is None <==> n == 2300 || n == 500,
{
    lemma_audio_sample_rate();
    lemma_radio_bandwidth();
    reveal_strlit("48000");
    reveal_strlit("2300");
    reveal_strlit("500");
    reveal_with_fuel(digits, 5);
    assert(digits(48_000) =~= "48000"@);
    assert(digits(2300) =~= "2300"@);
    assert(digits(500) =~= "500"@);
    lemma_same_figures(n as nat, 48_000);
    lemma_same_figures(n as nat, 2300);
    lemma_same_figures(n as nat, 500);
    let one = seq!["48000"@];
    assert(one.contains(digits(n as nat)) <==> one[0] == digits(n as nat));
    lemma_among_2(seq!["2300"@, "500"@], digits(n as nat));
    assert(option_text(Tree::Number(Number::Unsigned(n))) == digits(n as nat));
}

/// How the names in the table begin and end.
proof fn lemma_name_ends()
    ensures
        forall|i: int| 0 <= i < rule_table().len() ==> {
            &&& (#[trigger] rule_table()[i]).key[0] == 's' <==> 25 <= i <= 27
            &&& rule_table()[i].key.last() == '*' <==> i == 27
            &&& rule_table()[i].key.len() >= 5
        },
        rule_table()[27].key == "sim.*"@,
{
    lemma_name_lengths();
    reveal_strlit("operator.power_w");
    reveal_strlit("audio.input");
    reveal_strlit("audio.output");
    reveal_strlit("audio.sample_rate");
    reveal_strlit("audio.tx_level");
    reveal_strlit("ptt.kind");
    reveal_strlit("ptt.port");
    reveal_strlit("ptt.device");
    reveal_strlit("ptt.line");
    reveal_strlit("ptt.protocol");
    reveal_strlit("ptt.source");
    reveal_strlit("ptt.baud");
    reveal_strlit("ptt.civ_address");
    reveal_strlit("ptt.gpio");
    reveal_strlit("radio.max_key_s");
    reveal_strlit("radio.bandwidth");
    reveal_strlit("radio.max_mode");
    reveal_strlit("control.enabled");
    reveal_strlit("control.bind");
    reveal_strlit("control.token");
    reveal_strlit("control.ui_dir");
    reveal_strlit("log.format");
    reveal_strlit("log.file");
    reveal_strlit("update.channel");
    reveal_strlit("record.dir");
    reveal_strlit("sim.listen");
    reveal_strlit("sim.connect");
    reveal_strlit("sim.*");
    reveal_strlit("panel.interface");
    assert forall|i: int| 0 <= i < rule_table().len() implies {
        &&& (#[trigger] rule_table()[i]).key[0] == 's' <==> 25 <= i <= 27
        &&& rule_table()[i].key.last() == '*' <==> i == 27
        &&& rule_table()[i].key.len() >= 5
    } by {
    }
}

proof fn lemma_named(s: Seq<RuleModel>, key: Seq<char>, from: nat)
    ensures
        first_named(s, key, from) < s.len() ==> s[first_named(s, key, from) as int].key == key,
    decreases s.len() - from,
{
    if from < s.len() && s[from as int].key != key {
        lemma_named(s, key, from + 1);
    }
}

proof fn lemma_covering(s: Seq<RuleModel>, key: Seq<char>, from: nat, n: nat)
    requires
        from <= n < s.len(),
        covered(s[n as int].key, key),
        forall|i: int| from <= i < n ==> !covered((#[trigger] s[i]).key, key),
    ensures
        first_covering(s, key, from) == n,
    decreases n - from,
{
    if from < n {
        lemma_covering(s, key, from + 1, n);
    }
}

/// The simulated radio is this computer's own: nothing of its section travels, whatever it is
/// called.
pub proof fn the_simulated_radio_stays(name: Seq<char>)
    ensures
        !carried("sim."@ + name),
{
    let s = rule_table();
    let key = "sim."@ + name;
    lemma_name_ends();
    lemma_named(s, key, 0);
    reveal_strlit("sim.");
    reveal_strlit("sim.*");
    reveal_strlit(".*");
    reveal_strlit(".");
    assert(key[0] == 's');
    if first_named(s, key, 0) < s.len() {
        assert(s[first_named(s, key, 0) as int].key[0] == 's');
    } else {
        let pattern = "sim.*"@;
        assert(pattern.subrange(3, 5) =~= ".*"@);
        let stem = without_suffix(pattern, ".*"@);
        assert(stem =~= pattern.subrange(0, 3));
        assert(key.subrange(0, 3) =~= stem);
        let rest = key.subrange(3, key.len() as int);
        assert(rest.subrange(0, 1) =~= "."@);
        assert(covered(pattern, key));
        assert forall|i: int| 0 <= i < 27 implies !covered((#[trigger] s[i]).key, key) by {
            let other = s[i].key;
            if covered(other, key) {
                assert(other.subrange(other.len() - 2, other.len() as int)[1] == ".*"@[1]);
                assert(other.last() == '*');
            }
        }
        lemma_covering(s, key, 0, 27);
    }
}

} // verus!
