//! What holds of profiles: what travels, what stays, and where a loaded setting comes from.
use vstd::prelude::*;

use super::{
    at_defaults, cleaned, end_mark, first_setting, id_of, known_settings, objection, portable_part, projected,
    sorted_many, sorted_settings, unfit,
};
use crate::json::{field, lookup, placed, put, put_is_found, replaced, Tree};
use crate::settings::{
    carried, described, descriptions, dotted, get_path, joined_leaves, keying_leaves, leads_on, leaves_in,
    leaves_of, parts, put_path, rule_of, setting_a_key_changes_no_other, shape_leaves, table_entries,
    template_leaves, what_is_set_is_found, with_keying, SettingModel,
};
use crate::text::{
    begins, leading, lemma_leading_bound, lemma_leading_is, lemma_trailing_bound, lemma_trailing_is, precedes,
    stripped, trailing, trimmed, white_space,
};

verus! {

/// The dotted name of a path below a table.
pub open spec fn dotted_path(prefix: Seq<char>, path: Seq<Seq<char>>) -> Seq<char>
    decreases path.len(),
{
    if path.len() == 0 { prefix } else { dotted_path(dotted(prefix, path[0]), path.drop_first()) }
}

pub(crate) proof fn lemma_path_push(prefix: Seq<char>, path: Seq<Seq<char>>, last: Seq<char>)
    ensures
        dotted_path(prefix, path.push(last)) == dotted(dotted_path(prefix, path), last),
    decreases path.len(),
{
    if path.len() == 0 {
        assert(path.push(last).drop_first() =~= Seq::empty());
        assert(dotted_path(dotted(prefix, last), path.push(last).drop_first()) == dotted(prefix, last));
    } else {
        assert(path.push(last).drop_first() =~= path.drop_first().push(last));
        lemma_path_push(dotted(prefix, path[0]), path.drop_first(), last);
    }
}

pub(crate) proof fn lemma_parts(s: Seq<char>)
    ensures
        parts(s).len() >= 1,
        parts(s)[0].len() > 0 ==> dotted_path(Seq::empty(), parts(s)) == s && s.len() > 0,
    decreases s.len(),
{
    if s.len() == 0 {
        assert(parts(s) == seq![Seq::<char>::empty()]);
    } else {
        let before = s.drop_last();
        lemma_parts(before);
        let p = parts(before);
        if s.last() == '.' {
            if parts(s)[0].len() > 0 {
                reveal_strlit(".");
                lemma_path_push(Seq::empty(), p, Seq::empty());
                assert(dotted(before, Seq::empty()) =~= s);
            }
        } else {
            let head = p.drop_last();
            let last = p.last();
            assert(p =~= head.push(last));
            assert(parts(s) =~= head.push(last.push(s.last())));
            if parts(s)[0].len() > 0 {
                lemma_path_push(Seq::empty(), head, last);
                lemma_path_push(Seq::empty(), head, last.push(s.last()));
                if head.len() == 0 {
                    assert(before == last) by {
                        if before.len() > 0 {
                            lemma_one_part(before);
                        }
                    }
                    assert(dotted(Seq::empty(), last.push(s.last())) =~= s);
                } else {
                    assert(parts(s)[0] == p[0]);
                    let d = dotted_path(Seq::empty(), head);
                    lemma_path_not_empty(Seq::empty(), head);
                    assert(dotted(d, last.push(s.last())) =~= dotted(d, last).push(s.last()));
                    assert(before.push(s.last()) =~= s);
                }
            }
        }
    }
}

proof fn lemma_one_part(s: Seq<char>)
    requires
        parts(s).len() == 1,
    ensures
        parts(s)[0] == s,
    decreases s.len(),
{
    if s.len() > 0 {
        let before = s.drop_last();
        lemma_parts_len(before);
        lemma_one_part(before);
        assert(before.push(s.last()) =~= s);
    }
}

pub(crate) proof fn lemma_parts_len(s: Seq<char>)
    ensures
        parts(s).len() >= 1,
    decreases s.len(),
{
    if s.len() > 0 {
        lemma_parts_len(s.drop_last());
    }
}

proof fn lemma_path_not_empty(prefix: Seq<char>, path: Seq<Seq<char>>)
    requires
        prefix.len() > 0 || (path.len() > 0 && path[0].len() > 0),
    ensures
        dotted_path(prefix, path).len() > 0,
    decreases path.len(),
{
    if path.len() > 0 {
        reveal_strlit(".");
        lemma_path_not_empty(dotted(prefix, path[0]), path.drop_first());
    }
}

/// Whether a text has no full stop in it.
pub open spec fn plain_name(s: Seq<char>) -> bool {
    forall|i: int| 0 <= i < s.len() ==> #[trigger] s[i] != '.'
}

pub(crate) proof fn lemma_parts_of_plain(s: Seq<char>, name: Seq<char>)
    requires
        plain_name(name),
    ensures
        parts(s + "."@ + name) == parts(s).push(name),
        s.len() == 0 ==> parts(name) == seq![name],
    decreases name.len(),
{
    reveal_strlit(".");
    lemma_parts_len(s);
    if name.len() == 0 {
        let whole = s + "."@ + name;
        assert(whole.drop_last() =~= s);
        assert(whole.last() == '.');
        assert(name =~= Seq::empty());
    } else {
        let before = name.drop_last();
        assert(plain_name(before)) by {
            assert forall|i: int| 0 <= i < before.len() implies #[trigger] before[i] != '.' by {
                assert(before[i] == name[i]);
            }
        }
        lemma_parts_of_plain(s, before);
        let whole = s + "."@ + name;
        assert(whole.drop_last() =~= s + "."@ + before);
        assert(whole.last() == name.last());
        assert(name[name.len() - 1] != '.');
        assert(before.push(name.last()) =~= name);
        assert(parts(whole) =~= parts(s).push(name));
        if s.len() == 0 {
            assert(parts(name) =~= seq![name]);
        }
    }
}

proof fn lemma_top_paths()
    ensures
        parts("schema_version"@) == seq!["schema_version"@],
        parts("callsign"@) == seq!["callsign"@],
{
    reveal_strlit(".");
    reveal_strlit("schema_version");
    assert(plain_name("schema_version"@));
    lemma_parts_of_plain(Seq::empty(), "schema_version"@);
    reveal_strlit("callsign");
    assert(plain_name("callsign"@));
    lemma_parts_of_plain(Seq::empty(), "callsign"@);
}

proof fn lemma_operator_paths()
    ensures
        parts("operator.grid"@) == seq!["operator"@, "grid"@],
        parts("operator.rig"@) == seq!["operator"@, "rig"@],
        parts("operator.power_w"@) == seq!["operator"@, "power_w"@],
        parts("operator.antenna"@) == seq!["operator"@, "antenna"@],
{
    reveal_strlit(".");
    reveal_strlit("operator");
    assert(plain_name("operator"@));
    lemma_parts_of_plain(Seq::empty(), "operator"@);
    reveal_strlit("grid");
    assert(plain_name("grid"@));
    reveal_strlit("operator.grid");
    assert("operator.grid"@ =~= "operator"@ + "."@ + "grid"@);
    lemma_parts_of_plain("operator"@, "grid"@);
    assert(parts("operator.grid"@) =~= seq!["operator"@, "grid"@]);
    reveal_strlit("rig");
    assert(plain_name("rig"@));
    reveal_strlit("operator.rig");
    assert("operator.rig"@ =~= "operator"@ + "."@ + "rig"@);
    lemma_parts_of_plain("operator"@, "rig"@);
    assert(parts("operator.rig"@) =~= seq!["operator"@, "rig"@]);
    reveal_strlit("power_w");
    assert(plain_name("power_w"@));
    reveal_strlit("operator.power_w");
    assert("operator.power_w"@ =~= "operator"@ + "."@ + "power_w"@);
    lemma_parts_of_plain("operator"@, "power_w"@);
    assert(parts("operator.power_w"@) =~= seq!["operator"@, "power_w"@]);
    reveal_strlit("antenna");
    assert(plain_name("antenna"@));
    reveal_strlit("operator.antenna");
    assert("operator.antenna"@ =~= "operator"@ + "."@ + "antenna"@);
    lemma_parts_of_plain("operator"@, "antenna"@);
    assert(parts("operator.antenna"@) =~= seq!["operator"@, "antenna"@]);
}

proof fn lemma_audio_paths()
    ensures
        parts("audio.input"@) == seq!["audio"@, "input"@],
        parts("audio.output"@) == seq!["audio"@, "output"@],
        parts("audio.sample_rate"@) == seq!["audio"@, "sample_rate"@],
        parts("audio.tx_level"@) == seq!["audio"@, "tx_level"@],
{
    reveal_strlit(".");
    reveal_strlit("audio");
    assert(plain_name("audio"@));
    lemma_parts_of_plain(Seq::empty(), "audio"@);
    reveal_strlit("input");
    assert(plain_name("input"@));
    reveal_strlit("audio.input");
    assert("audio.input"@ =~= "audio"@ + "."@ + "input"@);
    lemma_parts_of_plain("audio"@, "input"@);
    assert(parts("audio.input"@) =~= seq!["audio"@, "input"@]);
    reveal_strlit("output");
    assert(plain_name("output"@));
    reveal_strlit("audio.output");
    assert("audio.output"@ =~= "audio"@ + "."@ + "output"@);
    lemma_parts_of_plain("audio"@, "output"@);
    assert(parts("audio.output"@) =~= seq!["audio"@, "output"@]);
    reveal_strlit("sample_rate");
    assert(plain_name("sample_rate"@));
    reveal_strlit("audio.sample_rate");
    assert("audio.sample_rate"@ =~= "audio"@ + "."@ + "sample_rate"@);
    lemma_parts_of_plain("audio"@, "sample_rate"@);
    assert(parts("audio.sample_rate"@) =~= seq!["audio"@, "sample_rate"@]);
    reveal_strlit("tx_level");
    assert(plain_name("tx_level"@));
    reveal_strlit("audio.tx_level");
    assert("audio.tx_level"@ =~= "audio"@ + "."@ + "tx_level"@);
    lemma_parts_of_plain("audio"@, "tx_level"@);
    assert(parts("audio.tx_level"@) =~= seq!["audio"@, "tx_level"@]);
}

proof fn lemma_ptt_paths()
    ensures
        parts("ptt.kind"@) == seq!["ptt"@, "kind"@],
        parts("ptt.port"@) == seq!["ptt"@, "port"@],
        parts("ptt.protocol"@) == seq!["ptt"@, "protocol"@],
        parts("ptt.baud"@) == seq!["ptt"@, "baud"@],
        parts("ptt.civ_address"@) == seq!["ptt"@, "civ_address"@],
        parts("ptt.source"@) == seq!["ptt"@, "source"@],
        parts("ptt.line"@) == seq!["ptt"@, "line"@],
        parts("ptt.address"@) == seq!["ptt"@, "address"@],
        parts("ptt.device"@) == seq!["ptt"@, "device"@],
        parts("ptt.gpio"@) == seq!["ptt"@, "gpio"@],
{
    reveal_strlit(".");
    reveal_strlit("ptt");
    assert(plain_name("ptt"@));
    lemma_parts_of_plain(Seq::empty(), "ptt"@);
    reveal_strlit("kind");
    assert(plain_name("kind"@));
    reveal_strlit("ptt.kind");
    assert("ptt.kind"@ =~= "ptt"@ + "."@ + "kind"@);
    lemma_parts_of_plain("ptt"@, "kind"@);
    assert(parts("ptt.kind"@) =~= seq!["ptt"@, "kind"@]);
    reveal_strlit("port");
    assert(plain_name("port"@));
    reveal_strlit("ptt.port");
    assert("ptt.port"@ =~= "ptt"@ + "."@ + "port"@);
    lemma_parts_of_plain("ptt"@, "port"@);
    assert(parts("ptt.port"@) =~= seq!["ptt"@, "port"@]);
    reveal_strlit("protocol");
    assert(plain_name("protocol"@));
    reveal_strlit("ptt.protocol");
    assert("ptt.protocol"@ =~= "ptt"@ + "."@ + "protocol"@);
    lemma_parts_of_plain("ptt"@, "protocol"@);
    assert(parts("ptt.protocol"@) =~= seq!["ptt"@, "protocol"@]);
    reveal_strlit("baud");
    assert(plain_name("baud"@));
    reveal_strlit("ptt.baud");
    assert("ptt.baud"@ =~= "ptt"@ + "."@ + "baud"@);
    lemma_parts_of_plain("ptt"@, "baud"@);
    assert(parts("ptt.baud"@) =~= seq!["ptt"@, "baud"@]);
    reveal_strlit("civ_address");
    assert(plain_name("civ_address"@));
    reveal_strlit("ptt.civ_address");
    assert("ptt.civ_address"@ =~= "ptt"@ + "."@ + "civ_address"@);
    lemma_parts_of_plain("ptt"@, "civ_address"@);
    assert(parts("ptt.civ_address"@) =~= seq!["ptt"@, "civ_address"@]);
    reveal_strlit("source");
    assert(plain_name("source"@));
    reveal_strlit("ptt.source");
    assert("ptt.source"@ =~= "ptt"@ + "."@ + "source"@);
    lemma_parts_of_plain("ptt"@, "source"@);
    assert(parts("ptt.source"@) =~= seq!["ptt"@, "source"@]);
    reveal_strlit("line");
    assert(plain_name("line"@));
    reveal_strlit("ptt.line");
    assert("ptt.line"@ =~= "ptt"@ + "."@ + "line"@);
    lemma_parts_of_plain("ptt"@, "line"@);
    assert(parts("ptt.line"@) =~= seq!["ptt"@, "line"@]);
    reveal_strlit("address");
    assert(plain_name("address"@));
    reveal_strlit("ptt.address");
    assert("ptt.address"@ =~= "ptt"@ + "."@ + "address"@);
    lemma_parts_of_plain("ptt"@, "address"@);
    assert(parts("ptt.address"@) =~= seq!["ptt"@, "address"@]);
    reveal_strlit("device");
    assert(plain_name("device"@));
    reveal_strlit("ptt.device");
    assert("ptt.device"@ =~= "ptt"@ + "."@ + "device"@);
    lemma_parts_of_plain("ptt"@, "device"@);
    assert(parts("ptt.device"@) =~= seq!["ptt"@, "device"@]);
    reveal_strlit("gpio");
    assert(plain_name("gpio"@));
    reveal_strlit("ptt.gpio");
    assert("ptt.gpio"@ =~= "ptt"@ + "."@ + "gpio"@);
    lemma_parts_of_plain("ptt"@, "gpio"@);
    assert(parts("ptt.gpio"@) =~= seq!["ptt"@, "gpio"@]);
}

proof fn lemma_radio_paths()
    ensures
        parts("radio.max_key_s"@) == seq!["radio"@, "max_key_s"@],
        parts("radio.wait_for_clear"@) == seq!["radio"@, "wait_for_clear"@],
        parts("radio.busy_threshold_db"@) == seq!["radio"@, "busy_threshold_db"@],
        parts("radio.bandwidth"@) == seq!["radio"@, "bandwidth"@],
        parts("radio.answer_only"@) == seq!["radio"@, "answer_only"@],
        parts("radio.max_mode"@) == seq!["radio"@, "max_mode"@],
        parts("radio.compress"@) == seq!["radio"@, "compress"@],
        parts("radio.cw_id"@) == seq!["radio"@, "cw_id"@],
        parts("radio.cw_id_wpm"@) == seq!["radio"@, "cw_id_wpm"@],
        parts("radio.cw_id_interval_s"@) == seq!["radio"@, "cw_id_interval_s"@],
{
    reveal_strlit(".");
    reveal_strlit("radio");
    assert(plain_name("radio"@));
    lemma_parts_of_plain(Seq::empty(), "radio"@);
    reveal_strlit("max_key_s");
    assert(plain_name("max_key_s"@));
    reveal_strlit("radio.max_key_s");
    assert("radio.max_key_s"@ =~= "radio"@ + "."@ + "max_key_s"@);
    lemma_parts_of_plain("radio"@, "max_key_s"@);
    assert(parts("radio.max_key_s"@) =~= seq!["radio"@, "max_key_s"@]);
    reveal_strlit("wait_for_clear");
    assert(plain_name("wait_for_clear"@));
    reveal_strlit("radio.wait_for_clear");
    assert("radio.wait_for_clear"@ =~= "radio"@ + "."@ + "wait_for_clear"@);
    lemma_parts_of_plain("radio"@, "wait_for_clear"@);
    assert(parts("radio.wait_for_clear"@) =~= seq!["radio"@, "wait_for_clear"@]);
    reveal_strlit("busy_threshold_db");
    assert(plain_name("busy_threshold_db"@));
    reveal_strlit("radio.busy_threshold_db");
    assert("radio.busy_threshold_db"@ =~= "radio"@ + "."@ + "busy_threshold_db"@);
    lemma_parts_of_plain("radio"@, "busy_threshold_db"@);
    assert(parts("radio.busy_threshold_db"@) =~= seq!["radio"@, "busy_threshold_db"@]);
    reveal_strlit("bandwidth");
    assert(plain_name("bandwidth"@));
    reveal_strlit("radio.bandwidth");
    assert("radio.bandwidth"@ =~= "radio"@ + "."@ + "bandwidth"@);
    lemma_parts_of_plain("radio"@, "bandwidth"@);
    assert(parts("radio.bandwidth"@) =~= seq!["radio"@, "bandwidth"@]);
    reveal_strlit("answer_only");
    assert(plain_name("answer_only"@));
    reveal_strlit("radio.answer_only");
    assert("radio.answer_only"@ =~= "radio"@ + "."@ + "answer_only"@);
    lemma_parts_of_plain("radio"@, "answer_only"@);
    assert(parts("radio.answer_only"@) =~= seq!["radio"@, "answer_only"@]);
    reveal_strlit("max_mode");
    assert(plain_name("max_mode"@));
    reveal_strlit("radio.max_mode");
    assert("radio.max_mode"@ =~= "radio"@ + "."@ + "max_mode"@);
    lemma_parts_of_plain("radio"@, "max_mode"@);
    assert(parts("radio.max_mode"@) =~= seq!["radio"@, "max_mode"@]);
    reveal_strlit("compress");
    assert(plain_name("compress"@));
    reveal_strlit("radio.compress");
    assert("radio.compress"@ =~= "radio"@ + "."@ + "compress"@);
    lemma_parts_of_plain("radio"@, "compress"@);
    assert(parts("radio.compress"@) =~= seq!["radio"@, "compress"@]);
    reveal_strlit("cw_id");
    assert(plain_name("cw_id"@));
    reveal_strlit("radio.cw_id");
    assert("radio.cw_id"@ =~= "radio"@ + "."@ + "cw_id"@);
    lemma_parts_of_plain("radio"@, "cw_id"@);
    assert(parts("radio.cw_id"@) =~= seq!["radio"@, "cw_id"@]);
    reveal_strlit("cw_id_wpm");
    assert(plain_name("cw_id_wpm"@));
    reveal_strlit("radio.cw_id_wpm");
    assert("radio.cw_id_wpm"@ =~= "radio"@ + "."@ + "cw_id_wpm"@);
    lemma_parts_of_plain("radio"@, "cw_id_wpm"@);
    assert(parts("radio.cw_id_wpm"@) =~= seq!["radio"@, "cw_id_wpm"@]);
    reveal_strlit("cw_id_interval_s");
    assert(plain_name("cw_id_interval_s"@));
    reveal_strlit("radio.cw_id_interval_s");
    assert("radio.cw_id_interval_s"@ =~= "radio"@ + "."@ + "cw_id_interval_s"@);
    lemma_parts_of_plain("radio"@, "cw_id_interval_s"@);
    assert(parts("radio.cw_id_interval_s"@) =~= seq!["radio"@, "cw_id_interval_s"@]);
}

proof fn lemma_control_paths()
    ensures
        parts("control.enabled"@) == seq!["control"@, "enabled"@],
        parts("control.bind"@) == seq!["control"@, "bind"@],
        parts("control.token"@) == seq!["control"@, "token"@],
        parts("control.ui_dir"@) == seq!["control"@, "ui_dir"@],
{
    reveal_strlit(".");
    reveal_strlit("control");
    assert(plain_name("control"@));
    lemma_parts_of_plain(Seq::empty(), "control"@);
    reveal_strlit("enabled");
    assert(plain_name("enabled"@));
    reveal_strlit("control.enabled");
    assert("control.enabled"@ =~= "control"@ + "."@ + "enabled"@);
    lemma_parts_of_plain("control"@, "enabled"@);
    assert(parts("control.enabled"@) =~= seq!["control"@, "enabled"@]);
    reveal_strlit("bind");
    assert(plain_name("bind"@));
    reveal_strlit("control.bind");
    assert("control.bind"@ =~= "control"@ + "."@ + "bind"@);
    lemma_parts_of_plain("control"@, "bind"@);
    assert(parts("control.bind"@) =~= seq!["control"@, "bind"@]);
    reveal_strlit("token");
    assert(plain_name("token"@));
    reveal_strlit("control.token");
    assert("control.token"@ =~= "control"@ + "."@ + "token"@);
    lemma_parts_of_plain("control"@, "token"@);
    assert(parts("control.token"@) =~= seq!["control"@, "token"@]);
    reveal_strlit("ui_dir");
    assert(plain_name("ui_dir"@));
    reveal_strlit("control.ui_dir");
    assert("control.ui_dir"@ =~= "control"@ + "."@ + "ui_dir"@);
    lemma_parts_of_plain("control"@, "ui_dir"@);
    assert(parts("control.ui_dir"@) =~= seq!["control"@, "ui_dir"@]);
}

proof fn lemma_host_paths()
    ensures
        parts("host.enabled"@) == seq!["host"@, "enabled"@],
        parts("host.bind"@) == seq!["host"@, "bind"@],
        parts("host.trace"@) == seq!["host"@, "trace"@],
{
    reveal_strlit(".");
    reveal_strlit("host");
    assert(plain_name("host"@));
    lemma_parts_of_plain(Seq::empty(), "host"@);
    reveal_strlit("enabled");
    assert(plain_name("enabled"@));
    reveal_strlit("host.enabled");
    assert("host.enabled"@ =~= "host"@ + "."@ + "enabled"@);
    lemma_parts_of_plain("host"@, "enabled"@);
    assert(parts("host.enabled"@) =~= seq!["host"@, "enabled"@]);
    reveal_strlit("bind");
    assert(plain_name("bind"@));
    reveal_strlit("host.bind");
    assert("host.bind"@ =~= "host"@ + "."@ + "bind"@);
    lemma_parts_of_plain("host"@, "bind"@);
    assert(parts("host.bind"@) =~= seq!["host"@, "bind"@]);
    reveal_strlit("trace");
    assert(plain_name("trace"@));
    reveal_strlit("host.trace");
    assert("host.trace"@ =~= "host"@ + "."@ + "trace"@);
    lemma_parts_of_plain("host"@, "trace"@);
    assert(parts("host.trace"@) =~= seq!["host"@, "trace"@]);
}

proof fn lemma_log_paths()
    ensures
        parts("log.format"@) == seq!["log"@, "format"@],
        parts("log.file"@) == seq!["log"@, "file"@],
        parts("log.keep"@) == seq!["log"@, "keep"@],
{
    reveal_strlit(".");
    reveal_strlit("log");
    assert(plain_name("log"@));
    lemma_parts_of_plain(Seq::empty(), "log"@);
    reveal_strlit("format");
    assert(plain_name("format"@));
    reveal_strlit("log.format");
    assert("log.format"@ =~= "log"@ + "."@ + "format"@);
    lemma_parts_of_plain("log"@, "format"@);
    assert(parts("log.format"@) =~= seq!["log"@, "format"@]);
    reveal_strlit("file");
    assert(plain_name("file"@));
    reveal_strlit("log.file");
    assert("log.file"@ =~= "log"@ + "."@ + "file"@);
    lemma_parts_of_plain("log"@, "file"@);
    assert(parts("log.file"@) =~= seq!["log"@, "file"@]);
    reveal_strlit("keep");
    assert(plain_name("keep"@));
    reveal_strlit("log.keep");
    assert("log.keep"@ =~= "log"@ + "."@ + "keep"@);
    lemma_parts_of_plain("log"@, "keep"@);
    assert(parts("log.keep"@) =~= seq!["log"@, "keep"@]);
}

proof fn lemma_update_paths()
    ensures
        parts("update.channel"@) == seq!["update"@, "channel"@],
        parts("update.check"@) == seq!["update"@, "check"@],
{
    reveal_strlit(".");
    reveal_strlit("update");
    assert(plain_name("update"@));
    lemma_parts_of_plain(Seq::empty(), "update"@);
    reveal_strlit("channel");
    assert(plain_name("channel"@));
    reveal_strlit("update.channel");
    assert("update.channel"@ =~= "update"@ + "."@ + "channel"@);
    lemma_parts_of_plain("update"@, "channel"@);
    assert(parts("update.channel"@) =~= seq!["update"@, "channel"@]);
    reveal_strlit("check");
    assert(plain_name("check"@));
    reveal_strlit("update.check");
    assert("update.check"@ =~= "update"@ + "."@ + "check"@);
    lemma_parts_of_plain("update"@, "check"@);
    assert(parts("update.check"@) =~= seq!["update"@, "check"@]);
}

proof fn lemma_record_paths()
    ensures
        parts("record.dir"@) == seq!["record"@, "dir"@],
        parts("record.auto"@) == seq!["record"@, "auto"@],
        parts("record.notes"@) == seq!["record"@, "notes"@],
        parts("record.tx_audio"@) == seq!["record"@, "tx_audio"@],
{
    reveal_strlit(".");
    reveal_strlit("record");
    assert(plain_name("record"@));
    lemma_parts_of_plain(Seq::empty(), "record"@);
    reveal_strlit("dir");
    assert(plain_name("dir"@));
    reveal_strlit("record.dir");
    assert("record.dir"@ =~= "record"@ + "."@ + "dir"@);
    lemma_parts_of_plain("record"@, "dir"@);
    assert(parts("record.dir"@) =~= seq!["record"@, "dir"@]);
    reveal_strlit("auto");
    assert(plain_name("auto"@));
    reveal_strlit("record.auto");
    assert("record.auto"@ =~= "record"@ + "."@ + "auto"@);
    lemma_parts_of_plain("record"@, "auto"@);
    assert(parts("record.auto"@) =~= seq!["record"@, "auto"@]);
    reveal_strlit("notes");
    assert(plain_name("notes"@));
    reveal_strlit("record.notes");
    assert("record.notes"@ =~= "record"@ + "."@ + "notes"@);
    lemma_parts_of_plain("record"@, "notes"@);
    assert(parts("record.notes"@) =~= seq!["record"@, "notes"@]);
    reveal_strlit("tx_audio");
    assert(plain_name("tx_audio"@));
    reveal_strlit("record.tx_audio");
    assert("record.tx_audio"@ =~= "record"@ + "."@ + "tx_audio"@);
    lemma_parts_of_plain("record"@, "tx_audio"@);
    assert(parts("record.tx_audio"@) =~= seq!["record"@, "tx_audio"@]);
}

proof fn lemma_sim_paths()
    ensures
        parts("sim.listen"@) == seq!["sim"@, "listen"@],
        parts("sim.connect"@) == seq!["sim"@, "connect"@],
        parts("sim.snr_db"@) == seq!["sim"@, "snr_db"@],
{
    reveal_strlit(".");
    reveal_strlit("sim");
    assert(plain_name("sim"@));
    lemma_parts_of_plain(Seq::empty(), "sim"@);
    reveal_strlit("listen");
    assert(plain_name("listen"@));
    reveal_strlit("sim.listen");
    assert("sim.listen"@ =~= "sim"@ + "."@ + "listen"@);
    lemma_parts_of_plain("sim"@, "listen"@);
    assert(parts("sim.listen"@) =~= seq!["sim"@, "listen"@]);
    reveal_strlit("connect");
    assert(plain_name("connect"@));
    reveal_strlit("sim.connect");
    assert("sim.connect"@ =~= "sim"@ + "."@ + "connect"@);
    lemma_parts_of_plain("sim"@, "connect"@);
    assert(parts("sim.connect"@) =~= seq!["sim"@, "connect"@]);
    reveal_strlit("snr_db");
    assert(plain_name("snr_db"@));
    reveal_strlit("sim.snr_db");
    assert("sim.snr_db"@ =~= "sim"@ + "."@ + "snr_db"@);
    lemma_parts_of_plain("sim"@, "snr_db"@);
    assert(parts("sim.snr_db"@) =~= seq!["sim"@, "snr_db"@]);
}

proof fn lemma_panel_paths()
    ensures
        parts("panel.interface"@) == seq!["panel"@, "interface"@],
        parts("panel.waterfall.auto"@) == seq!["panel"@, "waterfall"@, "auto"@],
        parts("panel.waterfall.floor_db"@) == seq!["panel"@, "waterfall"@, "floor_db"@],
        parts("panel.waterfall.gain_db"@) == seq!["panel"@, "waterfall"@, "gain_db"@],
        parts("panel.waterfall.speed"@) == seq!["panel"@, "waterfall"@, "speed"@],
        parts("panel.waterfall.palette"@) == seq!["panel"@, "waterfall"@, "palette"@],
{
    reveal_strlit(".");
    reveal_strlit("panel");
    assert(plain_name("panel"@));
    lemma_parts_of_plain(Seq::empty(), "panel"@);
    reveal_strlit("interface");
    assert(plain_name("interface"@));
    reveal_strlit("panel.interface");
    assert("panel.interface"@ =~= "panel"@ + "."@ + "interface"@);
    lemma_parts_of_plain("panel"@, "interface"@);
    assert(parts("panel.interface"@) =~= seq!["panel"@, "interface"@]);
    reveal_strlit("waterfall");
    assert(plain_name("waterfall"@));
    lemma_parts_of_plain("panel"@, "waterfall"@);
    reveal_strlit("auto");
    assert(plain_name("auto"@));
    reveal_strlit("panel.waterfall.auto");
    assert("panel.waterfall.auto"@ =~= "panel"@ + "."@ + "waterfall"@ + "."@ + "auto"@);
    lemma_parts_of_plain("panel"@ + "."@ + "waterfall"@, "auto"@);
    assert(parts("panel.waterfall.auto"@) =~= seq!["panel"@, "waterfall"@, "auto"@]);
    reveal_strlit("floor_db");
    assert(plain_name("floor_db"@));
    reveal_strlit("panel.waterfall.floor_db");
    assert("panel.waterfall.floor_db"@ =~= "panel"@ + "."@ + "waterfall"@ + "."@ + "floor_db"@);
    lemma_parts_of_plain("panel"@ + "."@ + "waterfall"@, "floor_db"@);
    assert(parts("panel.waterfall.floor_db"@) =~= seq!["panel"@, "waterfall"@, "floor_db"@]);
    reveal_strlit("gain_db");
    assert(plain_name("gain_db"@));
    reveal_strlit("panel.waterfall.gain_db");
    assert("panel.waterfall.gain_db"@ =~= "panel"@ + "."@ + "waterfall"@ + "."@ + "gain_db"@);
    lemma_parts_of_plain("panel"@ + "."@ + "waterfall"@, "gain_db"@);
    assert(parts("panel.waterfall.gain_db"@) =~= seq!["panel"@, "waterfall"@, "gain_db"@]);
    reveal_strlit("speed");
    assert(plain_name("speed"@));
    reveal_strlit("panel.waterfall.speed");
    assert("panel.waterfall.speed"@ =~= "panel"@ + "."@ + "waterfall"@ + "."@ + "speed"@);
    lemma_parts_of_plain("panel"@ + "."@ + "waterfall"@, "speed"@);
    assert(parts("panel.waterfall.speed"@) =~= seq!["panel"@, "waterfall"@, "speed"@]);
    reveal_strlit("palette");
    assert(plain_name("palette"@));
    reveal_strlit("panel.waterfall.palette");
    assert("panel.waterfall.palette"@ =~= "panel"@ + "."@ + "waterfall"@ + "."@ + "palette"@);
    lemma_parts_of_plain("panel"@ + "."@ + "waterfall"@, "palette"@);
    assert(parts("panel.waterfall.palette"@) =~= seq!["panel"@, "waterfall"@, "palette"@]);
}

/// Whether two paths part from each other: neither leads through the other.
pub open spec fn part(p: Seq<Seq<char>>, q: Seq<Seq<char>>) -> bool {
    exists|n: int| part_at(p, q, n)
}

/// Whether two paths part at a step.
pub open spec fn part_at(p: Seq<Seq<char>>, q: Seq<Seq<char>>, n: int) -> bool {
    0 <= n < p.len() && n < q.len() && p[n] != q[n] && (forall|i: int| 0 <= i < n ==> #[trigger] p[i] == q[i])
}

/// How the settings are laid out: by themselves, in a section, or in the panel's waterfall.
pub open spec fn laid_out(path: Seq<Seq<char>>) -> bool {
    ||| path.len() == 1 && (path[0] == "callsign"@ || path[0] == "schema_version"@)
    ||| path.len() == 2 && path[0] != "callsign"@ && path[0] != "schema_version"@ && (path[0] == "panel"@ ==> path[1]
        == "interface"@)
    ||| path.len() == 3 && path[0] == "panel"@ && path[1] == "waterfall"@
}

proof fn lemma_template_laid_out(i: int)
    requires
        0 <= i < template_leaves().len(),
    ensures
        laid_out(parts(template_leaves()[i].0)),
        parts(template_leaves()[i].0)[0].len() > 0,
{
    lemma_top_paths();
    lemma_operator_paths();
    lemma_audio_paths();
    lemma_ptt_paths();
    lemma_radio_paths();
    lemma_control_paths();
    lemma_host_paths();
    lemma_log_paths();
    lemma_update_paths();
    lemma_record_paths();
    lemma_sim_paths();
    lemma_panel_paths();
    reveal_strlit("callsign");
    reveal_strlit("schema_version");
    reveal_strlit("operator");
    reveal_strlit("audio");
    reveal_strlit("ptt");
    reveal_strlit("radio");
    reveal_strlit("control");
    reveal_strlit("host");
    reveal_strlit("log");
    reveal_strlit("update");
    reveal_strlit("record");
    reveal_strlit("sim");
    reveal_strlit("panel");
    assert("operator"@[0] != "callsign"@[0]);
    assert("audio"@[0] != "panel"@[0]);
    assert("radio"@[0] != "panel"@[0]);
    let path = parts(template_leaves()[i].0);
    assert(path.len() == 2 ==> path[0].len() != "schema_version"@.len());
    assert(path.len() == 2 ==> path[0] != "callsign"@);
    assert(path.len() == 2 && path[0] == "panel"@ ==> path[1] == "interface"@);
}

proof fn lemma_keying_laid_out(i: int)
    requires
        0 <= i < keying_leaves().len(),
    ensures
        laid_out(parts(keying_leaves()[i].0)),
        parts(keying_leaves()[i].0)[0].len() > 0,
{
    lemma_ptt_paths();
    reveal_strlit("callsign");
    reveal_strlit("schema_version");
    reveal_strlit("ptt");
    reveal_strlit("panel");
    let path = parts(keying_leaves()[i].0);
    assert(path.len() == 2 && path[0] == "ptt"@);
    assert("ptt"@.len() == 3);
    assert("callsign"@.len() == 8);
    assert("schema_version"@.len() == 14);
    assert("panel"@.len() == 5);
}

proof fn lemma_joined(s: Seq<(Seq<char>, Tree)>, more: Seq<(Seq<char>, Tree)>, n: nat)
    requires
        n <= more.len(),
    ensures
        forall|i: int|
            0 <= i < joined_leaves(s, more, n).len() ==> s.contains(#[trigger] joined_leaves(s, more, n)[i])
                || more.contains(joined_leaves(s, more, n)[i]),
    decreases n,
{
    if n == 0 {
        assert forall|i: int| 0 <= i < s.len() implies s.contains(#[trigger] s[i]) by {}
    } else {
        lemma_joined(s, more, (n - 1) as nat);
        let before = joined_leaves(s, more, (n - 1) as nat);
        let now = joined_leaves(s, more, n);
        assert forall|i: int| 0 <= i < now.len() implies s.contains(#[trigger] now[i]) || more.contains(now[i]) by {
            if i < before.len() {
                assert(now[i] == before[i]);
            } else {
                assert(now[i] == more[n - 1]);
            }
        }
    }
}

pub(crate) proof fn lemma_shape_laid_out(i: int)
    requires
        0 <= i < shape_leaves().len(),
    ensures
        laid_out(parts(shape_leaves()[i].0)),
        parts(shape_leaves()[i].0)[0].len() > 0,
{
    lemma_joined(template_leaves(), keying_leaves(), keying_leaves().len());
    let leaf = shape_leaves()[i];
    if template_leaves().contains(leaf) {
        let k = choose|k: int| 0 <= k < template_leaves().len() && template_leaves()[k] == leaf;
        lemma_template_laid_out(k);
    } else {
        let k = choose|k: int| 0 <= k < keying_leaves().len() && keying_leaves()[k] == leaf;
        lemma_keying_laid_out(k);
    }
}

proof fn lemma_first_difference(p: Seq<Seq<char>>, q: Seq<Seq<char>>, n: int)
    requires
        0 <= n < p.len(),
        n < q.len(),
        p[n] != q[n],
    ensures
        part(p, q),
    decreases n,
{
    if forall|i: int| 0 <= i < n ==> #[trigger] p[i] == q[i] {
        assert(part_at(p, q, n));
    } else {
        let k = choose|k: int| 0 <= k < n && #[trigger] p[k] != q[k];
        lemma_first_difference(p, q, k);
    }
}

/// The names of two settings are one, or part: no setting is inside another.
pub proof fn no_setting_is_inside_another(i: int, j: int)
    requires
        0 <= i < shape_leaves().len(),
        0 <= j < shape_leaves().len(),
        shape_leaves()[i].0 != shape_leaves()[j].0,
    ensures
        part(parts(shape_leaves()[i].0), parts(shape_leaves()[j].0)),
{
    let a = shape_leaves()[i].0;
    let b = shape_leaves()[j].0;
    lemma_shape_laid_out(i);
    lemma_shape_laid_out(j);
    lemma_parts(a);
    lemma_parts(b);
    let p = parts(a);
    let q = parts(b);
    reveal_strlit("panel");
    reveal_strlit("callsign");
    reveal_strlit("schema_version");
    reveal_strlit("interface");
    reveal_strlit("waterfall");
    assert("interface"@[0] != "waterfall"@[0]);
    if p.len() == q.len() {
        if forall|n: int| 0 <= n < p.len() ==> p[n] == q[n] {
            assert(p =~= q);
            assert(a == b);
        }
        let n = choose|n: int| 0 <= n < p.len() && p[n] != q[n];
        lemma_first_difference(p, q, n);
    } else if p.len() == 1 || q.len() == 1 || p[0] != q[0] {
        lemma_first_difference(p, q, 0);
    } else {
        lemma_first_difference(p, q, 1);
    }
}

/// Whether a path can be followed: what is on the way to its end is a table, or nothing.
pub open spec fn open_path(t: Tree, path: Seq<Seq<char>>) -> bool {
    t is Table && forall|k: int| 0 < k < path.len() ==> leads_on(t, #[trigger] path.subrange(0, k))
}

proof fn lemma_on_the_way(t: Tree, path: Seq<Seq<char>>, value: Tree, k: int)
    requires
        0 <= k < path.len(),
    ensures
        get_path(put_path(t, path, value), path.subrange(0, k)) is Some,
        get_path(put_path(t, path, value), path.subrange(0, k))->0 is Table,
    decreases k,
{
    let entries = table_entries(t);
    let way = path.subrange(0, k);
    if k == 0 {
        assert(way =~= Seq::empty());
    } else {
        let inner = match lookup(entries, path[0]) {
            Some(x) => x,
            None => Tree::Table(Seq::empty()),
        };
        let rest = path.drop_first();
        put_is_found(entries, path[0], put_path(inner, rest, value), path[0]);
        assert(way[0] == path[0]);
        assert(way.drop_first() =~= rest.subrange(0, k - 1));
        lemma_on_the_way(inner, rest, value, k - 1);
    }
}

proof fn lemma_set_here(t: Tree, path: Seq<Seq<char>>, value: Tree)
    requires
        path.len() > 0,
    ensures
        open_path(put_path(t, path, value), path),
        get_path(put_path(t, path, value), path) == Some(value),
{
    what_is_set_is_found(t, path, value);
    lemma_on_the_way(t, path, value, 0);
    assert forall|k: int| 0 < k < path.len() implies leads_on(
        put_path(t, path, value),
        #[trigger] path.subrange(0, k),
    ) by {
        lemma_on_the_way(t, path, value, k);
    }
}

proof fn lemma_set_elsewhere(t: Tree, path: Seq<Seq<char>>, value: Tree, mine: Seq<Seq<char>>)
    requires
        open_path(t, mine),
        part(mine, path),
    ensures
        open_path(put_path(t, path, value), mine),
        get_path(put_path(t, path, value), mine) == get_path(t, mine),
{
    let n = choose|n: int| part_at(mine, path, n);
    let after = put_path(t, path, value);
    lemma_on_the_way(t, path, value, 0);
    setting_a_key_changes_no_other(t, path, value, mine, n);
    assert forall|k: int| 0 < k < mine.len() implies leads_on(after, #[trigger] mine.subrange(0, k)) by {
        let way = mine.subrange(0, k);
        if k <= n {
            assert(way =~= path.subrange(0, k));
            lemma_on_the_way(t, path, value, k);
        } else {
            assert forall|m: int| 0 < m <= n implies leads_on(t, #[trigger] way.subrange(0, m)) by {
                assert(way.subrange(0, m) =~= mine.subrange(0, m));
            }
            setting_a_key_changes_no_other(t, path, value, way, n);
            assert(leads_on(t, mine.subrange(0, k)));
        }
    }
}

pub(crate) proof fn lemma_descriptions(defaults: Seq<(Seq<char>, Tree)>, live: Seq<String>, n: nat)
    requires
        n <= shape_leaves().len(),
    ensures
        forall|i: int|
            0 <= i < descriptions(defaults, live, n).len() ==> exists|k: int|
                0 <= k < n && #[trigger] descriptions(defaults, live, n)[i] == described(
                    #[trigger] shape_leaves()[k],
                    defaults,
                    live,
                ),
    decreases n,
{
    if n > 0 {
        lemma_descriptions(defaults, live, (n - 1) as nat);
        let before = descriptions(defaults, live, (n - 1) as nat);
        let now = descriptions(defaults, live, n);
        assert forall|i: int| 0 <= i < now.len() implies exists|k: int|
            0 <= k < n && #[trigger] now[i] == described(#[trigger] shape_leaves()[k], defaults, live) by {
            if i < before.len() {
                assert(now[i] == before[i]);
                let k = choose|k: int|
                    0 <= k < n - 1 && before[i] == described(#[trigger] shape_leaves()[k], defaults, live);
                assert(now[i] == described(shape_leaves()[k], defaults, live));
            } else {
                assert(now[i] == described(shape_leaves()[n - 1], defaults, live));
            }
        }
    }
}

/// Whether each of some settings is another one, or is the one of a key as this describes it.
pub open spec fn apart(known: Seq<SettingModel>, mine: SettingModel) -> bool {
    forall|i: int|
        0 <= i < known.len() ==> if (#[trigger] known[i]).key == mine.key {
            known[i].default == mine.default && known[i].rule == mine.rule
        } else {
            part(parts(mine.key), parts(known[i].key))
        }
}

proof fn lemma_first_setting(known: Seq<SettingModel>, key: Seq<char>, from: nat)
    ensures
        first_setting(known, key, from) >= from,
        first_setting(known, key, from) < known.len() ==> known[first_setting(known, key, from) as int].key == key,
        forall|i: int| from <= i < known.len() && (#[trigger] known[i]).key == key ==> first_setting(known, key, from) <= i,
    decreases known.len() - from,
{
    if from < known.len() && known[from as int].key != key {
        lemma_first_setting(known, key, from + 1);
    }
}

proof fn lemma_defaults(running: Tree, known: Seq<SettingModel>, mine: SettingModel, n: nat)
    requires
        apart(known, mine),
        n <= known.len(),
        open_path(running, parts(mine.key)),
        !begins(mine.key, "ptt."@),
    ensures
        open_path(at_defaults(running, known, n), parts(mine.key)),
        !mine.rule.scope.travels() ==> get_path(at_defaults(running, known, n), parts(mine.key)) == get_path(
            running,
            parts(mine.key),
        ),
        mine.rule.scope.travels() && (exists|i: int| 0 <= i < n && (#[trigger] known[i]).key == mine.key) ==> get_path(
            at_defaults(running, known, n),
            parts(mine.key),
        ) == Some(mine.default),
    decreases n,
{
    lemma_parts_len(mine.key);
    if n > 0 {
        let m = (n - 1) as nat;
        lemma_defaults(running, known, mine, m);
        let before = at_defaults(running, known, m);
        let one = known[n - 1];
        if one.rule.scope.travels() && !begins(one.key, "ptt."@) {
            if one.key == mine.key {
                lemma_set_here(before, parts(one.key), one.default);
            } else {
                lemma_set_elsewhere(before, parts(one.key), one.default, parts(mine.key));
            }
        }
        if exists|i: int| 0 <= i < n && (#[trigger] known[i]).key == mine.key {
            let i = choose|i: int| 0 <= i < n && (#[trigger] known[i]).key == mine.key;
            if i < n - 1 {
                assert(0 <= i < m && known[i].key == mine.key);
            }
        }
    }
}

/// Where a setting that travels stands after the first `n` of a profile's values: at the last
/// of its own that keeps its rule, or else where it started.
pub open spec fn settled(all: Seq<(Seq<char>, Tree)>, n: nat, key: Seq<char>, kind: Seq<char>, start: Tree) -> Tree
    decreases n,
{
    if n == 0 {
        start
    } else if all[n - 1].0 == key && objection(key, all[n - 1].1, kind) is None {
        all[n - 1].1
    } else {
        settled(all, (n - 1) as nat, key, kind, start)
    }
}

proof fn lemma_sorted(
    known: Seq<SettingModel>,
    running: Tree,
    all: Seq<(Seq<char>, Tree)>,
    n: nat,
    mine: SettingModel,
)
    requires
        apart(known, mine),
        n <= all.len(),
        open_path(running, parts(mine.key)),
        !begins(mine.key, "ptt."@),
        first_setting(known, mine.key, 0) < known.len(),
    ensures
        open_path(sorted_many(known, running, all, n).document, parts(mine.key)),
        get_path(sorted_many(known, running, all, n).document, parts(mine.key)) == if mine.rule.scope.travels() {
            Some(
                settled(
                    all,
                    n,
                    mine.key,
                    known[first_setting(known, mine.key, 0) as int].type_,
                    mine.default,
                ),
            )
        } else {
            get_path(running, parts(mine.key))
        },
    decreases n,
{
    let home = first_setting(known, mine.key, 0);
    lemma_first_setting(known, mine.key, 0);
    lemma_parts_len(mine.key);
    if n == 0 {
        lemma_defaults(running, known, mine, known.len());
        assert(known[home as int].key == mine.key);
    } else {
        lemma_sorted(known, running, all, (n - 1) as nat, mine);
        let before = sorted_many(known, running, all, (n - 1) as nat);
        let (key, value) = all[n - 1];
        let at = first_setting(known, key, 0);
        lemma_first_setting(known, key, 0);
        if at < known.len() && known[at as int].rule.scope.travels() && objection(key, value, known[at as int].type_)
            is None && !begins(key, "ptt."@) {
            assert(known[at as int].key == key);
            if key == mine.key {
                lemma_set_here(before.document, parts(key), value);
            } else {
                lemma_set_elsewhere(before.document, parts(key), value, parts(mine.key));
            }
        }
    }
}

proof fn lemma_apart(plain: Tree, i: int)
    requires
        0 <= i < known_settings(plain).len(),
    ensures
        apart(known_settings(plain), known_settings(plain)[i]),
        laid_out(parts(known_settings(plain)[i].key)),
        parts(known_settings(plain)[i].key)[0].len() > 0,
{
    let defaults = with_keying(leaves_of(""@, plain));
    let known = known_settings(plain);
    let mine = known[i];
    lemma_descriptions(defaults, Seq::empty(), shape_leaves().len());
    let k = choose|k: int|
        0 <= k < shape_leaves().len() && mine == described(#[trigger] shape_leaves()[k], defaults, Seq::empty());
    lemma_shape_laid_out(k);
    assert forall|j: int| 0 <= j < known.len() implies if (#[trigger] known[j]).key == mine.key {
        known[j].default == mine.default && known[j].rule == mine.rule
    } else {
        part(parts(mine.key), parts(known[j].key))
    } by {
        let m = choose|m: int|
            0 <= m < shape_leaves().len() && known[j] == described(#[trigger] shape_leaves()[m], defaults, Seq::empty());
        if known[j].key != mine.key {
            no_setting_is_inside_another(k, m);
        }
    }
}

proof fn lemma_keying_section(key: Seq<char>)
    requires
        laid_out(parts(key)),
        parts(key)[0].len() > 0,
        !begins(key, "ptt."@),
    ensures
        part(parts(key), parts("ptt"@)),
{
    reveal_strlit("ptt");
    reveal_strlit("ptt.");
    reveal_strlit(".");
    assert(plain_name("ptt"@));
    lemma_parts_of_plain(Seq::empty(), "ptt"@);
    lemma_parts(key);
    let p = parts(key);
    reveal_strlit("callsign");
    reveal_strlit("schema_version");
    reveal_strlit("panel");
    if p[0] == "ptt"@ {
        assert(p.len() == 2);
        assert(p =~= seq![p[0]].push(p[1]));
        lemma_path_push(Seq::empty(), seq![p[0]], p[1]);
        assert(seq![p[0]] =~= Seq::<Seq<char>>::empty().push(p[0]));
        lemma_path_push(Seq::empty(), Seq::empty(), p[0]);
        assert(dotted_path(Seq::empty(), Seq::<Seq<char>>::empty()) == Seq::<char>::empty());
        assert(dotted(Seq::empty(), p[0]) == "ptt"@);
        assert(key == "ptt"@ + "."@ + p[1]);
        assert(key.subrange(0, 4) =~= "ptt."@);
        assert(false);
    }
    lemma_first_difference(p, parts("ptt"@), 0);
}

/// Where every setting comes from when a profile is loaded, the keying section apart, which is
/// rebuilt whole: a setting that travels is the profile's, where the profile names it with a
/// value that keeps its rule, and its default where it does not; a setting of this computer,
/// and a secret, is as it was.
pub proof fn every_setting_comes_from_where_it_should(settings: Tree, running: Tree, plain: Tree, i: int)
    requires
        0 <= i < known_settings(plain).len(),
        !begins(known_settings(plain)[i].key, "ptt."@),
        open_path(running, parts(known_settings(plain)[i].key)),
    ensures
        ({
            let known = known_settings(plain);
            let mine = known[i];
            let all = leaves_of(""@, settings);
            let home = first_setting(known, mine.key, 0);
            get_path(sorted_settings(settings, running, plain).document, parts(mine.key)) == if mine.rule.scope.travels() {
                Some(settled(all, all.len(), mine.key, known[home as int].type_, mine.default))
            } else {
                get_path(running, parts(mine.key))
            }
        }),
{
    let known = known_settings(plain);
    let mine = known[i];
    let all = leaves_of(""@, settings);
    lemma_apart(plain, i);
    lemma_first_setting(known, mine.key, 0);
    lemma_sorted(known, running, all, all.len(), mine);
    lemma_keying_section(mine.key);
    let before = sorted_many(known, running, all, all.len());
    if lookup(before.keying, "kind"@) is Some {
        lemma_set_elsewhere(before.document, parts("ptt"@), Tree::Table(before.keying), parts(mine.key));
    } else {
        lemma_set_elsewhere(
            before.document,
            parts("ptt"@),
            Tree::Table(seq![("kind"@, Tree::Text("none"@))]),
            parts(mine.key),
        );
    }
}

/// Loading a profile keeps this computer's own settings and its secrets: whatever the file
/// says, they are as they were.
pub proof fn loading_keeps_this_computers_settings(settings: Tree, running: Tree, plain: Tree, i: int)
    requires
        0 <= i < known_settings(plain).len(),
        !known_settings(plain)[i].rule.scope.travels(),
        !begins(known_settings(plain)[i].key, "ptt."@),
        open_path(running, parts(known_settings(plain)[i].key)),
    ensures
        get_path(sorted_settings(settings, running, plain).document, parts(known_settings(plain)[i].key)) == get_path(
            running,
            parts(known_settings(plain)[i].key),
        ),
{
    every_setting_comes_from_where_it_should(settings, running, plain, i);
}

/// What is loaded of a setting that travels does not depend on what ran before: switching
/// profiles leaks nothing from one to the next.
pub proof fn a_profile_means_the_same_station_anywhere(settings: Tree, one: Tree, other: Tree, plain: Tree, i: int)
    requires
        0 <= i < known_settings(plain).len(),
        known_settings(plain)[i].rule.scope.travels(),
        !begins(known_settings(plain)[i].key, "ptt."@),
        open_path(one, parts(known_settings(plain)[i].key)),
        open_path(other, parts(known_settings(plain)[i].key)),
    ensures
        get_path(sorted_settings(settings, one, plain).document, parts(known_settings(plain)[i].key)) == get_path(
            sorted_settings(settings, other, plain).document,
            parts(known_settings(plain)[i].key),
        ),
{
    every_setting_comes_from_where_it_should(settings, one, plain, i);
    every_setting_comes_from_where_it_should(settings, other, plain, i);
}

pub(crate) proof fn lemma_leaves_in(prefix: Seq<char>, entries: Seq<(Seq<char>, Tree)>, leaf: (Seq<char>, Tree))
    ensures
        leaves_in(prefix, entries).contains(leaf) ==> exists|i: int|
            0 <= i < entries.len() && leaves_of(
                dotted(prefix, (#[trigger] entries[i]).0),
                entries[i].1,
            ).contains(leaf),
        (exists|i: int|
            0 <= i < entries.len() && leaves_of(
                dotted(prefix, (#[trigger] entries[i]).0),
                entries[i].1,
            ).contains(leaf)) ==> leaves_in(prefix, entries).contains(leaf),
    decreases entries.len(),
{
    if entries.len() > 0 {
        let rest = entries.drop_last();
        lemma_leaves_in(prefix, rest, leaf);
        let front = leaves_in(prefix, rest);
        let back = leaves_of(dotted(prefix, entries.last().0), entries.last().1);
        let whole = leaves_in(prefix, entries);
        assert(whole == front + back);
        if whole.contains(leaf) {
            let k = choose|k: int| 0 <= k < whole.len() && whole[k] == leaf;
            if k < front.len() {
                assert(front[k] == leaf);
                let i = choose|i: int|
                    0 <= i < rest.len() && leaves_of(dotted(prefix, (#[trigger] rest[i]).0), rest[i].1).contains(leaf);
                assert(entries[i] == rest[i]);
            } else {
                assert(back[k - front.len()] == leaf);
                assert(entries[entries.len() - 1] == entries.last());
            }
        }
        if exists|i: int|
            0 <= i < entries.len() && leaves_of(dotted(prefix, (#[trigger] entries[i]).0), entries[i].1).contains(leaf) {
            let i = choose|i: int|
                0 <= i < entries.len() && leaves_of(dotted(prefix, (#[trigger] entries[i]).0), entries[i].1).contains(
                    leaf,
                );
            if i < rest.len() {
                assert(rest[i] == entries[i]);
                let k = choose|k: int| 0 <= k < front.len() && front[k] == leaf;
                assert(whole[k] == leaf);
            } else {
                let k = choose|k: int| 0 <= k < back.len() && back[k] == leaf;
                assert(whole[front.len() + k] == leaf);
            }
        }
    }
}

pub(crate) proof fn lemma_put_members(entries: Seq<(Seq<char>, Tree)>, key: Seq<char>, value: Tree, i: int)
    requires
        0 <= i < put(entries, key, value).len(),
    ensures
        put(entries, key, value)[i] == (key, value) || entries.contains(put(entries, key, value)[i]),
{
    if lookup(entries, key) is Some {
        lemma_replaced_members(entries, key, value, i);
    } else {
        lemma_placed_members(entries, key, value, i);
    }
}

proof fn lemma_replaced_members(entries: Seq<(Seq<char>, Tree)>, key: Seq<char>, value: Tree, i: int)
    requires
        0 <= i < replaced(entries, key, value).len(),
    ensures
        replaced(entries, key, value)[i] == (key, value) || entries.contains(replaced(entries, key, value)[i]),
    decreases entries.len(),
{
    let r = replaced(entries, key, value);
    if entries.len() > 0 {
        let rest = entries.drop_first();
        if i == 0 {
            assert(r[0] == (key, value) || r[0] == entries[0]);
        } else if entries[0].0 == key {
            assert(r[i] == rest[i - 1]);
            assert(entries[i] == r[i]);
        } else {
            assert(r[i] == replaced(rest, key, value)[i - 1]);
            lemma_replaced_members(rest, key, value, i - 1);
            if rest.contains(r[i]) {
                let k = choose|k: int| 0 <= k < rest.len() && rest[k] == r[i];
                assert(entries[k + 1] == r[i]);
            }
        }
    }
}

proof fn lemma_placed_members(entries: Seq<(Seq<char>, Tree)>, key: Seq<char>, value: Tree, i: int)
    requires
        0 <= i < placed(entries, key, value).len(),
    ensures
        placed(entries, key, value)[i] == (key, value) || entries.contains(placed(entries, key, value)[i]),
    decreases entries.len(),
{
    let r = placed(entries, key, value);
    if entries.len() == 0 || precedes(key, entries[0].0) {
        if i > 0 {
            assert(r[i] == entries[i - 1]);
        }
    } else {
        let rest = entries.drop_first();
        if i == 0 {
            assert(r[0] == entries[0]);
        } else {
            assert(r[i] == placed(rest, key, value)[i - 1]);
            lemma_placed_members(rest, key, value, i - 1);
            if rest.contains(r[i]) {
                let k = choose|k: int| 0 <= k < rest.len() && rest[k] == r[i];
                assert(entries[k + 1] == r[i]);
            }
        }
    }
}

pub(crate) proof fn lemma_lookup_member(entries: Seq<(Seq<char>, Tree)>, key: Seq<char>)
    ensures
        lookup(entries, key) matches Some(x) ==> entries.contains((key, x)),
    decreases entries.len(),
{
    if entries.len() > 0 && entries[0].0 != key {
        let rest = entries.drop_first();
        lemma_lookup_member(rest, key);
        if lookup(rest, key) is Some {
            let k = choose|k: int| 0 <= k < rest.len() && rest[k] == (key, lookup(rest, key)->0);
            assert(entries[k + 1] == rest[k]);
        }
    } else if entries.len() > 0 {
        assert(entries[0] == (key, entries[0].1));
    }
}

pub(crate) proof fn lemma_put_leaves(prefix: Seq<char>, t: Tree, path: Seq<Seq<char>>, value: Tree, leaf: (Seq<char>, Tree))
    requires
        path.len() > 0,
        !(value is Table),
        leaves_of(prefix, put_path(t, path, value)).contains(leaf),
    ensures
        leaf == (dotted_path(prefix, path), value) || leaves_of(prefix, t).contains(leaf),
    decreases path.len(),
{
    let entries = table_entries(t);
    let name = path[0];
    let rest = path.drop_first();
    let inner = match lookup(entries, name) {
        Some(x) => x,
        None => Tree::Table(Seq::empty()),
    };
    let sub = if path.len() == 1 { value } else { put_path(inner, rest, value) };
    let now = put(entries, name, sub);
    assert(put_path(t, path, value) == Tree::Table(now));
    lemma_leaves_in(prefix, now, leaf);
    let i = choose|i: int|
        0 <= i < now.len() && leaves_of(dotted(prefix, (#[trigger] now[i]).0), now[i].1).contains(leaf);
    lemma_put_members(entries, name, sub, i);
    if now[i] == (name, sub) {
        let below = dotted(prefix, name);
        if path.len() == 1 {
            assert(leaves_of(below, value) =~= seq![(below, value)]);
            assert(rest =~= Seq::empty());
            assert(dotted_path(below, rest) == below);
        } else {
            lemma_put_leaves(below, inner, rest, value, leaf);
            if leaves_of(below, inner).contains(leaf) {
                lemma_lookup_member(entries, name);
                if lookup(entries, name) is None {
                    assert(leaves_in(below, Seq::<(Seq<char>, Tree)>::empty()) =~= Seq::empty());
                    assert(false);
                }
                let k = choose|k: int| 0 <= k < entries.len() && entries[k] == (name, inner);
                lemma_leaves_in(prefix, entries, leaf);
                assert(leaves_of(dotted(prefix, entries[k].0), entries[k].1).contains(leaf));
            }
        }
    } else {
        let k = choose|k: int| 0 <= k < entries.len() && entries[k] == now[i];
        lemma_leaves_in(prefix, entries, leaf);
        assert(leaves_of(dotted(prefix, entries[k].0), entries[k].1).contains(leaf));
    }
}

pub(crate) proof fn lemma_leaf_at(prefix: Seq<char>, t: Tree, path: Seq<Seq<char>>)
    requires
        get_path(t, path) is Some,
        !(get_path(t, path)->0 is Table),
    ensures
        leaves_of(prefix, t).contains((dotted_path(prefix, path), get_path(t, path)->0)),
    decreases path.len(),
{
    if path.len() == 0 {
        assert(leaves_of(prefix, t)[0] == (prefix, t));
    } else {
        let entries = table_entries(t);
        lemma_lookup_member(entries, path[0]);
        let x = lookup(entries, path[0])->0;
        let k = choose|k: int| 0 <= k < entries.len() && entries[k] == (path[0], x);
        lemma_leaf_at(dotted(prefix, path[0]), x, path.drop_first());
        let leaf = (dotted_path(prefix, path), get_path(t, path)->0);
        lemma_leaves_in(prefix, entries, leaf);
        assert(leaves_of(dotted(prefix, entries[k].0), entries[k].1).contains(leaf));
    }
}

pub(crate) proof fn lemma_leaf_is_no_table(prefix: Seq<char>, t: Tree, leaf: (Seq<char>, Tree))
    requires
        leaves_of(prefix, t).contains(leaf),
    ensures
        !(leaf.1 is Table),
    decreases t,
{
    match t {
        Tree::Table(entries) => {
            lemma_leaves_in(prefix, entries, leaf);
            let i = choose|i: int|
                0 <= i < entries.len() && leaves_of(dotted(prefix, (#[trigger] entries[i]).0), entries[i].1).contains(leaf);
            assert(decreases_to!(t => t->Table_0));
            assert(decreases_to!(entries => entries[i]));
            assert(decreases_to!(entries[i] => entries[i].1));
            lemma_leaf_is_no_table(dotted(prefix, entries[i].0), entries[i].1, leaf);
        },
        _ => {},
    }
}

/// Whether every leaf has a name to begin with.
pub open spec fn all_named(all: Seq<(Seq<char>, Tree)>) -> bool {
    forall|i: int| 0 <= i < all.len() ==> parts((#[trigger] all[i]).0)[0].len() > 0
}

proof fn lemma_projected(all: Seq<(Seq<char>, Tree)>, n: nat, leaf: (Seq<char>, Tree))
    requires
        n <= all.len(),
        all_named(all),
        forall|i: int| 0 <= i < all.len() ==> !((#[trigger] all[i]).1 is Table),
        leaves_of(""@, projected(all, n)).contains(leaf),
    ensures
        carried(leaf.0),
        all.contains(leaf),
    decreases n,
{
    reveal_strlit("");
    assert(""@ =~= Seq::<char>::empty());
    if n == 0 {
        assert(leaves_in(""@, Seq::<(Seq<char>, Tree)>::empty()) =~= Seq::empty());
    } else {
        let before = projected(all, (n - 1) as nat);
        let one = all[n - 1];
        if carried(one.0) {
            lemma_parts(one.0);
            lemma_put_leaves(""@, before, parts(one.0), one.1, leaf);
            if leaf != (one.0, one.1) {
                lemma_projected(all, (n - 1) as nat, leaf);
            } else {
                assert(all[n - 1] == leaf);
            }
        } else {
            lemma_projected(all, (n - 1) as nat, leaf);
        }
    }
}

/// A profile holds the portable settings and nothing else: every leaf of it is a leaf of the
/// configuration, and none is this computer's, a secret, or the file's version.
pub proof fn a_profile_carries_nothing_of_this_computer(config: Tree, i: int)
    requires
        all_named(leaves_of(""@, config)),
        0 <= i < leaves_of(""@, portable_part(config)).len(),
    ensures
        carried(leaves_of(""@, portable_part(config))[i].0),
        leaves_of(""@, config).contains(leaves_of(""@, portable_part(config))[i]),
{
    let all = leaves_of(""@, config);
    let leaf = leaves_of(""@, portable_part(config))[i];
    assert forall|k: int| 0 <= k < all.len() implies !((#[trigger] all[k]).1 is Table) by {
        assert(all.contains(all[k]));
        lemma_leaf_is_no_table(""@, config, all[k]);
    }
    assert(leaves_of(""@, portable_part(config)).contains(leaf));
    lemma_projected(all, all.len(), leaf);
}

/// Whether every leaf is of a setting there is.
pub open spec fn all_settings(all: Seq<(Seq<char>, Tree)>) -> bool {
    forall|i: int| 0 <= i < all.len() ==> is_setting((#[trigger] all[i]).0)
}

/// Whether a key is a setting's.
pub open spec fn is_setting(key: Seq<char>) -> bool {
    exists|k: int| 0 <= k < shape_leaves().len() && (#[trigger] shape_leaves()[k]).0 == key
}

proof fn lemma_settings_part(a: Seq<char>, b: Seq<char>)
    requires
        is_setting(a),
        is_setting(b),
        a != b,
    ensures
        part(parts(a), parts(b)),
{
    let i = choose|k: int| 0 <= k < shape_leaves().len() && (#[trigger] shape_leaves()[k]).0 == a;
    let j = choose|k: int| 0 <= k < shape_leaves().len() && (#[trigger] shape_leaves()[k]).0 == b;
    no_setting_is_inside_another(i, j);
}

pub(crate) proof fn lemma_projected_at(all: Seq<(Seq<char>, Tree)>, n: nat, key: Seq<char>, value: Tree)
    requires
        n <= all.len(),
        all_settings(all),
        is_setting(key),
        carried(key),
        forall|i: int| 0 <= i < all.len() && (#[trigger] all[i]).0 == key ==> all[i].1 == value,
    ensures
        open_path(projected(all, n), parts(key)) || (forall|i: int| 0 <= i < n ==> (#[trigger] all[i]).0 != key),
        (exists|i: int| 0 <= i < n && (#[trigger] all[i]).0 == key) ==> get_path(projected(all, n), parts(key)) == Some(
            value,
        ),
    decreases n,
{
    lemma_parts_len(key);
    if n > 0 {
        lemma_projected_at(all, (n - 1) as nat, key, value);
        let before = projected(all, (n - 1) as nat);
        let one = all[n - 1];
        assert(is_setting(one.0));
        if carried(one.0) {
            if one.0 == key {
                lemma_set_here(before, parts(key), one.1);
            } else if exists|i: int| 0 <= i < n - 1 && (#[trigger] all[i]).0 == key {
                lemma_settings_part(key, one.0);
                lemma_set_elsewhere(before, parts(one.0), one.1, parts(key));
            }
        }
    }
}

proof fn lemma_settled(all: Seq<(Seq<char>, Tree)>, n: nat, key: Seq<char>, kind: Seq<char>, start: Tree, value: Tree)
    requires
        n <= all.len(),
        forall|i: int| 0 <= i < n && (#[trigger] all[i]).0 == key ==> all[i].1 == value,
        objection(key, value, kind) is None,
    ensures
        (exists|i: int| 0 <= i < n && (#[trigger] all[i]).0 == key) ==> settled(all, n, key, kind, start) == value,
    decreases n,
{
    if n > 0 && all[n - 1].0 != key {
        lemma_settled(all, (n - 1) as nat, key, kind, start, value);
    }
}

/// Whether a configuration holds a setting that travels, as its leaf `m` and nowhere else, with
/// a value that keeps the setting's rule.
pub open spec fn holds_at(config: Tree, plain: Tree, i: int, m: int) -> bool {
    let known = known_settings(plain);
    let all = leaves_of(""@, config);
    &&& 0 <= i < known.len()
    &&& known[i].rule.scope.travels()
    &&& all_settings(all)
    &&& 0 <= m < all.len()
    &&& all[m].0 == known[i].key
    &&& forall|k: int| 0 <= k < all.len() && (#[trigger] all[k]).0 == known[i].key ==> all[k] == all[m]
    &&& objection(known[i].key, all[m].1, known[first_setting(known, known[i].key, 0) as int].type_) is None
}

proof fn lemma_saved(config: Tree, plain: Tree, i: int, m: int)
    requires
        holds_at(config, plain, i, m),
    ensures
        ({
            let saved = leaves_of(""@, portable_part(config));
            &&& saved.contains(leaves_of(""@, config)[m])
            &&& forall|k: int|
                0 <= k < saved.len() && (#[trigger] saved[k]).0 == known_settings(plain)[i].key ==> saved[k]
                    == leaves_of(""@, config)[m]
        }),
{
    let key = known_settings(plain)[i].key;
    let all = leaves_of(""@, config);
    let value = all[m].1;
    let whole = portable_part(config);
    let saved = leaves_of(""@, whole);
    reveal_strlit("");
    assert(""@ =~= Seq::<char>::empty());
    assert(is_setting(key));
    lemma_known_scope(plain, i);
    assert(carried(key));
    assert forall|k: int| 0 <= k < all.len() implies parts((#[trigger] all[k]).0)[0].len() > 0 by {
        let j = choose|j: int| 0 <= j < shape_leaves().len() && (#[trigger] shape_leaves()[j]).0 == all[k].0;
        lemma_shape_laid_out(j);
    }
    assert(all.contains(all[m]));
    lemma_leaf_is_no_table(""@, config, all[m]);
    lemma_projected_at(all, all.len(), key, value);
    lemma_leaf_at(""@, whole, parts(key));
    lemma_parts(key);
    assert(parts(all[m].0)[0].len() > 0);
    assert(saved.contains((key, value)));
    assert forall|k: int| 0 <= k < saved.len() && (#[trigger] saved[k]).0 == key implies saved[k] == all[m] by {
        a_profile_carries_nothing_of_this_computer(config, k);
        let j = choose|j: int| 0 <= j < all.len() && all[j] == saved[k];
        assert(all[j].0 == key);
    }
}

/// Saving and loading gives back the same station: a setting of a configuration that travels
/// and keeps its rule is the same after a profile of it was captured and loaded, wherever it
/// is loaded.
pub proof fn saving_and_loading_gives_back_the_setting(config: Tree, running: Tree, plain: Tree, i: int, m: int)
    requires
        holds_at(config, plain, i, m),
        !begins(known_settings(plain)[i].key, "ptt."@),
        open_path(running, parts(known_settings(plain)[i].key)),
    ensures
        get_path(
            sorted_settings(portable_part(config), running, plain).document,
            parts(known_settings(plain)[i].key),
        ) == Some(leaves_of(""@, config)[m].1),
{
    let known = known_settings(plain);
    let key = known[i].key;
    let value = leaves_of(""@, config)[m].1;
    let whole = portable_part(config);
    let saved = leaves_of(""@, whole);
    let kind = known[first_setting(known, key, 0) as int].type_;
    lemma_saved(config, plain, i, m);
    let at = choose|k: int| 0 <= k < saved.len() && saved[k] == leaves_of(""@, config)[m];
    assert(saved[at].0 == key);
    lemma_settled(saved, saved.len(), key, kind, known[i].default, value);
    every_setting_comes_from_where_it_should(whole, running, plain, i);
}

pub(crate) proof fn lemma_known_scope(plain: Tree, i: int)
    requires
        0 <= i < known_settings(plain).len(),
    ensures
        carried(known_settings(plain)[i].key) == known_settings(plain)[i].rule.scope.travels(),
        known_settings(plain)[i].key != "schema_version"@,
{
    lemma_known_keys(with_keying(leaves_of(""@, plain)), Seq::empty(), shape_leaves().len(), i);
}

proof fn lemma_known_keys(defaults: Seq<(Seq<char>, Tree)>, live: Seq<String>, n: nat, i: int)
    requires
        n <= shape_leaves().len(),
        0 <= i < descriptions(defaults, live, n).len(),
    ensures
        descriptions(defaults, live, n)[i].key != "schema_version"@,
        descriptions(defaults, live, n)[i].rule == rule_of(descriptions(defaults, live, n)[i].key),
    decreases n,
{
    if n > 0 {
        let before = descriptions(defaults, live, (n - 1) as nat);
        if i < before.len() {
            lemma_known_keys(defaults, live, (n - 1) as nat, i);
            assert(descriptions(defaults, live, n)[i] == before[i]);
        }
    }
}

/// A file's stem is never empty and has no character in it that a file system does not take.
pub proof fn ids_are_names_a_file_system_takes(name: Seq<char>)
    ensures
        id_of(name).len() > 0,
        forall|i: int| 0 <= i < id_of(name).len() ==> !unfit(#[trigger] id_of(name)[i]),
        !end_mark(id_of(name)[0]),
        !end_mark(id_of(name).last()),
{
    let test = |c: char| end_mark(c);
    let clean = cleaned(trimmed(name));
    let front = clean.subrange(leading(clean, test) as int, clean.len() as int);
    let stem = stripped(clean, test);
    lemma_leading_bound(clean, test);
    lemma_trailing_bound(front, test);
    reveal_strlit("profile");
    if stem.len() > 0 {
        assert(stem[0] == clean[leading(clean, test) as int]);
        assert(stem.last() == front[front.len() - trailing(front, test) - 1]);
        assert forall|i: int| 0 <= i < stem.len() implies !unfit(#[trigger] stem[i]) by {
            assert(stem[i] == clean[leading(clean, test) + i]);
        }
    }
}

/// The file of a profile is found again under its id: a stem is its own stem, unless it begins
/// or ends with a white space of another kind than the plain one.
pub proof fn an_id_is_its_own(name: Seq<char>)
    requires
        !white_space(id_of(name)[0]),
        !white_space(id_of(name).last()),
    ensures
        id_of(id_of(name)) == id_of(name),
{
    let id = id_of(name);
    ids_are_names_a_file_system_takes(name);
    let white = |c: char| white_space(c);
    let test = |c: char| end_mark(c);
    lemma_leading_is(id, white, 0);
    let front = id.subrange(0, id.len() as int);
    assert(front =~= id);
    lemma_trailing_is(id, white, 0);
    assert(trimmed(id) =~= id);
    assert(cleaned(id) =~= id);
    lemma_leading_is(id, test, 0);
    lemma_trailing_is(id, test, 0);
    assert(stripped(id, test) =~= id);
}

/// The id of a name in ASCII is its own: handed back as a name, it names the same file.
pub proof fn an_ascii_names_id_is_its_own(name: Seq<char>)
    requires
        forall|i: int| 0 <= i < name.len() ==> (#[trigger] name[i] as int) < 128,
    ensures
        id_of(id_of(name)) == id_of(name),
{
    let id = id_of(name);
    let white = |c: char| white_space(c);
    let test = |c: char| end_mark(c);
    let plain = trimmed(name);
    let clean = cleaned(plain);
    ids_are_names_a_file_system_takes(name);
    lemma_leading_bound(name, white);
    lemma_trailing_bound(name.subrange(leading(name, white) as int, name.len() as int), white);
    assert forall|i: int| 0 <= i < plain.len() implies (#[trigger] plain[i] as int) < 128 by {
        assert(plain[i] == name[leading(name, white) + i]);
    }
    lemma_leading_bound(clean, test);
    lemma_trailing_bound(clean.subrange(leading(clean, test) as int, clean.len() as int), test);
    reveal_strlit("profile");
    assert forall|i: int| 0 <= i < id.len() implies (#[trigger] id[i] as int) < 128 by {
        if stripped(clean, test).len() > 0 {
            assert(id[i] == clean[leading(clean, test) + i]);
        }
    }
    assert((id[0] as int) < 128 && !unfit(id[0]) && !end_mark(id[0]));
    assert((id.last() as int) < 128 && !unfit(id.last()) && !end_mark(id.last()));
    an_id_is_its_own(name);
}

/// The last value for a keying field, among the first `n` of a profile's, that keeps its rule.
pub open spec fn keyed_as(known: Seq<SettingModel>, all: Seq<(Seq<char>, Tree)>, n: nat, name: Seq<char>) -> Option<Tree>
    decreases n,
{
    if n == 0 {
        None
    } else {
        let (key, value) = all[n - 1];
        let at = first_setting(known, key, 0);
        if key == "ptt."@ + name && at < known.len() && known[at as int].rule.scope.travels() && objection(
            key,
            value,
            known[at as int].type_,
        ) is None {
            Some(value)
        } else {
            keyed_as(known, all, (n - 1) as nat, name)
        }
    }
}

pub(crate) proof fn lemma_keying(known: Seq<SettingModel>, running: Tree, all: Seq<(Seq<char>, Tree)>, n: nat, name: Seq<char>)
    requires
        n <= all.len(),
    ensures
        lookup(sorted_many(known, running, all, n).keying, name) == keyed_as(known, all, n, name),
    decreases n,
{
    if n > 0 {
        lemma_keying(known, running, all, (n - 1) as nat, name);
        let before = sorted_many(known, running, all, (n - 1) as nat);
        let (key, value) = all[n - 1];
        reveal_strlit("ptt.");
        if begins(key, "ptt."@) {
            let field_name = key.subrange(4, key.len() as int);
            assert(key =~= "ptt."@ + field_name);
            put_is_found(before.keying, field_name, value, name);
            if key == "ptt."@ + name {
                assert(field_name =~= name);
            }
        } else if key == "ptt."@ + name {
            assert(key.subrange(0, 4) =~= "ptt."@);
        }
    }
}

/// The radio is keyed as the profile says, field by field, and where the profile names no kind
/// of keying nothing is keyed at all.
pub proof fn the_keying_is_the_profiles(settings: Tree, running: Tree, plain: Tree, name: Seq<char>)
    ensures
        ({
            let known = known_settings(plain);
            let all = leaves_of(""@, settings);
            let section = get_path(sorted_settings(settings, running, plain).document, parts("ptt"@));
            if keyed_as(known, all, all.len(), "kind"@) is Some {
                section matches Some(t) && field(t, name) == keyed_as(known, all, all.len(), name)
            } else {
                section == Some(Tree::Table(seq![("kind"@, Tree::Text("none"@))]))
            }
        }),
{
    let known = known_settings(plain);
    let all = leaves_of(""@, settings);
    let before = sorted_many(known, running, all, all.len());
    lemma_parts_len("ptt"@);
    lemma_keying(known, running, all, all.len(), "kind"@);
    lemma_keying(known, running, all, all.len(), name);
    if lookup(before.keying, "kind"@) is Some {
        what_is_set_is_found(before.document, parts("ptt"@), Tree::Table(before.keying));
    } else {
        what_is_set_is_found(before.document, parts("ptt"@), Tree::Table(seq![("kind"@, Tree::Text("none"@))]));
    }
}

proof fn lemma_keyed(
    known: Seq<SettingModel>,
    all: Seq<(Seq<char>, Tree)>,
    n: nat,
    name: Seq<char>,
    value: Tree,
)
    requires
        n <= all.len(),
        first_setting(known, "ptt."@ + name, 0) < known.len(),
        known[first_setting(known, "ptt."@ + name, 0) as int].rule.scope.travels(),
        objection("ptt."@ + name, value, known[first_setting(known, "ptt."@ + name, 0) as int].type_) is None,
        forall|k: int| 0 <= k < all.len() && (#[trigger] all[k]).0 == "ptt."@ + name ==> all[k].1 == value,
        exists|k: int| 0 <= k < n && (#[trigger] all[k]).0 == "ptt."@ + name,
    ensures
        keyed_as(known, all, n, name) == Some(value),
    decreases n,
{
    if all[n - 1].0 != "ptt."@ + name {
        lemma_keyed(known, all, (n - 1) as nat, name, value);
    }
}

pub(crate) proof fn lemma_keyed_as_saved(config: Tree, plain: Tree, i: int, m: int, name: Seq<char>)
    requires
        holds_at(config, plain, i, m),
        known_settings(plain)[i].key == "ptt."@ + name,
    ensures
        ({
            let saved = leaves_of(""@, portable_part(config));
            keyed_as(known_settings(plain), saved, saved.len(), name) == Some(leaves_of(""@, config)[m].1)
        }),
{
    let known = known_settings(plain);
    let key = known[i].key;
    let saved = leaves_of(""@, portable_part(config));
    let leaf = leaves_of(""@, config)[m];
    let home = first_setting(known, key, 0);
    lemma_saved(config, plain, i, m);
    lemma_first_setting(known, key, 0);
    lemma_known_keys(with_keying(leaves_of(""@, plain)), Seq::empty(), shape_leaves().len(), i);
    lemma_known_keys(with_keying(leaves_of(""@, plain)), Seq::empty(), shape_leaves().len(), home as int);
    let at = choose|k: int| 0 <= k < saved.len() && saved[k] == leaf;
    assert(saved[at].0 == key);
    lemma_keyed(known, saved, saved.len(), name, leaf.1);
}

/// Saving and loading gives back the same keying: a field of the keying section that travels and
/// keeps its rule is the same after a profile was captured and loaded, wherever the configuration
/// names a kind of keying.
pub proof fn saving_and_loading_gives_back_the_keying(
    config: Tree,
    running: Tree,
    plain: Tree,
    i: int,
    m: int,
    name: Seq<char>,
    kind: int,
    named: int,
)
    requires
        holds_at(config, plain, i, m),
        known_settings(plain)[i].key == "ptt."@ + name,
        holds_at(config, plain, kind, named),
        known_settings(plain)[kind].key == "ptt."@ + "kind"@,
    ensures
        get_path(sorted_settings(portable_part(config), running, plain).document, parts("ptt"@)) matches Some(t) && field(
            t,
            name,
        ) == Some(leaves_of(""@, config)[m].1),
{
    lemma_keyed_as_saved(config, plain, i, m, name);
    lemma_keyed_as_saved(config, plain, kind, named, "kind"@);
    the_keying_is_the_profiles(portable_part(config), running, plain, name);
}

} // verus!
