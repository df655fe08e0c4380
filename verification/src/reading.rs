//! What is read out of what others wrote: numbers, tables, inventories and recordings.
use vstd::prelude::*;

use crate::figures::{a_number_is_written_in_figures, all_figures, read_off};
use crate::json::number::real_of;
use crate::json::read::{exponent_in, number_of, run_end};
use crate::json::{field, Number, Tree};
use crate::profile::{described_devices, flagged, text_field, Hint};
use crate::regulatory::occupancy::{
    air_from, airs_from, airs_in, edges_in, frequency, rung_in, rungs_in, table_in, AirLine, AirModel,
};
use crate::replay::{keying_read, muted_in, rate_fault};
use crate::settings::{breach, first_breach};
use crate::text::{
    ascii_lower, ascii_lowercase, ascii_upper, ascii_uppercase, digits, hex, hex_items, hex_list, number_in,
};

verus! {

proof fn lemma_run(s: Seq<char>, from: nat, end: nat)
    requires
        from <= end <= s.len(),
        forall|i: int| from <= i < end ==> '0' <= #[trigger] s[i] <= '9',
        end < s.len() ==> !('0' <= s[end as int] <= '9'),
    ensures
        run_end(s, from) == end,
    decreases end - from,
{
    if from < end {
        assert('0' <= s[from as int] <= '9');
        lemma_run(s, from + 1, end);
    }
}

proof fn lemma_figures_read(s: Seq<char>)
    requires
        all_figures(s),
        s.len() > 0,
    ensures
        number_in(s) == Some(read_off(s) as nat),
        read_off(s) >= 0,
    decreases s.len(),
{
    assert('0' <= s[s.len() - 1] <= '9');
    let before = s.drop_last();
    if s.len() == 1 {
        assert(before =~= Seq::empty());
        assert(read_off(before) == 0);
        assert(s[0] == s.last());
    } else {
        assert forall|i: int| 0 <= i < before.len() implies '0' <= #[trigger] before[i] <= '9' by {
            assert(before[i] == s[i]);
        }
        lemma_figures_read(before);
    }
}

/// A row of figures in a document is the whole number it stands for, where that fits, and one
/// with a sign in front is less than nothing by as much.
pub proof fn figures_are_read_as_a_whole_number(s: Seq<char>)
    requires
        all_figures(s),
        1 <= s.len() <= 15,
    ensures
        number_of(s) == Some(Number::Unsigned(read_off(s) as u64)),
        0 <= read_off(s) <= u64::MAX,
        read_off(s) <= 0x7FFF_FFFF_FFFF_FFFF ==> number_of(seq!['-'] + s) == Some(
            Number::Negative((-read_off(s)) as i64),
        ),
{
    lemma_figures_read(s);
    lemma_read_bound(s);
    lemma_powers_below();
    lemma_run(s, 0, s.len());
    assert('0' <= s[0] <= '9');
    let none: Seq<char> = Seq::empty();
    assert(s.subrange(0, s.len() as int) + none =~= s);
    assert(s.subrange(s.len() as int, s.len() as int) =~= none);
    let t = seq!['-'] + s;
    assert forall|i: int| 1 <= i < t.len() implies '0' <= #[trigger] t[i] <= '9' by {
        assert(t[i] == s[i - 1]);
    }
    lemma_run(t, 1, t.len());
    assert(t.subrange(1, t.len() as int) + none =~= s);
    assert(t.subrange(t.len() as int, t.len() as int) =~= none);
}

proof fn lemma_read_bound(s: Seq<char>)
    requires
        all_figures(s),
    ensures
        0 <= read_off(s) < crate::json::read::pow10(s.len()),
    decreases s.len(),
{
    if s.len() > 0 {
        let before = s.drop_last();
        assert forall|i: int| 0 <= i < before.len() implies '0' <= #[trigger] before[i] <= '9' by {
            assert(before[i] == s[i]);
        }
        lemma_read_bound(before);
        assert('0' <= s[s.len() - 1] <= '9');
    }
}

proof fn lemma_powers_below()
    ensures
        forall|k: nat| k <= 15 ==> #[trigger] crate::json::read::pow10(k) <= 1_000_000_000_000_000,
{
    assert forall|k: nat| k <= 15 implies #[trigger] crate::json::read::pow10(k) <= 1_000_000_000_000_000 by {
        reveal_with_fuel(crate::json::read::pow10, 16);
    }
}

/// Figures with a point among them are the number they make together, as many places down as
/// there are figures behind the point.
pub proof fn a_point_says_where_the_figures_stand(whole: Seq<char>, rest: Seq<char>, negative: bool)
    requires
        all_figures(whole),
        all_figures(rest),
        whole.len() >= 1,
        rest.len() >= 1,
        whole.len() + rest.len() <= 15,
    ensures
        number_of((if negative { seq!['-'] } else { Seq::empty() }) + whole + seq!['.'] + rest) == Some(
            real_of(negative, read_off(whole + rest) as nat, -(rest.len() as int)),
        ),
{
    let sign: Seq<char> = if negative { seq!['-'] } else { Seq::empty() };
    let s = sign + whole + seq!['.'] + rest;
    let start = sign.len();
    let point = start + whole.len();
    let all = whole + rest;
    assert(all_figures(all));
    lemma_figures_read(all);
    assert forall|i: int| start <= i < point implies '0' <= #[trigger] s[i] <= '9' by {
        assert(s[i] == whole[i - start]);
    }
    assert(s[point as int] == '.');
    lemma_run(s, start, point);
    assert forall|i: int| point + 1 <= i < s.len() implies '0' <= #[trigger] s[i] <= '9' by {
        assert(s[i] == rest[i - point - 1]);
    }
    lemma_run(s, point + 1, s.len());
    assert(s.subrange(start as int, point as int) + s.subrange(point as int + 1, s.len() as int) =~= all);
    assert(s.subrange(s.len() as int, s.len() as int) =~= Seq::empty());
    if !negative {
        assert(s[0] == whole[0]);
        assert('0' <= whole[0] <= '9');
    }
}

/// An exponent counts the places up, or down where it has a minus, and nothing written is none.
pub proof fn an_exponent_counts_the_places(n: nat, large: bool)
    requires
        n <= 300,
    ensures
        exponent_in(Seq::empty()) == Some(0int),
        exponent_in(seq![if large { 'E' } else { 'e' }] + digits(n)) == Some(n as int),
        exponent_in(seq![if large { 'E' } else { 'e' }, '+'] + digits(n)) == Some(n as int),
        exponent_in(seq![if large { 'E' } else { 'e' }, '-'] + digits(n)) == Some(-(n as int)),
{
    a_number_is_written_in_figures(n);
    lemma_figures_read(digits(n));
    let e = if large { 'E' } else { 'e' };
    let d = digits(n);
    assert('0' <= d[0] <= '9');
    let plain = seq![e] + d;
    let up = seq![e, '+'] + d;
    let down = seq![e, '-'] + d;
    assert(plain[1] == d[0]);
    assert(plain.subrange(1, plain.len() as int) =~= d);
    assert(up.subrange(2, up.len() as int) =~= d);
    assert(down.subrange(2, down.len() as int) =~= d);
}

/// The sound cards of a list are those that say they can do what is asked of them, in their
/// order.
pub proof fn a_card_is_listed_for_what_it_can_do(list: Seq<Tree>, flag: Seq<char>, n: nat, i: int)
    requires
        n <= list.len(),
        0 <= i < n,
    ensures
        text_field(list[i], "name"@) matches Some(name) ==> field(list[i], flag) == Some(Tree::Bool(true)) ==> flagged(
            list,
            flag,
            n,
        ).contains(name),
        forall|k: int|
            0 <= k < flagged(list, flag, n).len() ==> exists|j: int|
                0 <= j < n && text_field(#[trigger] list[j], "name"@) == Some(#[trigger] flagged(list, flag, n)[k]) && field(
                    list[j],
                    flag,
                ) == Some(Tree::Bool(true)),
    decreases n,
{
    let m = (n - 1) as nat;
    let before = flagged(list, flag, m);
    let all = flagged(list, flag, n);
    if m > 0 {
        a_card_is_listed_for_what_it_can_do(list, flag, m, if i < m { i } else { 0 });
    } else {
        assert(before.len() == 0);
    }
    assert forall|k: int| 0 <= k < all.len() implies exists|j: int|
        0 <= j < n && text_field(#[trigger] list[j], "name"@) == Some(#[trigger] all[k]) && field(list[j], flag) == Some(
            Tree::Bool(true),
        ) by {
        if k < before.len() {
            assert(all[k] == before[k]);
        } else {
            assert(text_field(list[m as int], "name"@) == Some(all[k]));
        }
    }
    if text_field(list[i], "name"@) is Some && field(list[i], flag) == Some(Tree::Bool(true)) {
        let name = text_field(list[i], "name"@)->0;
        if i < m {
            let k = before.index_of(name);
            assert(all[k] == name);
        } else {
            assert(all.last() == name);
        }
    }
}

/// Every device that has a name is listed with what is said of it, and no other is.
pub proof fn a_device_is_listed_with_what_is_said_of_it(
    list: Seq<Tree>,
    name: Seq<char>,
    description: Seq<char>,
    n: nat,
    i: int,
)
    requires
        n <= list.len(),
        0 <= i < n,
    ensures
        described_devices(list, name, description, n).len() <= n,
        text_field(list[i], name) matches Some(s) ==> text_field(list[i], description) matches Some(d)
            ==> described_devices(list, name, description, n).contains(Hint { name: s, description: d }),
        (forall|j: int| 0 <= j < n ==> text_field(#[trigger] list[j], name) is None) ==> described_devices(
            list,
            name,
            description,
            n,
        ).len() == 0,
    decreases n,
{
    let m = (n - 1) as nat;
    let before = described_devices(list, name, description, m);
    let all = described_devices(list, name, description, n);
    if m > 0 {
        a_device_is_listed_with_what_is_said_of_it(list, name, description, m, if i < m { i } else { 0 });
    } else {
        assert(before.len() == 0);
    }
    if forall|j: int| 0 <= j < n ==> text_field(#[trigger] list[j], name) is None {
        assert(text_field(list[m as int], name) is None);
    }
    if text_field(list[i], name) is Some && text_field(list[i], description) is Some {
        let hint = Hint { name: text_field(list[i], name)->0, description: text_field(list[i], description)->0 };
        if i < m {
            let k = before.index_of(hint);
            assert(all[k] == hint);
        } else {
            assert(all.last() == hint);
        }
    }
}

/// What is wrong with a setting, by its name and its value.
#[verifier::opaque]
pub open spec fn wrong_with(setting: (Seq<char>, Tree)) -> Option<Seq<char>> {
    breach(setting.0, setting.1)
}

proof fn lemma_next_breach(s: Seq<(Seq<char>, Tree)>, from: nat)
    requires
        from < s.len(),
    ensures
        wrong_with(s[from as int]) is Some ==> first_breach(s, from) == wrong_with(s[from as int]),
        wrong_with(s[from as int]) is None ==> first_breach(s, from) == first_breach(s, from + 1),
{
    reveal(wrong_with);
}

/// The first setting that breaks its rule is the one said, and none is where each keeps its
/// own.
pub proof fn the_first_breach_is_said(s: Seq<(Seq<char>, Tree)>, from: nat)
    requires
        from <= s.len(),
    ensures
        first_breach(s, from) is None <==> forall|i: int| from <= i < s.len() ==> wrong_with(#[trigger] s[i]) is None,
        first_breach(s, from) is Some ==> exists|i: int|
            from <= i < s.len() && wrong_with(#[trigger] s[i]) == first_breach(s, from) && (forall|j: int|
                from <= j < i ==> wrong_with(#[trigger] s[j]) is None),
    decreases s.len() - from,
{
    if from < s.len() {
        lemma_next_breach(s, from);
        let here = wrong_with(s[from as int]);
        if here is None {
            the_first_breach_is_said(s, from + 1);
        } else {
            assert(here == first_breach(s, from));
        }
    }
}

/// The edges of a signal are read in hertz, each pair from low to high as it is written, by
/// power and by spectrum.
pub proof fn edges_are_read_as_written(t: Tree, a: Number, b: Number, c: Number, d: Number)
    requires
        field(t, "power"@) == Some(Tree::List(seq![Tree::Number(a), Tree::Number(b)])),
        field(t, "spectral"@) == Some(Tree::List(seq![Tree::Number(c), Tree::Number(d)])),
    ensures
        edges_in(t) matches Some(e) && e.power == (frequency(a), frequency(b)) && e.spectral == (frequency(c), frequency(d)),
{
}

/// The rungs of a table are read in their order, each from its own line, all of them or none.
pub proof fn rungs_are_read_in_their_order(s: Seq<Tree>, i: int)
    requires
        0 <= i < s.len(),
    ensures
        rungs_in(s) is Some <==> forall|k: int| 0 <= k < s.len() ==> rung_in(#[trigger] s[k]) is Some,
        rungs_in(s) matches Some(r) ==> r.len() == s.len() && rung_in(s[i]) == Some(r[i]),
    decreases s.len(),
{
    let before = s.drop_last();
    if before.len() > 0 {
        rungs_are_read_in_their_order(before, if i < before.len() { i } else { 0 });
    } else {
        assert(rungs_in(before) == Some(Seq::<crate::regulatory::occupancy::RungLine>::empty()));
    }
    assert forall|k: int| 0 <= k < before.len() implies before[k] == s[k] by {}
    if rungs_in(s) is Some {
        assert forall|k: int| 0 <= k < s.len() implies rung_in(#[trigger] s[k]) is Some by {
            if k < before.len() {
                assert(before[k] == s[k]);
            }
        }
        if i < before.len() {
            assert(before[i] == s[i]);
        }
    } else if forall|k: int| 0 <= k < s.len() ==> rung_in(#[trigger] s[k]) is Some {
        assert(rung_in(s[s.len() - 1]) is Some);
        assert forall|k: int| 0 <= k < before.len() implies rung_in(#[trigger] before[k]) is Some by {
            assert(before[k] == s[k]);
        }
    }
}

/// The waveforms of a table are taken in their order, each from its own lines, all of them or
/// none.
pub proof fn waveforms_are_taken_in_their_order(s: Seq<AirLine>, i: int)
    requires
        0 <= i < s.len(),
    ensures
        airs_from(s) is Ok ==> forall|k: int| 0 <= k < s.len() ==> air_from(#[trigger] s[k]) is Ok,
        airs_from(s) matches Ok(r) ==> r.len() == s.len() && air_from(s[i]) == Ok::<AirModel, Seq<char>>(r[i]),
    decreases s.len(),
{
    let before = s.drop_last();
    if before.len() > 0 {
        waveforms_are_taken_in_their_order(before, if i < before.len() { i } else { 0 });
    }
    if airs_from(s) is Ok {
        assert forall|k: int| 0 <= k < s.len() implies air_from(#[trigger] s[k]) is Ok by {
            if k < before.len() {
                assert(before[k] == s[k]);
            }
        }
        if i < before.len() {
            assert(before[i] == s[i]);
        } else {
            assert(before.len() == 0 ==> airs_from(before) == Ok::<Seq<AirModel>, Seq<char>>(Seq::empty()));
        }
    }
}

/// A table is read from its airs, and from nothing else.
pub proof fn a_table_is_read_from_its_airs(t: Tree, entries: Seq<(Seq<char>, Tree)>, lines: Seq<AirLine>)
    requires
        field(t, "airs"@) == Some(Tree::Table(entries)),
        airs_in(entries) == Some(lines),
    ensures
        table_in(t) == airs_from(lines),
{
}

/// A key still down at the end of a recording keeps its station deaf to the end of it.
pub proof fn a_key_still_down_lasts_to_the_end(document: Tree, events: Seq<Tree>)
    requires
        field(document, "events"@) == Some(Tree::List(events)),
    ensures
        ({
            let k = keying_read(events, events.len());
            &&& k.since is None ==> muted_in(document) == k.muted
            &&& k.since matches Some(from) ==> muted_in(document).len() == k.muted.len() + 1 && muted_in(document).last().from
                == from && muted_in(document).last().until is None
            &&& forall|i: int| 0 <= i < k.muted.len() ==> muted_in(document)[i] == #[trigger] k.muted[i]
        }),
{
}

/// A recording is played only at the rate it was made at.
pub proof fn a_recording_is_played_at_its_rate(path: Seq<char>, found: nat, rate: nat)
    ensures
        rate_fault(path, found, rate) is None <==> found == rate,
{
}

/// Letters of the alphabet change their case and nothing else does: in capitals none is small,
/// and small again they are what small letters were.
pub proof fn only_letters_change_their_case(s: Seq<char>, i: int)
    requires
        0 <= i < s.len(),
    ensures
        ascii_uppercase(s).len() == s.len() && ascii_lowercase(s).len() == s.len(),
        !('a' <= ascii_uppercase(s)[i] <= 'z'),
        !('A' <= ascii_lowercase(s)[i] <= 'Z'),
        !('a' <= s[i] <= 'z') ==> ascii_uppercase(s)[i] == s[i],
        !('A' <= s[i] <= 'Z') ==> ascii_lowercase(s)[i] == s[i],
        'a' <= s[i] <= 'z' ==> ascii_lower(ascii_upper(s[i])) == s[i],
        'A' <= s[i] <= 'Z' ==> ascii_upper(ascii_lower(s[i])) == s[i],
{
}

/// Bytes are listed in brackets, each as two figures in base sixteen, with a comma between.
pub proof fn bytes_are_listed_in_base_sixteen(bytes: Seq<u8>, b: u8)
    ensures
        hex_list(Seq::empty()) == "["@ + "]"@,
        hex_list(seq![b]) == "["@ + hex(b as nat, 2, true) + "]"@,
        bytes.len() > 0 ==> hex_items(bytes.push(b)) == hex_items(bytes) + ", "@ + hex(b as nat, 2, true),
        hex(b as nat, 2, true).len() == 2,
        crate::figures::read_off_hex(hex(b as nat, 2, true)) == b,
{
    reveal_with_fuel(hex_items, 3);
    reveal_strlit("");
    assert(seq![b].drop_last() =~= Seq::empty());
    assert("["@ + ""@ =~= "["@);
    assert(bytes.push(b).drop_last() =~= bytes);
    reveal_with_fuel(crate::figures::sixteens, 3);
    crate::figures::hex_reads_as_the_number(b as nat, 2, true);
}

} // verus!
