//! What the table of measured spectra comes to, and what makes a set of rules usable.
use vstd::prelude::*;

use crate::json::Number;
use crate::regulatory::occupancy::{air_at, air_from, frequency, AirLine, AirOccupancy, Edges};
use crate::regulatory::profile::{first_bad_range, first_band, first_stray, Band, Profile, Range, Segment};
use crate::text::{nearest, size, unsigned_in};

verus! {

/// A frequency in a document is in hertz and held in thousandths of one, to the nearest: a
/// whole number exactly, and any other no more than half a thousandth away.
pub proof fn a_frequency_is_held_in_thousandths(n: Number)
    requires
        -1_000_000_000_000_000_000 <= n.nano() <= 1_000_000_000_000_000_000_000_000,
    ensures
        n matches Number::Unsigned(hz) ==> hz <= 9_000_000_000_000_000 ==> frequency(n) == hz * 1000,
        n matches Number::Negative(hz) ==> hz >= -1_000_000_000 ==> frequency(n) == hz * 1000,
        n matches Number::Real(nano) ==> -1_000_000_000_000_000_000 <= nano <= 1_000_000_000_000_000_000 ==> -1_000_000 <= 2 * (
        nano - 1_000_000 * frequency(n)) <= 1_000_000,
{
    crate::figures::rounding_is_to_the_nearest(size(n.nano()), 1_000_000);
}

/// Moving a spectrum along moves both its edges, by as much, under either way of measuring it,
/// so its width stays.
pub proof fn moving_a_spectrum_keeps_its_width(e: Edges, by: i64)
    requires
        i64::MIN <= e.power.0 + by <= i64::MAX,
        i64::MIN <= e.power.1 + by <= i64::MAX,
        i64::MIN <= e.spectral.0 + by <= i64::MAX,
        i64::MIN <= e.spectral.1 + by <= i64::MAX,
    ensures
        e.moved(by).power.0 - e.power.0 == by,
        e.moved(by).spectral.0 - e.spectral.0 == by,
        e.moved(by).power.1 - e.moved(by).power.0 == e.power.1 - e.power.0,
        e.moved(by).spectral.1 - e.moved(by).spectral.0 == e.spectral.1 - e.spectral.0,
{
}

/// A waveform's table is read whole where its name is its width, its rungs are numbered from
/// nought in order and each has some width: every rung by its name, a tone's or not, about the
/// centre it was measured about. Otherwise none of it is.
pub proof fn a_table_is_read_whole_or_not_at_all(a: AirLine, i: int)
    requires
        0 <= i < a.rungs.len(),
    ensures
        air_from(a) is Ok <==> unsigned_in(a.name) is Some && (forall|k: int|
            0 <= k < a.rungs.len() ==> (#[trigger] a.rungs[k]).rung == k && a.rungs[k].edges.power.0
                < a.rungs[k].edges.power.1),
        air_from(a) matches Ok(air) ==> {
            &&& Some(air.bandwidth_hz) == unsigned_in(a.name)
            &&& air.centre == a.centre
            &&& air.rungs.len() == a.rungs.len()
            &&& air.rungs[i].name == a.rungs[i].name
            &&& air.rungs[i].tone <==> a.rungs[i].family == "tone"@
            &&& air.rungs[i].edges == a.rungs[i].edges.moved(a.centre)
            &&& air.control_ordinary == a.ordinary.moved(a.centre)
            &&& air.control_floor == a.floor.moved(a.centre)
        },
{
}

/// A waveform is found by its width: the first of that width, and none where there is none.
pub proof fn a_waveform_is_found_by_its_width(s: Seq<AirOccupancy>, bandwidth_hz: u64)
    ensures
        air_at(s, bandwidth_hz) is None <==> forall|i: int|
            0 <= i < s.len() ==> (#[trigger] s[i]).bandwidth_hz != bandwidth_hz,
        air_at(s, bandwidth_hz) matches Some(air) ==> air.bandwidth_hz == bandwidth_hz && s.contains(air),
    decreases s.len(),
{
    if s.len() > 0 && s[0].bandwidth_hz != bandwidth_hz {
        let rest = s.drop_first();
        a_waveform_is_found_by_its_width(rest, bandwidth_hz);
        if air_at(rest, bandwidth_hz) is None {
            assert forall|i: int| 0 <= i < s.len() implies (#[trigger] s[i]).bandwidth_hz != bandwidth_hz by {
                if i > 0 {
                    assert(s[i] == rest[i - 1]);
                }
            }
        } else {
            let air = air_at(rest, bandwidth_hz)->0;
            let k = rest.index_of(air);
            assert(s[k + 1] == air);
        }
    }
}

proof fn lemma_first_band(s: Seq<Band>, from: nat, low: int, high: int, inside: bool)
    requires
        from <= s.len(),
    ensures
        from <= first_band(s, from, low, high, inside) <= s.len(),
        forall|i: int| from <= i < first_band(s, from, low, high, inside) ==> !crate::regulatory::profile::meets(
            (#[trigger] s[i]).range,
            low,
            high,
            inside,
        ),
        first_band(s, from, low, high, inside) < s.len() ==> crate::regulatory::profile::meets(
            s[first_band(s, from, low, high, inside) as int].range,
            low,
            high,
            inside,
        ),
    decreases s.len() - from,
{
    if from < s.len() && !crate::regulatory::profile::meets(s[from as int].range, low, high, inside) {
        lemma_first_band(s, from + 1, low, high, inside);
    }
}

/// A signal's band is one that holds it from edge to edge, where there is one, and the band
/// near it is one that any of it is in.
pub proof fn a_signals_band_holds_all_of_it(p: Profile, low: int, high: int)
    ensures
        p.band_of(low, high) is None <==> forall|i: int|
            0 <= i < p.bands@.len() ==> (#[trigger] p.bands@[i]).range.low > low || p.bands@[i].range.high < high,
        p.band_of(low, high) matches Some(b) ==> b.range.low <= low && high <= b.range.high && p.bands@.contains(b),
        p.band_near(low, high) is None <==> forall|i: int|
            0 <= i < p.bands@.len() ==> (#[trigger] p.bands@[i]).range.low > high || p.bands@[i].range.high < low,
        p.band_near(low, high) matches Some(b) ==> b.range.low <= high && low <= b.range.high && p.bands@.contains(b),
{
    lemma_first_band(p.bands@, 0, low, high, true);
    lemma_first_band(p.bands@, 0, low, high, false);
    let n = first_band(p.bands@, 0, low, high, true) as int;
    let m = first_band(p.bands@, 0, low, high, false) as int;
    if n < p.bands@.len() {
        assert(p.bands@.contains(p.bands@[n]));
        assert(p.bands@[n].range.low <= low);
    }
    if m < p.bands@.len() {
        assert(p.bands@.contains(p.bands@[m]));
        assert(p.bands@[m].range.low <= high);
    }
}

/// Whether a range has some width.
pub open spec fn some_width(r: Range) -> bool {
    r.low < r.high
}

/// Whether every privilege of a class is a range with some width.
pub open spec fn sound(list: Seq<crate::regulatory::profile::Privilege>) -> bool {
    forall|i: int| 0 <= i < list.len() ==> some_width((#[trigger] list[i]).range)
}

/// Whether a segment is inside some band.
pub open spec fn banded(p: Profile, s: Segment) -> bool {
    exists|i: int|
        0 <= i < p.bands@.len() && (#[trigger] p.bands@[i]).range.low <= s.range.low && s.range.high <= p.bands@[i].range.high
}

proof fn lemma_no_bad_range(s: Seq<(Seq<char>, Range)>, from: nat)
    requires
        from <= s.len(),
        forall|i: int| from <= i < s.len() ==> some_width((#[trigger] s[i]).1),
    ensures
        first_bad_range(s, from) == s.len(),
    decreases s.len() - from,
{
    if from < s.len() {
        assert(some_width(s[from as int].1));
        lemma_no_bad_range(s, from + 1);
    }
}

proof fn lemma_no_stray(p: Profile, from: nat)
    requires
        from <= p.data_segments@.len(),
        forall|i: int| 0 <= i < p.data_segments@.len() ==> banded(p, #[trigger] p.data_segments@[i]),
    ensures
        first_stray(p, from) == p.data_segments@.len(),
    decreases p.data_segments@.len() - from,
{
    if from < p.data_segments@.len() {
        let s = p.data_segments@[from as int];
        assert(banded(p, s));
        let i = choose|i: int|
            0 <= i < p.bands@.len() && (#[trigger] p.bands@[i]).range.low <= s.range.low && s.range.high
                <= p.bands@[i].range.high;
        assert(p.bands@[i].range.keeps(s.range.low as int, s.range.high as int));
        lemma_no_stray(p, from + 1);
    }
}

/// A set of rules that holds together has no fault: it names bands and segments, every range
/// of it has some width, every segment is in a band and has a limit above nothing, and so has
/// data as a whole.
pub proof fn rules_that_hold_together_have_no_fault(p: Profile)
    requires
        p.bands@.len() > 0,
        p.data_segments@.len() > 0,
        forall|i: int| 0 <= i < p.bands@.len() ==> some_width((#[trigger] p.bands@[i]).range),
        forall|i: int| 0 <= i < p.data_segments@.len() ==> some_width((#[trigger] p.data_segments@[i]).range),
        forall|i: int| 0 <= i < p.automatic.segments@.len() ==> some_width(#[trigger] p.automatic.segments@[i]),
        sound(p.privileges.advanced@),
        sound(p.privileges.extra@),
        sound(p.privileges.general@),
        sound(p.privileges.novice@),
        sound(p.privileges.technician@),
        forall|i: int| 0 <= i < p.data_segments@.len() ==> banded(p, #[trigger] p.data_segments@[i]),
        forall|i: int|
            0 <= i < p.data_segments@.len() ==> ((#[trigger] p.data_segments@[i]).max_bandwidth matches Some(max) ==> max > 0),
        p.data.max_bandwidth > 0,
    ensures
        p.fault() is None,
{
    let ranges = p.ranges();
    assert forall|i: int| 0 <= i < ranges.len() implies some_width((#[trigger] ranges[i]).1) by {
        lemma_each_range(p, i);
    }
    lemma_no_bad_range(ranges, 0);
    lemma_no_stray(p, 0);
}

proof fn lemma_each_range(p: Profile, i: int)
    requires
        0 <= i < p.ranges().len(),
        forall|i: int| 0 <= i < p.bands@.len() ==> some_width((#[trigger] p.bands@[i]).range),
        forall|i: int| 0 <= i < p.data_segments@.len() ==> some_width((#[trigger] p.data_segments@[i]).range),
        forall|i: int| 0 <= i < p.automatic.segments@.len() ==> some_width(#[trigger] p.automatic.segments@[i]),
        sound(p.privileges.advanced@),
        sound(p.privileges.extra@),
        sound(p.privileges.general@),
        sound(p.privileges.novice@),
        sound(p.privileges.technician@),
    ensures
        some_width(p.ranges()[i].1),
{
    let a = p.bands@.len() as int;
    let b = a + p.data_segments@.len();
    let c = b + p.automatic.segments@.len();
    let d = c + p.privileges.advanced@.len();
    let e = d + p.privileges.extra@.len();
    let f = e + p.privileges.general@.len();
    let g = f + p.privileges.novice@.len();
    if i < a {
        assert(p.ranges()[i].1 == p.bands@[i].range);
    } else if i < b {
        assert(p.ranges()[i].1 == p.data_segments@[i - a].range);
    } else if i < c {
        assert(p.ranges()[i].1 == p.automatic.segments@[i - b]);
    } else if i < d {
        assert(p.ranges()[i].1 == p.privileges.advanced@[i - c].range);
    } else if i < e {
        assert(p.ranges()[i].1 == p.privileges.extra@[i - d].range);
    } else if i < f {
        assert(p.ranges()[i].1 == p.privileges.general@[i - e].range);
    } else if i < g {
        assert(p.ranges()[i].1 == p.privileges.novice@[i - f].range);
    } else {
        assert(p.ranges()[i].1 == p.privileges.technician@[i - g].range);
    }
}

/// A set of rules without a fault holds together throughout: every band, segment and
/// privilege of every class has some width, and every segment is inside a band under a limit
/// above nothing.
pub proof fn rules_without_a_fault_hold_together(p: Profile, i: int)
    requires
        p.fault() is None,
    ensures
        p.bands@.len() > 0,
        p.data_segments@.len() > 0,
        p.data.max_bandwidth > 0,
        0 <= i < p.bands@.len() ==> some_width(p.bands@[i].range),
        0 <= i < p.automatic.segments@.len() ==> some_width(p.automatic.segments@[i]),
        0 <= i < p.privileges.advanced@.len() ==> some_width(p.privileges.advanced@[i].range),
        0 <= i < p.privileges.extra@.len() ==> some_width(p.privileges.extra@[i].range),
        0 <= i < p.privileges.general@.len() ==> some_width(p.privileges.general@[i].range),
        0 <= i < p.privileges.novice@.len() ==> some_width(p.privileges.novice@[i].range),
        0 <= i < p.privileges.technician@.len() ==> some_width(p.privileges.technician@[i].range),
        0 <= i < p.data_segments@.len() ==> {
            let s = p.data_segments@[i];
            some_width(s.range) && banded(p, s) && (s.max_bandwidth matches Some(max) ==> max > 0)
        },
{
    crate::regulatory::profile::a_checked_profile_holds_together(p);
    let r = p.ranges();
    let a = p.bands@.len() as int;
    let b = a + p.data_segments@.len();
    let c = b + p.automatic.segments@.len();
    let d = c + p.privileges.advanced@.len();
    let e = d + p.privileges.extra@.len();
    let f = e + p.privileges.general@.len();
    let g = f + p.privileges.novice@.len();
    if 0 <= i < p.bands@.len() {
        assert(r[i].1 == p.bands@[i].range);
    }
    if 0 <= i < p.automatic.segments@.len() {
        assert(r[b + i].1 == p.automatic.segments@[i]);
    }
    if 0 <= i < p.privileges.advanced@.len() {
        assert(r[c + i].1 == p.privileges.advanced@[i].range);
    }
    if 0 <= i < p.privileges.extra@.len() {
        assert(r[d + i].1 == p.privileges.extra@[i].range);
    }
    if 0 <= i < p.privileges.general@.len() {
        assert(r[e + i].1 == p.privileges.general@[i].range);
    }
    if 0 <= i < p.privileges.novice@.len() {
        assert(r[f + i].1 == p.privileges.novice@[i].range);
    }
    if 0 <= i < p.privileges.technician@.len() {
        assert(r[g + i].1 == p.privileges.technician@[i].range);
    }
    if 0 <= i < p.data_segments@.len() {
        let s = p.data_segments@[i];
        assert(r[a + i].1 == s.range);
        assert(p.in_a_band(s.range));
        let k = choose|k: int|
            0 <= k < p.bands@.len() && (#[trigger] p.bands@[k]).range.keeps(s.range.low as int, s.range.high as int);
        assert(p.bands@[k].range.low <= s.range.low);
        assert(s.limit(p.data).0 > 0);
    }
}

} // verus!
