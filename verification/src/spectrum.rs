//! A spectrum of what the sound card is delivering, for the panel's display, and the width of
//! the receiver's passband as the noise it delivers shows it.
//!
//! This is instrumentation: the modem decodes without it, and it reads nothing back. It keeps
//! the last window of captured audio for a transform to run on when a client asks.
//!
//! Samples are 32-bit floating-point numbers, carried by their bits; levels are in millionths
//! of a decibel and frequencies in millionths of a hertz.
use vstd::prelude::*;

verus! {

/// Samples in one transform.
pub const WINDOW: usize = 4096;

/// The highest frequency reported, in hertz. Nothing this modem cares about is above it.
pub const TOP_HZ: u64 = 4000;

/// The analyser: the newest window of audio.
#[derive(Debug)]
pub struct SpectrumAnalyser {
    sample_rate: u32,
    ring: Vec<u32>,
}

impl View for SpectrumAnalyser {
    type V = Seq<u32>;

    closed spec fn view(&self) -> Seq<u32> {
        self.ring@
    }
}

/// The newest of some audio, no more than a window of it.
pub open spec fn newest(s: Seq<u32>) -> Seq<u32> {
    if s.len() > WINDOW { s.subrange(s.len() - WINDOW, s.len() as int) } else { s }
}

/// How many bins of a spectrum are reported: from 0 Hz to the top, no further than half the
/// window.
pub open spec fn bins_reported(sample_rate: nat) -> nat {
    let top = 4000 * 4096 / sample_rate;
    (if top < 2048 { top } else { 2048 }) + 1
}

impl SpectrumAnalyser {
    /// The audio's rate.
    pub closed spec fn rate(self) -> u32 {
        self.sample_rate
    }

    /// Build one for audio at `sample_rate`.
    pub fn new(sample_rate: u32) -> (r: Self)
        ensures
            r@ == Seq::<u32>::empty(),
            r.rate() == sample_rate,
    {
        SpectrumAnalyser { sample_rate, ring: Vec::new() }
    }

    /// Remember the newest audio; the oldest is forgotten past one window.
    pub fn push(&mut self, audio: &Vec<u32>)
        requires
            old(self)@.len() <= WINDOW,
        ensures
            final(self)@ == newest(old(self)@ + audio@),
            final(self)@.len() <= WINDOW,
            final(self).rate() == old(self).rate(),
    {
        let ghost all = self.ring@ + audio@;
        let have: usize = self.ring.len();
        let keep: usize = if audio.len() < WINDOW { audio.len() } else { WINDOW };
        let excess: usize = if have + keep > WINDOW { have + keep - WINDOW } else { 0 };
        let mut out: Vec<u32> = Vec::new();
        let mut i: usize = excess;
        while i < have
            invariant
                excess <= i <= have,
                have == self.ring.len(),
                out@ == self.ring@.subrange(excess as int, i as int),
            decreases have - i,
        {
            out.push(self.ring[i]);
            proof {
                assert(self.ring@.subrange(excess as int, i + 1) =~= self.ring@.subrange(excess as int, i as int).push(
                    self.ring@[i as int],
                ));
            }
            i += 1;
        }
        let from: usize = audio.len() - keep;
        i = from;
        let ghost kept = out@;
        proof {
            assert(kept + audio@.subrange(from as int, from as int) =~= kept);
        }
        while i < audio.len()
            invariant
                from <= i <= audio.len(),
                out@ == kept + audio@.subrange(from as int, i as int),
            decreases audio.len() - i,
        {
            out.push(audio[i]);
            proof {
                assert(kept + audio@.subrange(from as int, i + 1) =~= (kept + audio@.subrange(from as int, i as int)).push(
                    audio@[i as int],
                ));
            }
            i += 1;
        }
        proof {
            assert(out@ =~= newest(all));
        }
        self.ring = out;
    }

    /// Whether a whole window has been heard yet.
    pub fn ready(&self) -> (r: bool)
        ensures
            r == (self@.len() == WINDOW),
    {
        self.ring.len() == WINDOW
    }

    /// How much audio one transform covers, in microseconds: a spectrum describes exactly this
    /// much of the past.
    pub fn window_us(&self) -> (r: u64)
        requires
            self.rate() > 0,
        ensures
            r as nat == 4096 * 1_000_000 / self.rate() as nat,
    {
        4096 * 1_000_000 / (self.sample_rate as u64)
    }

    /// The window to transform: nothing until a whole one has been heard.
    pub fn compute(&self) -> (r: Option<&Vec<u32>>)
        ensures
            match r {
                Some(v) => self@.len() == WINDOW && v@ == self@,
                None => self@.len() != WINDOW,
            },
    {
        if self.ready() { Some(&self.ring) } else { None }
    }

    /// How many bins of the transform are reported.
    pub fn bins(&self) -> (r: usize)
        requires
            self.rate() > 0,
        ensures
            r == bins_reported(self.rate() as nat),
    {
        let top: u64 = TOP_HZ * 4096 / (self.sample_rate as u64);
        if top < 2048 { top as usize + 1 } else { 2049 }
    }
}

/// How much a bin must fall below the in-band noise level to count as outside the passband.
pub const PASSBAND_DROP: i64 = 6_000_000;

/// Bins in a row that must stay below the drop before an edge is called, so a single noisy bin
/// is not one.
pub const EDGE_RUN: usize = 3;

/// How far either side of the centre the in-band reference noise level is taken from: well
/// inside the narrowest filter anyone runs.
pub const REFERENCE_HALF: u64 = 180_000_000;

/// Quiet spectra to fold in before the width estimate is trusted.
pub const MIN_OBSERVATIONS: usize = 12;

/// A spectrum's bins may be no further from nothing than this.
pub const LEVEL_LIMIT: i64 = 1_000_000_000_000;

/// Levels with one more, behind all that are no higher.
pub open spec fn ranked_in(s: Seq<i64>, one: i64) -> Seq<i64>
    decreases s.len(),
{
    if s.len() == 0 || s.last() <= one { s.push(one) } else { ranked_in(s.drop_last(), one).push(s.last()) }
}

/// Levels from the lowest to the highest.
pub open spec fn ranked(s: Seq<i64>) -> Seq<i64>
    decreases s.len(),
{
    if s.len() == 0 { s } else { ranked_in(ranked(s.drop_last()), s.last()) }
}

/// The level in the middle, so one loud bin does not lift it.
pub open spec fn median(s: Seq<i64>) -> i64 {
    ranked(s)[s.len() as int / 2]
}

/// The bin of a frequency.
pub open spec fn bin_of(freq: nat, bin: nat) -> nat {
    away(freq, bin)
}

/// The nearest whole number of times one number holds another, halves upwards.
pub open spec fn away(a: nat, b: nat) -> nat {
    (2 * a + b) / (2 * b)
}

/// The bins the in-band reference is taken over.
pub open spec fn reference_span(len: nat, bin: nat, center: nat) -> (int, int) {
    let found = bin_of(REFERENCE_HALF as nat, bin);
    let half = if found < 1 { 1 } else { found };
    (if center > half { center - half } else { 0 }, if center + half < len { (center + half) as int } else { len - 1 })
}

/// The edge of the passband from a bin on, in the direction of `step`, where `below` bins in a
/// row were below the threshold: where the first run of low bins began, or the end of what is
/// measured where nothing drops.
pub open spec fn edge(bins: Seq<i64>, threshold: int, index: int, step: int, below: nat) -> int
    decreases (if step > 0 { bins.len() - index } else { index + 1 }),
{
    if index < 0 || index >= bins.len() || (step != 1 && step != -1) {
        if step > 0 { bins.len() - 1 } else { 0 }
    } else if bins[index] < threshold {
        if below + 1 >= EDGE_RUN {
            index - step * (EDGE_RUN - 1)
        } else {
            edge(bins, threshold, index + step, step, below + 1)
        }
    } else {
        edge(bins, threshold, index + step, step, 0)
    }
}

/// The receiver's passband width, measured from a smoothed noise spectrum.
pub open spec fn width(bins: Seq<i64>, bin: nat, center_freq: nat) -> Option<int> {
    let center = bin_of(center_freq, bin);
    if bins.len() == 0 || bin == 0 || center >= bins.len() {
        None
    } else {
        let (lo, hi) = reference_span(bins.len(), bin, center);
        let threshold = median(bins.subrange(lo, hi + 1)) - PASSBAND_DROP;
        let high = edge(bins, threshold, center as int, 1, 0);
        let low = edge(bins, threshold, center as int, -1, 0);
        Some(if high > low { (high - low) * bin } else { 0 })
    }
}

proof fn lemma_ranked_in(s: Seq<i64>, one: i64)
    ensures
        ranked_in(s, one).len() == s.len() + 1,
    decreases s.len(),
{
    if s.len() > 0 && s.last() > one {
        lemma_ranked_in(s.drop_last(), one);
    }
}

proof fn lemma_ranked(s: Seq<i64>)
    ensures
        ranked(s).len() == s.len(),
    decreases s.len(),
{
    if s.len() > 0 {
        lemma_ranked(s.drop_last());
        lemma_ranked_in(ranked(s.drop_last()), s.last());
    }
}

/// Whether levels go up.
pub open spec fn rising(s: Seq<i64>) -> bool {
    forall|i: int, j: int| 0 <= i <= j < s.len() ==> #[trigger] s[i] <= #[trigger] s[j]
}

proof fn lemma_rising_in(s: Seq<i64>, one: i64)
    requires
        rising(s),
    ensures
        rising(ranked_in(s, one)),
        ranked_in(s, one).len() == s.len() + 1,
        ranked_in(s, one).to_multiset() =~= s.to_multiset().insert(one),
        forall|i: int|
            0 <= i < ranked_in(s, one).len() ==> #[trigger] ranked_in(s, one)[i] == one || s.contains(
                ranked_in(s, one)[i],
            ),
    decreases s.len(),
{
    broadcast use vstd::seq_lib::group_to_multiset_ensures;

    let r = ranked_in(s, one);
    if s.len() == 0 || s.last() <= one {
        assert forall|i: int| 0 <= i < r.len() implies #[trigger] r[i] == one || s.contains(r[i]) by {
            if i < s.len() {
                assert(s[i] == r[i]);
            }
        }
        assert forall|i: int, j: int| 0 <= i <= j < r.len() implies #[trigger] r[i] <= #[trigger] r[j] by {
            if j == s.len() && i < s.len() {
                assert(s[i] <= s[s.len() - 1]);
            }
        }
    } else {
        let rest = s.drop_last();
        assert(rising(rest)) by {
            assert forall|i: int, j: int| 0 <= i <= j < rest.len() implies #[trigger] rest[i] <= #[trigger] rest[j] by {
                assert(rest[i] == s[i] && rest[j] == s[j]);
            }
        }
        lemma_rising_in(rest, one);
        let q = ranked_in(rest, one);
        assert(rest.push(s.last()) =~= s);
        assert(s.to_multiset() =~= rest.to_multiset().insert(s.last()));
        assert forall|i: int| 0 <= i < q.len() implies #[trigger] q[i] <= s.last() by {
            if q[i] != one {
                let k = choose|k: int| 0 <= k < rest.len() && rest[k] == q[i];
                assert(s[k] == rest[k]);
                assert(s[k] <= s[s.len() - 1]);
            }
        }
        assert forall|i: int| 0 <= i < r.len() implies #[trigger] r[i] == one || s.contains(r[i]) by {
            if i < q.len() {
                assert(r[i] == q[i]);
                if q[i] != one {
                    let k = choose|k: int| 0 <= k < rest.len() && rest[k] == q[i];
                    assert(s[k] == rest[k]);
                }
            } else {
                assert(s[s.len() - 1] == r[i]);
            }
        }
        assert forall|i: int, j: int| 0 <= i <= j < r.len() implies #[trigger] r[i] <= #[trigger] r[j] by {
            if j < q.len() {
                assert(r[i] == q[i] && r[j] == q[j]);
            } else if i < q.len() {
                assert(r[i] == q[i]);
            }
        }
    }
}

/// The levels in order are the levels: none is lost, none is made up, and none stands before a
/// lower one.
pub proof fn the_median_is_of_the_levels(s: Seq<i64>)
    ensures
        rising(ranked(s)),
        ranked(s).len() == s.len(),
        ranked(s).to_multiset() =~= s.to_multiset(),
    decreases s.len(),
{
    broadcast use vstd::seq_lib::group_to_multiset_ensures;

    if s.len() > 0 {
        the_median_is_of_the_levels(s.drop_last());
        lemma_rising_in(ranked(s.drop_last()), s.last());
        assert(s.drop_last().push(s.last()) =~= s);
    }
}

fn rank_in(out: &mut Vec<i64>, one: i64)
    ensures
        final(out)@ == ranked_in(old(out)@, one),
{
    let ghost s = out@;
    let mut at: usize = out.len();
    proof {
        assert(s.subrange(0, s.len() as int) =~= s);
        assert(s.subrange(s.len() as int, s.len() as int) =~= Seq::empty());
        assert(ranked_in(s, one) + Seq::<i64>::empty() =~= ranked_in(s, one));
    }
    while at > 0 && out[at - 1] > one
        invariant
            at <= out.len(),
            out@ == s,
            ranked_in(s, one) == ranked_in(s.subrange(0, at as int), one) + s.subrange(at as int, s.len() as int),
        decreases at,
    {
        proof {
            let p = s.subrange(0, at as int);
            assert(p.last() == s[at - 1]);
            assert(p.drop_last() =~= s.subrange(0, at - 1));
            let q = ranked_in(s.subrange(0, at - 1), one);
            assert(q.push(p.last()) + s.subrange(at as int, s.len() as int) =~= q + s.subrange(at - 1, s.len() as int));
        }
        at -= 1;
    }
    proof {
        let p = s.subrange(0, at as int);
        if at > 0 {
            assert(p.last() == s[at - 1]);
        }
        assert(ranked_in(p, one) == p.push(one));
        assert(s.insert(at as int, one) =~= p.push(one) + s.subrange(at as int, s.len() as int));
    }
    out.insert(at, one);
}

fn median_of(bins: &Vec<i64>, lo: usize, hi: usize) -> (r: i64)
    requires
        lo <= hi < bins.len(),
    ensures
        r == median(bins@.subrange(lo as int, hi + 1)),
{
    let mut out: Vec<i64> = Vec::new();
    let mut i: usize = lo;
    let ghost whole = bins@.subrange(lo as int, hi + 1);
    proof {
        assert(whole.subrange(0, 0) =~= Seq::empty());
    }
    while i <= hi
        invariant
            lo <= i <= hi + 1,
            hi < bins.len(),
            whole == bins@.subrange(lo as int, hi + 1),
            out@ == ranked(whole.subrange(0, i - lo)),
        decreases hi + 1 - i,
    {
        proof {
            let next = whole.subrange(0, i + 1 - lo);
            assert(next.drop_last() =~= whole.subrange(0, i - lo));
            assert(next.last() == bins@[i as int]);
        }
        rank_in(&mut out, bins[i]);
        i += 1;
    }
    proof {
        assert(whole.subrange(0, i - lo) =~= whole);
        lemma_ranked(whole);
    }
    out[(hi + 1 - lo) / 2]
}

fn nearest_bin(freq: u64, bin: u64) -> (r: u128)
    requires
        bin > 0,
    ensures
        r == bin_of(freq as nat, bin as nat),
{
    (2 * (freq as u128) + bin as u128) / (2 * (bin as u128))
}

fn upper_edge(bins: &Vec<i64>, threshold: i64, center: usize) -> (r: usize)
    requires
        center < bins.len(),
    ensures
        r == edge(bins@, threshold as int, center as int, 1, 0),
        r < bins.len(),
{
    let ghost goal = edge(bins@, threshold as int, center as int, 1, 0);
    let mut index: usize = center;
    let mut below: usize = 0;
    while index < bins.len()
        invariant
            index <= bins.len(),
            bins.len() > 0,
            below < EDGE_RUN,
            center + below <= index,
            goal == edge(bins@, threshold as int, center as int, 1, 0),
            goal == edge(bins@, threshold as int, index as int, 1, below as nat),
        decreases bins.len() - index,
    {
        if bins[index] < threshold {
            below += 1;
            if below >= EDGE_RUN {
                return index - (EDGE_RUN - 1);
            }
        } else {
            below = 0;
        }
        index += 1;
    }
    bins.len() - 1
}

fn lower_edge(bins: &Vec<i64>, threshold: i64, center: usize) -> (r: usize)
    requires
        center < bins.len(),
    ensures
        r == edge(bins@, threshold as int, center as int, -1, 0),
        r < bins.len(),
{
    let ghost goal = edge(bins@, threshold as int, center as int, -1, 0);
    let mut left: usize = center + 1;
    let mut below: usize = 0;
    while left > 0
        invariant
            left + below <= center + 1 <= bins.len(),
            below < EDGE_RUN,
            goal == edge(bins@, threshold as int, center as int, -1, 0),
            goal == edge(bins@, threshold as int, left - 1, -1, below as nat),
        decreases left,
    {
        let index: usize = left - 1;
        if bins[index] < threshold {
            below += 1;
            if below >= EDGE_RUN {
                return index + (EDGE_RUN - 1);
            }
        } else {
            below = 0;
        }
        left -= 1;
    }
    0
}

/// The receiver's passband width in millionths of a hertz, measured from a smoothed noise
/// spectrum of bins `bin` wide: the span between the bins either side of `center` where the
/// power has fallen below the in-band noise and stays there. `None` when there is nothing to
/// measure. Full width when nothing drops, so it can only ever report narrower than the truth,
/// never a false narrowing.
pub fn passband_width(bins: &Vec<i64>, bin: u64, center: u64) -> (r: Option<u128>)
    requires
        forall|i: int| 0 <= i < bins@.len() ==> -LEVEL_LIMIT <= #[trigger] bins@[i] <= LEVEL_LIMIT,
    ensures
        match r {
            Some(w) => width(bins@, bin as nat, center as nat) == Some(w as int),
            None => width(bins@, bin as nat, center as nat) is None,
        },
{
    if bins.len() == 0 || bin == 0 {
        return None;
    }
    let at: u128 = nearest_bin(center, bin);
    if at >= bins.len() as u128 {
        return None;
    }
    let middle: usize = at as usize;
    let found: u128 = nearest_bin(REFERENCE_HALF, bin);
    let half: u128 = if found < 1 { 1 } else { found };
    let lo: usize = if at > half { (at - half) as usize } else { 0 };
    let hi: usize = if at + half < bins.len() as u128 { (at + half) as usize } else { bins.len() - 1 };
    let reference: i64 = median_of(bins, lo, hi);
    proof {
        let part = bins@.subrange(lo as int, hi + 1);
        the_median_is_of_the_levels(part);
        lemma_median_is_a_level(part);
        let k = choose|k: int| 0 <= k < part.len() && part[k] == reference;
        assert(bins@[lo + k] == part[k]);
    }
    let threshold: i64 = reference - PASSBAND_DROP;
    let high: usize = upper_edge(bins, threshold, middle);
    let low: usize = lower_edge(bins, threshold, middle);
    if high > low {
        proof {
            assert((high - low) * bin <= u64::MAX * u64::MAX) by (nonlinear_arith)
                requires
                    0 <= high - low <= u64::MAX,
                    bin <= u64::MAX,
            ;
        }
        Some(((high - low) as u128) * (bin as u128))
    } else {
        Some(0)
    }
}

proof fn lemma_median_is_a_level(s: Seq<i64>)
    requires
        s.len() > 0,
    ensures
        s.contains(median(s)),
{
    broadcast use vstd::seq_lib::group_to_multiset_ensures;

    the_median_is_of_the_levels(s);
    let r = ranked(s);
    let k = s.len() as int / 2;
    assert(r.to_multiset().count(r[k]) > 0);
    assert(s.to_multiset().count(r[k]) > 0);
}

/// One spectrum, as the API reports it.
#[derive(Debug)]
pub struct Spectrum {
    /// The width of a bin.
    pub bin: u64,
    /// Power per bin, from 0 Hz upwards, full scale at nothing.
    pub bins: Vec<i64>,
}

/// Tracks the receiver's passband from the noise it delivers, so a radio filter set narrower
/// than the modem's bandwidth is caught without asking the rig anything. Band noise fills the
/// whole passband; a filter confines it, and the confinement is in the audio whatever the radio,
/// the mode or the keying. Fed only quiet audio, so what it measures is the receiver's own
/// shape, not a narrowband signal that happens to be on.
#[derive(Debug)]
pub struct PassbandMonitor {
    profile: Vec<i64>,
    bin: u64,
    seen: usize,
}

/// What a monitor has seen.
pub struct NoiseProfile {
    pub levels: Seq<i64>,
    pub bin: u64,
    pub seen: usize,
}

impl View for PassbandMonitor {
    type V = NoiseProfile;

    closed spec fn view(&self) -> NoiseProfile {
        NoiseProfile { levels: self.profile@, bin: self.bin, seen: self.seen }
    }
}

/// A running level with one more reading: a fifth of the way to it.
pub open spec fn smoothed(average: i64, now: i64) -> i64 {
    (average + fifth_of(now - average)) as i64
}

/// A fifth of a difference, towards nothing.
pub open spec fn fifth_of(d: int) -> int {
    if d >= 0 { d / 5 } else { -((-d) / 5) }
}

/// What a monitor has seen after one more spectrum.
pub open spec fn observed(p: NoiseProfile, bin: u64, levels: Seq<i64>) -> NoiseProfile {
    if p.levels.len() != levels.len() {
        NoiseProfile { levels, bin, seen: 1 }
    } else {
        NoiseProfile {
            levels: Seq::new(levels.len(), |i: int| smoothed(p.levels[i], levels[i])),
            bin,
            seen: if p.seen < usize::MAX { (p.seen + 1) as usize } else { usize::MAX },
        }
    }
}

/// Whether every level is one a spectrum can have.
pub open spec fn within_limit(s: Seq<i64>) -> bool {
    forall|i: int| 0 <= i < s.len() ==> -LEVEL_LIMIT <= #[trigger] s[i] <= LEVEL_LIMIT
}

impl PassbandMonitor {
    /// A fresh monitor.
    pub fn new() -> (r: Self)
        ensures
            r@ == (NoiseProfile { levels: Seq::empty(), bin: 0, seen: 0 }),
    {
        let r = PassbandMonitor { profile: Vec::new(), bin: 0, seen: 0 };
        proof {
            assert(r.profile@ =~= Seq::empty());
        }
        r
    }

    /// Fold a spectrum of quiet audio into the running noise profile.
    pub fn observe(&mut self, spectrum: &Spectrum)
        requires
            within_limit(old(self)@.levels),
            within_limit(spectrum.bins@),
        ensures
            final(self)@ == observed(old(self)@, spectrum.bin, spectrum.bins@),
            within_limit(final(self)@.levels),
    {
        let ghost before = self@;
        self.bin = spectrum.bin;
        let mut out: Vec<i64> = Vec::new();
        let mut i: usize = 0;
        if self.profile.len() != spectrum.bins.len() {
            while i < spectrum.bins.len()
                invariant
                    i <= spectrum.bins.len(),
                    out@ == spectrum.bins@.subrange(0, i as int),
                decreases spectrum.bins.len() - i,
            {
                out.push(spectrum.bins[i]);
                proof {
                    assert(spectrum.bins@.subrange(0, i + 1) =~= spectrum.bins@.subrange(0, i as int).push(
                        spectrum.bins@[i as int],
                    ));
                }
                i += 1;
            }
            proof {
                assert(out@ =~= spectrum.bins@);
            }
            self.profile = out;
            self.seen = 1;
            return;
        }
        while i < spectrum.bins.len()
            invariant
                i <= spectrum.bins.len(),
                self.profile@ == before.levels,
                self.profile.len() == spectrum.bins.len(),
                within_limit(before.levels),
                within_limit(spectrum.bins@),
                out@.len() == i,
                forall|j: int| 0 <= j < i ==> #[trigger] out@[j] == smoothed(before.levels[j], spectrum.bins@[j]),
                within_limit(out@),
            decreases spectrum.bins.len() - i,
        {
            let average: i64 = self.profile[i];
            let now: i64 = spectrum.bins[i];
            proof {
                assert(-LEVEL_LIMIT <= before.levels[i as int] <= LEVEL_LIMIT);
                assert(-LEVEL_LIMIT <= spectrum.bins@[i as int] <= LEVEL_LIMIT);
            }
            let d: i64 = now - average;
            let fifth: i64 = if d >= 0 { d / 5 } else { -((-d) / 5) };
            out.push(average + fifth);
            i += 1;
        }
        proof {
            assert(out@ =~= observed(before, spectrum.bin, spectrum.bins@).levels);
        }
        self.profile = out;
        if self.seen < usize::MAX {
            self.seen = self.seen + 1;
        }
    }

    /// The receiver's passband width around `center`, in millionths of a hertz, once enough
    /// quiet audio has been folded in for the estimate to be steady.
    pub fn width(&self, center: u64) -> (r: Option<u128>)
        requires
            within_limit(self@.levels),
        ensures
            match r {
                Some(w) => self@.seen >= MIN_OBSERVATIONS && width(self@.levels, self@.bin as nat, center as nat) == Some(
                    w as int,
                ),
                None => self@.seen < MIN_OBSERVATIONS || width(self@.levels, self@.bin as nat, center as nat) is None,
            },
            r is Some ==> self@.seen >= 12,
            self@.seen >= 12 && width(self@.levels, self@.bin as nat, center as nat) is Some ==> r is Some,
    {
        if self.seen < MIN_OBSERVATIONS {
            return None;
        }
        passband_width(&self.profile, self.bin, center)
    }

    /// How many spectra have been folded in.
    pub fn observations(&self) -> (r: usize)
        ensures
            r == self@.seen,
    {
        self.seen
    }
}

/// Silence and flat noise read as wide as what is measured: where no bin drops, the width runs
/// from the first bin to the last.
pub proof fn flat_noise_reads_wide(bins: Seq<i64>, bin: nat, center: nat, level: i64)
    requires
        bin > 0,
        bin_of(center, bin) < bins.len(),
        forall|i: int| 0 <= i < bins.len() ==> #[trigger] bins[i] == level,
    ensures
        width(bins, bin, center) == Some((bins.len() - 1) * bin),
{
    let at = bin_of(center, bin);
    let (lo, hi) = reference_span(bins.len(), bin, at);
    let part = bins.subrange(lo, hi + 1);
    lemma_median_is_a_level(part);
    let k = choose|k: int| 0 <= k < part.len() && part[k] == median(part);
    assert(part[k] == bins[lo + k]);
    let threshold = median(part) - PASSBAND_DROP;
    lemma_no_edge(bins, threshold, at as int, 1);
    lemma_no_edge(bins, threshold, at as int, -1);
    if bins.len() == 1 {
        assert((bins.len() - 1) * bin == 0) by (nonlinear_arith)
            requires
                bins.len() == 1,
        ;
    }
}

proof fn lemma_no_edge(bins: Seq<i64>, threshold: int, index: int, step: int)
    requires
        step == 1 || step == -1,
        -1 <= index <= bins.len(),
        forall|i: int| 0 <= i < bins.len() ==> #[trigger] bins[i] >= threshold,
    ensures
        edge(bins, threshold, index, step, 0) == if step > 0 { bins.len() - 1 } else { 0 },
    decreases (if step > 0 { bins.len() - index } else { index + 1 }),
{
    if 0 <= index < bins.len() {
        assert(bins[index] >= threshold);
        lemma_no_edge(bins, threshold, index + step, step);
    }
}

/// The newest audio is the same however it was cut up.
pub proof fn only_the_newest_window_is_kept(s: Seq<u32>, a: Seq<u32>, b: Seq<u32>)
    ensures
        newest(newest(s + a) + b) == newest(s + (a + b)),
        newest(s).len() <= WINDOW,
{
    assert(newest(newest(s + a) + b) =~= newest(s + (a + b)));
}

/// How far apart two levels are.
pub open spec fn between(a: int, b: int) -> int {
    if a >= b { a - b } else { b - a }
}

/// Folding a reading in moves a bin's level towards it: a fifth of the way, to the whole unit, and
/// never past it. So the level is nearer wherever they were five units or more apart.
pub proof fn a_reading_moves_the_level_towards_it(average: i64, now: i64)
    requires
        -LEVEL_LIMIT <= average <= LEVEL_LIMIT,
        -LEVEL_LIMIT <= now <= LEVEL_LIMIT,
    ensures
        ({
            let new = smoothed(average, now) as int;
            let d = between(average as int, now as int);
            &&& average <= now ==> average <= new <= now
            &&& average >= now ==> average >= new >= now
            &&& 4 * d <= 5 * between(new, now as int) < 4 * d + 5
            &&& d >= 5 ==> between(new, now as int) < d
        }),
{
}

/// A bin's level after the same reading was folded in so many times.
pub open spec fn settled(average: i64, now: i64, times: nat) -> i64
    decreases times,
{
    if times == 0 { average } else { smoothed(settled(average, now, (times - 1) as nat), now) }
}

/// What stays the same is what is measured in the end: the same reading, folded in again and again,
/// brings a level as near to it as makes no difference, wherever it began.
pub proof fn a_steady_reading_is_reached(average: i64, now: i64, times: nat)
    requires
        -LEVEL_LIMIT <= average <= LEVEL_LIMIT,
        -LEVEL_LIMIT <= now <= LEVEL_LIMIT,
    ensures
        -LEVEL_LIMIT <= settled(average, now, times) <= LEVEL_LIMIT,
        between(settled(average, now, times) as int, now as int) <= 4 || between(
            settled(average, now, times) as int,
            now as int,
        ) <= between(average as int, now as int) - times,
    decreases times,
{
    if times > 0 {
        a_steady_reading_is_reached(average, now, (times - 1) as nat);
        a_reading_moves_the_level_towards_it(settled(average, now, (times - 1) as nat), now);
    }
}

/// Every bin of a spectrum is folded into its own level; a first spectrum, or one of another size,
/// is taken as it is, and the count begins again.
pub proof fn each_bin_follows_its_own_readings(p: NoiseProfile, bin: u64, levels: Seq<i64>, i: int)
    requires
        within_limit(p.levels),
        within_limit(levels),
        0 <= i < levels.len(),
    ensures
        ({
            let o = observed(p, bin, levels);
            &&& o.bin == bin
            &&& o.levels.len() == levels.len()
            &&& p.levels.len() != levels.len() ==> o.levels[i] == levels[i] && o.seen == 1
            &&& p.levels.len() == levels.len() ==> {
                let old_level = p.levels[i] as int;
                let d = between(old_level, levels[i] as int);
                &&& 4 * d <= 5 * between(o.levels[i] as int, levels[i] as int) < 4 * d + 5
                &&& between(o.levels[i] as int, old_level) <= d
                &&& p.seen < usize::MAX ==> o.seen == p.seen + 1
            }
        }),
{
    if p.levels.len() == levels.len() {
        assert(-LEVEL_LIMIT <= p.levels[i] <= LEVEL_LIMIT);
        assert(-LEVEL_LIMIT <= levels[i] <= LEVEL_LIMIT);
        a_reading_moves_the_level_towards_it(p.levels[i], levels[i]);
    }
}

/// Whether the bins from one to another hold no three in a row that are low.
pub open spec fn no_gap(bins: Seq<i64>, threshold: int, from: int, to: int) -> bool {
    forall|j: int|
        from <= j && j + 2 <= to ==> !((#[trigger] bins[j]) < threshold && bins[j + 1] < threshold && bins[j + 2] < threshold)
}

proof fn lemma_upper_edge(bins: Seq<i64>, threshold: int, index: int, below: nat, last: int)
    requires
        0 <= index - below,
        index <= last + 1,
        last + 3 < bins.len(),
        below <= 2,
        forall|j: int| index - below <= j < index ==> (#[trigger] bins[j]) < threshold,
        no_gap(bins, threshold, index - below, last),
        bins[last] >= threshold,
        bins[last + 1] < threshold,
        bins[last + 2] < threshold,
        bins[last + 3] < threshold,
    ensures
        edge(bins, threshold, index, 1, below) == last + 1,
    decreases last + 1 - index,
{
    if index == last + 1 {
        if below > 0 {
            assert(bins[index - 1] < threshold);
        }
        reveal_with_fuel(edge, 4);
    } else if bins[index] < threshold {
        if below == 2 {
            assert(bins[index - 2] < threshold && bins[index - 1] < threshold);
        }
        lemma_upper_edge(bins, threshold, index + 1, below + 1, last);
    } else {
        assert forall|j: int| index + 1 <= j && j + 2 <= last implies !((#[trigger] bins[j]) < threshold && bins[j + 1]
            < threshold && bins[j + 2] < threshold) by {}
        lemma_upper_edge(bins, threshold, index + 1, 0, last);
    }
}

proof fn lemma_lower_edge(bins: Seq<i64>, threshold: int, index: int, below: nat, first: int)
    requires
        first >= 3,
        first - 1 <= index,
        index + below < bins.len(),
        below <= 2,
        forall|j: int| index < j <= index + below ==> (#[trigger] bins[j]) < threshold,
        no_gap(bins, threshold, first, index + below),
        bins[first] >= threshold,
        bins[first - 1] < threshold,
        bins[first - 2] < threshold,
        bins[first - 3] < threshold,
    ensures
        edge(bins, threshold, index, -1, below) == first - 1,
    decreases index + 1 - first,
{
    if index == first - 1 {
        if below > 0 {
            assert(bins[index + 1] < threshold);
        }
        reveal_with_fuel(edge, 4);
    } else if bins[index] < threshold {
        if below == 2 {
            assert(bins[index + 2] < threshold && bins[index + 1] < threshold);
            assert(!(bins[index] < threshold && bins[index + 1] < threshold && bins[index + 2] < threshold));
        }
        lemma_lower_edge(bins, threshold, index - 1, below + 1, first);
    } else {
        assert forall|j: int| first <= j && j + 2 <= index - 1 implies !((#[trigger] bins[j]) < threshold && bins[j + 1]
            < threshold && bins[j + 2] < threshold) by {}
        lemma_lower_edge(bins, threshold, index - 1, 0, first);
    }
}

/// A filter reads as wide as it is: where the noise within 180 Hz of the centre stands at one level,
/// and the bins from `first` to `last` round it never fall six decibels below that three times in a
/// row, but three in a row do on either side, the width is from the one side to the other.
pub proof fn a_filter_reads_as_wide_as_it_is(
    bins: Seq<i64>,
    bin: nat,
    center: nat,
    at: nat,
    level: i64,
    first: int,
    last: int,
)
    requires
        bin > 0,
        at * bin <= center + bin / 2 < at * bin + bin,
        3 <= first <= at <= last,
        last + 3 < bins.len(),
        forall|i: int|
            0 <= i < bins.len() && between(i, at as int) * bin <= 180_000_000 + bin ==> #[trigger] bins[i] == level,
        no_gap(bins, level - 6_000_000, first, last),
        bins[first] >= level - 6_000_000,
        bins[last] >= level - 6_000_000,
        forall|i: int|
            (first - 3 <= i < first || last < i <= last + 3) ==> (#[trigger] bins[i]) < level - 6_000_000,
    ensures
        width(bins, bin, center) == Some((last + 1 - (first - 1)) * bin),
{
    let found = bin_of(center, bin);
    assert(found == at) by {
        lemma_nearest_bin(center, bin, at);
    }
    let (lo, hi) = reference_span(bins.len(), bin, at);
    let half = bin_of(180_000_000, bin);
    lemma_within_reference(bin);
    let part = bins.subrange(lo, hi + 1);
    lemma_median_is_a_level(part);
    let k = choose|k: int| 0 <= k < part.len() && part[k] == median(part);
    assert(part[k] == bins[lo + k]);
    let span = if half < 1 { 1 } else { half };
    assert(between(lo + k, at as int) <= span);
    assert(between(lo + k, at as int) * bin <= span * bin) by (nonlinear_arith)
        requires
            0 <= between(lo + k, at as int) <= span,
            bin > 0,
    ;
    assert(median(part) == level);
    let threshold = level - 6_000_000;
    assert(bins[last + 1] < threshold && bins[last + 2] < threshold && bins[last + 3] < threshold);
    assert(bins[first - 1] < threshold && bins[first - 2] < threshold && bins[first - 3] < threshold);
    assert(no_gap(bins, threshold, at as int, last));
    assert(no_gap(bins, threshold, first, at as int));
    lemma_upper_edge(bins, threshold, at as int, 0, last);
    lemma_lower_edge(bins, threshold, at as int, 0, first);
}

proof fn lemma_nearest_bin(center: nat, bin: nat, at: nat)
    requires
        bin > 0,
        at * bin <= center + bin / 2 < at * bin + bin,
    ensures
        bin_of(center, bin) == at,
{
    let a = 2 * center + bin;
    let b = 2 * bin;
    assert(at * b == 2 * (at * bin)) by (nonlinear_arith)
        requires
            b == 2 * bin,
    ;
    assert(at * b <= a < at * b + b);
    assert(a / b == at) by (nonlinear_arith)
        requires
            at * b <= a < at * b + b,
            b > 0,
    ;
}

proof fn lemma_within_reference(bin: nat)
    requires
        bin > 0,
    ensures
        ({
            let half = bin_of(180_000_000, bin);
            let span = if half < 1 { 1 } else { half };
            span * bin <= 180_000_000 + bin
        }),
{
    let a = 2 * 180_000_000 + bin;
    let b = 2 * bin;
    let half = bin_of(180_000_000, bin);
    assert(half * b <= a) by (nonlinear_arith)
        requires
            half == a / b,
            b > 0,
    ;
    assert(half * b == 2 * (half * bin)) by (nonlinear_arith)
        requires
            b == 2 * bin,
    ;
    if half < 1 {
        assert(1 * bin == bin);
    }
}

/// The bins that are reported are those up to 4000 Hz, and no more than half a window of 4096.
pub proof fn bins_are_reported_to_the_top(sample_rate: nat)
    requires
        sample_rate > 0,
    ensures
        ({
            let n = bins_reported(sample_rate);
            &&& 1 <= n <= 2049
            &&& (n - 1) * sample_rate <= 4000 * 4096
            &&& n < 2049 ==> n * sample_rate > 4000 * 4096
        }),
{
    let top = (4000nat * 4096) / sample_rate;
    let whole = 4000nat * 4096;
    assert(top * sample_rate <= whole < (top + 1) * sample_rate) by (nonlinear_arith)
        requires
            top == whole / sample_rate,
            sample_rate > 0,
    ;
    if top >= 2048 {
        assert(2048 * sample_rate <= top * sample_rate) by (nonlinear_arith)
            requires
                top >= 2048,
        ;
    }
}

/// The window that is kept is the end of what was heard: no more than 4096 samples, and all of it
/// where there are no more.
pub proof fn the_newest_is_the_end(s: Seq<u32>)
    ensures
        s.len() <= 4096 ==> newest(s) =~= s,
        s.len() > 4096 ==> newest(s).len() == 4096 && forall|i: int|
            0 <= i < 4096 ==> #[trigger] newest(s)[i] == s[s.len() - 4096 + i],
{
}

} // verus!
