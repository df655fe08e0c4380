//! What the sound card is delivering, over the last few seconds.
//!
//! The audio level is the setting new operators get wrong most. A meter that says "too quiet",
//! "clipping" or "good" is worth more than any amount of documentation about what a sound card
//! mixer should look like.
use vstd::prelude::*;

verus! {

/// What the sound card is delivering, over the last few seconds.
#[derive(Clone, Copy, PartialEq, Eq, Structural, Debug)]
pub struct LevelReading {
    /// RMS over the window, in thousandths of a decibel relative to full scale.
    pub rms_mdbfs: i64,
    /// The loudest single sample, in thousandths of a decibel relative to full scale.
    pub peak_mdbfs: i64,
    /// Samples at or beyond full scale.
    pub clipped: u64,
    /// Samples in all.
    pub count: u64,
    /// Whether enough audio has been seen for the reading to mean anything.
    pub settled: bool,
}

impl LevelReading {
    /// What an operator should do about it, in a sentence.
    pub open spec fn says(self) -> Seq<char> {
        if !self.settled {
            "Still listening."@
        } else if self.clipped * 2000 > self.count {
            "Clipping. Turn the radio's audio output or the sound card's input down."@
        } else if self.peak_mdbfs > -3000 {
            "Almost clipping. Turn the input down a little to leave headroom."@
        } else if self.rms_mdbfs < -40_000 {
            "Very quiet. Turn the radio's audio output or the sound card's input up."@
        } else {
            "Good."@
        }
    }

    /// What an operator should do about it, in a sentence.
    ///
    /// The thresholds are the usual ones for a sound-card interface: clipping is never
    /// acceptable, a peak within a few decibels of full scale leaves no headroom for a stronger
    /// station, and a level below about −40 dBFS is inside the card's own noise.
    pub fn advice(&self) -> (r: &'static str)
        ensures
            r@ == self.says(),
    {
        if !self.settled {
            "Still listening."
        } else if (self.clipped as u128) * 2000 > self.count as u128 {
            "Clipping. Turn the radio's audio output or the sound card's input down."
        } else if self.peak_mdbfs > -3000 {
            "Almost clipping. Turn the input down a little to leave headroom."
        } else if self.rms_mdbfs < -40_000 {
            "Very quiet. Turn the radio's audio output or the sound card's input up."
        } else {
            "Good."
        }
    }
}

/// What one block of captured audio measured.
#[derive(Clone, Copy, PartialEq, Eq, Structural, Debug)]
pub struct Block {
    /// The sum of the squares of its samples.
    pub power: u64,
    /// Its loudest sample.
    pub peak: u64,
    /// How many of its samples were at or beyond full scale.
    pub clipped: u64,
    /// How many samples it has.
    pub length: u64,
}

/// Whether a sample is at or beyond full scale, by the bits of its single-precision number: below
/// the sign they are in the order of its size, one is `0x3F80_0000`, and past `0x7F80_0000` there
/// are no numbers.
pub open spec fn at_full_scale(sample: u32) -> bool {
    0x3F80_0000 <= sample % 0x8000_0000 <= 0x7F80_0000
}

/// How many of some samples are at or beyond full scale.
pub open spec fn clipped_in(audio: Seq<u32>) -> nat
    decreases audio.len(),
{
    if audio.len() == 0 {
        0
    } else {
        clipped_in(audio.drop_last()) + if at_full_scale(audio.last()) { 1nat } else { 0nat }
    }
}

impl Block {
    /// What a block of audio measured: the sum of the squares of its samples and the loudest, and
    /// the samples themselves, as the bits of single-precision numbers.
    pub fn new(power: u64, peak: u64, audio: &Vec<u32>) -> (r: Self)
        ensures
            r.power == power,
            r.peak == peak,
            r.clipped == clipped_in(audio@),
            r.length == audio@.len(),
    {
        let mut clipped: u64 = 0;
        let mut i: usize = 0;
        proof {
            assert(audio@.subrange(0, 0) =~= Seq::empty());
        }
        while i < audio.len()
            invariant
                i <= audio.len(),
                clipped <= i,
                clipped == clipped_in(audio@.subrange(0, i as int)),
            decreases audio.len() - i,
        {
            let size: u32 = audio[i] % 0x8000_0000;
            proof {
                let next = audio@.subrange(0, i + 1);
                assert(next.drop_last() =~= audio@.subrange(0, i as int));
                assert(next.last() == audio@[i as int]);
            }
            if 0x3F80_0000 <= size && size <= 0x7F80_0000 {
                clipped += 1;
            }
            i += 1;
        }
        proof {
            assert(audio@.subrange(0, i as int) =~= audio@);
        }
        Block { power, peak, clipped, length: audio.len() as u64 }
    }
}

/// What the blocks held measure together.
#[derive(Clone, Copy, PartialEq, Eq, Structural, Debug)]
pub struct Totals {
    /// The sum of the squares of the samples.
    pub power: u128,
    /// The loudest sample.
    pub peak: u64,
    /// How many samples were at or beyond full scale.
    pub clipped: u128,
    /// How many samples there are.
    pub held: u64,
    /// Whether that is enough for a reading to mean anything.
    pub settled: bool,
}

/// A rolling meter over the last few seconds of captured audio.
#[derive(Debug)]
pub struct LevelMeter {
    window: u64,
    blocks: Vec<Block>,
    held: u64,
}

/// How many samples some blocks have.
pub open spec fn lengths(s: Seq<Block>) -> nat
    decreases s.len(),
{
    if s.len() == 0 { 0 } else { lengths(s.drop_first()) + s[0].length as nat }
}

/// Blocks without the oldest, until no more than a window of them is held.
pub open spec fn trimmed(s: Seq<Block>, window: nat) -> Seq<Block>
    decreases s.len(),
{
    if s.len() == 0 || lengths(s) <= window { s } else { trimmed(s.drop_first(), window) }
}

/// The sum of the squares over some blocks.
pub open spec fn powers(s: Seq<Block>) -> nat
    decreases s.len(),
{
    if s.len() == 0 { 0 } else { powers(s.drop_last()) + s.last().power as nat }
}

/// The loudest sample of some blocks.
pub open spec fn loudest(s: Seq<Block>) -> u64
    decreases s.len(),
{
    if s.len() == 0 {
        0
    } else {
        let before = loudest(s.drop_last());
        if s.last().peak > before { s.last().peak } else { before }
    }
}

/// How many samples of some blocks were at or beyond full scale.
pub open spec fn clips(s: Seq<Block>) -> nat
    decreases s.len(),
{
    if s.len() == 0 { 0 } else { clips(s.drop_last()) + s.last().clipped as nat }
}

proof fn lemma_lengths_push(s: Seq<Block>, b: Block)
    ensures
        lengths(s.push(b)) == lengths(s) + b.length as nat,
    decreases s.len(),
{
    if s.len() == 0 {
        assert(s.push(b).drop_first() =~= Seq::empty());
        assert(lengths(s.push(b).drop_first()) == 0);
    } else {
        assert(s.push(b).drop_first() =~= s.drop_first().push(b));
        lemma_lengths_push(s.drop_first(), b);
    }
}

impl LevelMeter {
    /// The blocks held.
    pub closed spec fn kept(self) -> Seq<Block> {
        self.blocks@
    }

    /// How many samples are looked back over.
    pub closed spec fn span(self) -> u64 {
        self.window
    }

    /// Whether the count of samples is the blocks', and no more than a window.
    pub closed spec fn wf(self) -> bool {
        self.held as nat == lengths(self.blocks@) && self.held <= self.window
    }

    /// A meter over so many samples.
    pub fn new(window: u64) -> (r: Self)
        ensures
            r.wf(),
            r.kept() == Seq::<Block>::empty(),
            r.span() == window,
    {
        LevelMeter { window, blocks: Vec::new(), held: 0 }
    }

    /// Take one block's measure in, and forget the oldest past the window. An empty block
    /// measures nothing.
    pub fn push(&mut self, block: Block)
        requires
            old(self).wf(),
        ensures
            final(self).wf(),
            final(self).span() == old(self).span(),
            final(self).kept() == if block.length == 0 {
                old(self).kept()
            } else {
                trimmed(old(self).kept().push(block), old(self).span() as nat)
            },
    {
        if block.length == 0 {
            return;
        }
        let ghost all = self.blocks@.push(block);
        proof {
            lemma_lengths_push(self.blocks@, block);
        }
        self.blocks.push(block);
        let mut held: u128 = self.held as u128 + block.length as u128;
        while held > self.window as u128 && self.blocks.len() > 0
            invariant
                held as nat == lengths(self.blocks@),
                trimmed(all, self.window as nat) == trimmed(self.blocks@, self.window as nat),
                self.window == old(self).window,
            decreases self.blocks.len(),
        {
            let ghost before = self.blocks@;
            let gone: Block = self.blocks.remove(0);
            proof {
                assert(self.blocks@ =~= before.drop_first());
            }
            held = held - gone.length as u128;
        }
        self.held = held as u64;
    }

    /// What the blocks held measure together.
    pub fn totals(&self) -> (r: Totals)
        requires
            self.wf(),
        ensures
            r.power as nat == powers(self.kept()),
            r.peak == loudest(self.kept()),
            r.clipped as nat == clips(self.kept()),
            r.held as nat == lengths(self.kept()),
            r.settled == (lengths(self.kept()) >= self.span() as nat / 2),
    {
        let mut power: u128 = 0;
        let mut peak: u64 = 0;
        let mut clipped: u128 = 0;
        let mut i: usize = 0;
        let ghost s = self.blocks@;
        proof {
            assert(s.subrange(0, 0) =~= Seq::empty());
        }
        while i < self.blocks.len()
            invariant
                i <= self.blocks.len(),
                s == self.blocks@,
                power as nat == powers(s.subrange(0, i as int)),
                power <= i * u64::MAX,
                peak == loudest(s.subrange(0, i as int)),
                clipped as nat == clips(s.subrange(0, i as int)),
                clipped <= i * u64::MAX,
            decreases self.blocks.len() - i,
        {
            let b: Block = self.blocks[i];
            proof {
                assert(s.subrange(0, i + 1).drop_last() =~= s.subrange(0, i as int));
                assert(s.subrange(0, i + 1).last() == b);
                assert((i + 1) * u64::MAX == i * u64::MAX + u64::MAX) by (nonlinear_arith);
                assert(i * u64::MAX <= u64::MAX * u64::MAX) by (nonlinear_arith)
                    requires
                        i <= u64::MAX,
                ;
            }
            power = power + b.power as u128;
            if b.peak > peak {
                peak = b.peak;
            }
            clipped = clipped + b.clipped as u128;
            i += 1;
        }
        proof {
            assert(s.subrange(0, i as int) =~= s);
        }
        Totals { power, peak, clipped, held: self.held, settled: self.held >= self.window / 2 }
    }
}

/// The meter never holds more than its window.
pub proof fn the_meter_holds_a_window(s: Seq<Block>, window: nat)
    ensures
        lengths(trimmed(s, window)) <= window,
    decreases s.len(),
{
    if s.len() > 0 && lengths(s) > window {
        the_meter_holds_a_window(s.drop_first(), window);
    }
}

} // verus!
