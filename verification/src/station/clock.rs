//! The two playback clocks, and how the transmission now running stands against them.
//!
//! A whole burst is handed to the sound card as soon as it is rendered, so the station's own
//! queue drains long before the audio has left; the key is released when the card has consumed
//! as many samples since keying as the station handed it since keying. The card's clock runs
//! through the idle time too and the station's does not, so only the spans since keying compare.
use vstd::prelude::*;

verus! {

/// The two playback clocks.
#[derive(Clone, Copy, PartialEq, Eq, Structural, Debug)]
pub struct PlaybackClock {
    /// Samples handed to the sound card so far, silence included.
    pub handed: u64,
    /// The sound card's own clock as last reported by the run loop: samples it has consumed
    /// since it opened. `None` for a harness that never reports one, whose key is released the
    /// moment the queue drains.
    pub device_played: Option<u64>,
    /// Where the station's clock stood when the transmission now running was keyed.
    pub handed_at_key: u64,
    /// Where the card's clock stood then.
    pub played_at_key: Option<u64>,
    /// The transmission now running was cut short: what the card still held was dropped, so the
    /// key is released as soon as the station's own queue is empty.
    pub cut_short: bool,
    /// Whether the run loop should drop what the sound card still holds.
    pub flush_device: bool,
}

/// What is left of a number once another is taken off it, never below nothing.
pub open spec fn less(a: int, b: int) -> int {
    if a > b { a - b } else { 0 }
}

impl PlaybackClock {
    /// Whether the transmission now running was keyed before anything of it was handed over.
    pub open spec fn wf(self) -> bool {
        self.handed_at_key <= self.handed
    }

    /// Samples handed over since the key went down.
    pub open spec fn sent(self) -> int {
        self.handed - self.handed_at_key
    }

    /// How many samples the sound card has played past the last one handed to it for the
    /// transmission now running.
    pub open spec fn past(self) -> Option<int> {
        match (self.device_played, self.played_at_key) {
            (Some(played), Some(at_key)) => Some(less(less(played as int, at_key as int), self.sent())),
            _ => None,
        }
    }

    /// Whether the card's clock has reached the last sample handed for this transmission.
    pub open spec fn reached(self) -> bool {
        match (self.device_played, self.played_at_key) {
            (Some(played), Some(at_key)) => less(played as int, at_key as int) >= self.sent(),
            _ => true,
        }
    }

    /// Both clocks at nothing.
    pub open spec fn start() -> PlaybackClock {
        PlaybackClock {
            handed: 0,
            device_played: None,
            handed_at_key: 0,
            played_at_key: None,
            cut_short: false,
            flush_device: false,
        }
    }

    /// The clocks as the key goes down.
    pub open spec fn keyed(self) -> PlaybackClock {
        PlaybackClock {
            handed_at_key: self.handed,
            played_at_key: self.device_played,
            cut_short: false,
            ..self
        }
    }

    /// The clocks as a transmission is cut short.
    pub open spec fn cut(self) -> PlaybackClock {
        PlaybackClock { flush_device: true, cut_short: true, ..self }
    }

    /// The clocks as a transmission is given up: what the card holds is dropped, and nothing
    /// is left to wait for.
    pub open spec fn dropped(self) -> PlaybackClock {
        PlaybackClock { flush_device: true, cut_short: false, ..self }
    }

    /// Both clocks at nothing.
    pub fn new() -> (r: Self)
        ensures
            r == PlaybackClock::start(),
            r.wf(),
    {
        PlaybackClock {
            handed: 0,
            device_played: None,
            handed_at_key: 0,
            played_at_key: None,
            cut_short: false,
            flush_device: false,
        }
    }

    /// How many samples the sound card has played past the last one handed to it for the
    /// transmission now running: `Some(0)` while that is still leaving, `None` for a harness
    /// that reports no clock.
    pub fn played_past_transmission(&self) -> (r: Option<u64>)
        requires
            self.wf(),
        ensures
            match r {
                Some(n) => self.past() == Some(n as int),
                None => self.past() is None,
            },
    {
        match (self.device_played, self.played_at_key) {
            (Some(played), Some(at_key)) => {
                let since: u64 = if played > at_key { played - at_key } else { 0 };
                let sent: u64 = self.handed - self.handed_at_key;
                Some(if since > sent { since - sent } else { 0 })
            },
            _ => None,
        }
    }

    /// Whether the card's clock has reached the last sample handed for this transmission. A
    /// harness that reports no clock is taken at its word the moment the queue drains.
    pub fn caught_up(&self) -> (r: bool)
        requires
            self.wf(),
        ensures
            r == self.reached(),
    {
        match (self.device_played, self.played_at_key) {
            (Some(played), Some(at_key)) => {
                let since: u64 = if played > at_key { played - at_key } else { 0 };
                since >= self.handed - self.handed_at_key
            },
            _ => true,
        }
    }
}

/// How many of a block's baseband samples came in after a transmission had wholly left the
/// sound card, where the card has played `past` samples beyond it, of `captured` audio samples
/// that became `baseband` baseband ones: to the nearest, halves upwards.
pub open spec fn after_transmission(past: Option<int>, captured: nat, baseband: nat) -> nat {
    match past {
        Some(p) => if p == 0 || captured == 0 {
            0
        } else {
            let n = if p < captured { p as nat } else { captured };
            let after = n * baseband / captured + if 2 * (n * baseband % captured) >= captured { 1nat } else { 0nat };
            if after < baseband { after } else { baseband }
        },
        None => 0,
    }
}

/// How many of the baseband samples of the block just captured came in after the transmission
/// now running had wholly left the sound card. The card's playback clock and the capture run at
/// one rate, so what the card has played past the transmission's last sample is what the capture
/// holds past it.
pub fn captured_after_transmission(clock: &PlaybackClock, captured: usize, baseband: usize) -> (r: usize)
    requires
        clock.wf(),
    ensures
        r == after_transmission(clock.past(), captured as nat, baseband as nat),
        r <= baseband,
{
    let past: u64 = match clock.played_past_transmission() {
        Some(p) => p,
        None => 0,
    };
    if past == 0 || captured == 0 {
        return 0;
    }
    let n: u64 = if past < captured as u64 { past } else { captured as u64 };
    proof {
        assert(n * baseband <= u64::MAX * u64::MAX) by (nonlinear_arith)
            requires
                n <= u64::MAX,
                baseband <= u64::MAX,
        ;
    }
    let product: u128 = (n as u128) * (baseband as u128);
    let down: u128 = product / (captured as u128);
    let rest: u128 = product % (captured as u128);
    proof {
        assert(down <= product) by (nonlinear_arith)
            requires
                captured >= 1,
                down == product / (captured as u128),
        ;
    }
    let after: u128 = down + if 2 * rest >= captured as u128 { 1 } else { 0 };
    if after < baseband as u128 { after as usize } else { baseband }
}

/// A transmission that the card has played past is over: its last sample has left.
pub proof fn past_it_is_over(c: PlaybackClock)
    requires
        c.wf(),
        c.past() matches Some(n) && n > 0,
    ensures
        c.reached(),
{
}

/// Nothing has been sent the moment the key goes down, and each clock counts from there.
pub proof fn keying_starts_the_count(c: PlaybackClock)
    requires
        c.wf(),
    ensures
        c.keyed().wf(),
        c.keyed().sent() == 0,
        c.keyed().reached(),
        !c.keyed().cut_short,
{
}

} // verus!
