//! A simulated channel between two daemons, in place of a sound card.
//!
//! Two stations on one machine, or two machines on one network, joined by a socket, with noise
//! added at a chosen signal-to-noise ratio and the samples paced by the wall clock. The channel
//! is additive white Gaussian noise only: this is a wire with noise on it, and it says so.
//!
//! A sound card delivers samples at its own rate whether or not anything is playing, and the
//! modem's clock is the audio it has heard, so this does the same: every capture returns as
//! many samples as the wall clock says have elapsed, taken from what the peer sent and padded
//! with silence when it sent nothing. What this side plays goes to the peer as soon as it is
//! queued.
//!
//! Samples are 32-bit floating-point numbers, carried by their bits; times are in microseconds
//! of the wall clock.
use vstd::prelude::*;

use crate::record::{le32, u32_at};
use crate::text::{cat, round_text, rounded};

verus! {

/// How the two ends find each other.
#[derive(Debug)]
pub enum Peer {
    /// Wait for the other end to connect here.
    Listen(String),
    /// Connect to the other end, retrying until it answers.
    Connect(String),
}

/// A simulated channel's settings.
#[derive(Debug)]
pub struct SimConfig {
    /// The other end.
    pub peer: Peer,
    /// Signal to noise at this receiver, in a 3 kHz noise bandwidth, in thousandths of a
    /// decibel.
    pub snr_mdb: i64,
    /// Samples per second.
    pub sample_rate: u32,
}

/// Twenty milliseconds: capture hands over at least this much at a time, like a sound card.
pub const MIN_BLOCK_US: u64 = 20_000;

/// How long an end that connects looks for the other.
pub const SEARCH_US: u64 = 30_000_000;

/// How long it waits between two tries.
pub const RETRY_US: u64 = 250_000;

/// A second, in microseconds.
pub const SECOND_US: u64 = 1_000_000;

/// Whether an end that found nobody tries again.
pub fn tries_again(started_us: u64, now_us: u64) -> (r: bool)
    ensures
        r == (now_us < started_us + SEARCH_US),
        r <==> now_us < started_us + 30_000_000,
{
    now_us < started_us || now_us - started_us < SEARCH_US
}

/// How the channel is spoken of in the log.
pub open spec fn channel_text(config: SimConfig) -> Seq<char> {
    "simulated channel ("@ + match config.peer {
        Peer::Listen(a) => "listening on "@ + a@,
        Peer::Connect(a) => "connecting to "@ + a@,
    } + "), "@ + rounded(config.snr_mdb as int) + " dB SNR in 3 kHz"@
}

/// Noise from a small deterministic generator: a failure is reproducible.
#[derive(Clone, Copy, PartialEq, Eq, Structural, Debug)]
pub struct Noise {
    state: u64,
}

/// One step of the generator.
pub open spec fn stirred(s: u64) -> u64 {
    let a = s ^ (s >> 12u64);
    let b = a ^ (a << 25u64);
    b ^ (b >> 27u64)
}

/// The 53 bits a state of the generator gives.
pub open spec fn drawn(s: u64) -> u64 {
    s.wrapping_mul(0x2545_F491_4F6C_DD1D) >> 11u64
}

impl Noise {
    /// The state of the generator.
    pub closed spec fn at(self) -> u64 {
        self.state
    }

    /// A generator from a seed.
    pub fn new(seed: u64) -> (r: Self)
        ensures
            r.at() == seed | 1,
            r.at() != 0,
    {
        let state: u64 = seed | 1;
        proof {
            assert(seed | 1 != 0) by (bit_vector);
        }
        Noise { state }
    }

    /// The next number, of 53 bits: in units of which 2^53 are one.
    pub fn uniform(&mut self) -> (r: u64)
        ensures
            final(self).at() == stirred(old(self).at()),
            r == drawn(final(self).at()),
            r < 0x20_0000_0000_0000,
            old(self).at() != 0 ==> final(self).at() != 0,
    {
        let s: u64 = self.state;
        let a: u64 = s ^ (s >> 12u64);
        let b: u64 = a ^ (a << 25u64);
        self.state = b ^ (b >> 27u64);
        proof {
            the_generator_never_dies(s);
        }
        let m: u64 = self.state.wrapping_mul(0x2545_F491_4F6C_DD1D);
        proof {
            assert((m >> 11u64) < 0x20_0000_0000_0000) by (bit_vector);
        }
        m >> 11u64
    }
}

/// A generator that runs goes on running: no step leads to the state it could not leave.
pub proof fn the_generator_never_dies(s: u64)
    ensures
        s != 0 ==> stirred(s) != 0,
{
    assert(s != 0 ==> (s ^ (s >> 12u64)) != 0) by (bit_vector);
    let a = s ^ (s >> 12u64);
    assert(a != 0 ==> (a ^ (a << 25u64)) != 0) by (bit_vector);
    let b = a ^ (a << 25u64);
    assert(b != 0 ==> (b ^ (b >> 27u64)) != 0) by (bit_vector);
}

/// The channel, from one end.
#[derive(Debug)]
pub struct SimLink {
    /// Human-readable, for the log.
    description: String,
    sample_rate: u32,
    /// What the peer sent, not yet delivered as captured audio.
    from_peer: Vec<u32>,
    /// The bytes of a sample that has not arrived whole.
    pending: Vec<u8>,
    connected: bool,
    lost: bool,
    /// Where the clock was when capture last ran.
    last_capture_us: u64,
    /// What was left of a sample at the last capture, in millionths, so the rate is exact over
    /// time.
    carry: u64,
    /// Samples played in total.
    played: u64,
    /// How many of them the wall clock has consumed, and when that was last worked out.
    consumed: u64,
    consumed_at_us: u64,
}

/// What one end of the channel is.
pub struct Wire {
    pub description: Seq<char>,
    pub sample_rate: u32,
    pub from_peer: Seq<u32>,
    pub pending: Seq<u8>,
    pub connected: bool,
    pub lost: bool,
    pub last_capture_us: u64,
    pub carry: u64,
    pub played: u64,
    pub consumed: u64,
    pub consumed_at_us: u64,
}

impl View for SimLink {
    type V = Wire;

    closed spec fn view(&self) -> Wire {
        Wire {
            description: self.description@,
            sample_rate: self.sample_rate,
            from_peer: self.from_peer@,
            pending: self.pending@,
            connected: self.connected,
            lost: self.lost,
            last_capture_us: self.last_capture_us,
            carry: self.carry,
            played: self.played,
            consumed: self.consumed,
            consumed_at_us: self.consumed_at_us,
        }
    }
}

impl Wire {
    /// Whether less than a sample is carried or pending, and no more was consumed than played.
    pub open spec fn wf(self) -> bool {
        self.carry < SECOND_US && self.consumed <= self.played && self.pending.len() < 4
    }
}

/// The whole samples of some bytes.
pub open spec fn words(b: Seq<u8>) -> Seq<u32> {
    Seq::new(b.len() / 4, |i: int| u32_at(b, 4 * i) as u32)
}

/// What is behind the whole samples of some bytes.
pub open spec fn rest_of(b: Seq<u8>) -> Seq<u8> {
    b.subrange(b.len() - b.len() % 4, b.len() as int)
}

/// One end after bytes have arrived: a read can end in the middle of a sample, and the odd
/// bytes wait for the next one.
pub open spec fn after_bytes(w: Wire, bytes: Seq<u8>) -> Wire {
    let all = w.pending + bytes;
    Wire { from_peer: w.from_peer + words(all), pending: rest_of(all), ..w }
}

/// How much of the wall clock has passed since a moment.
pub open spec fn since(then: u64, now: u64) -> nat {
    if now >= then { (now - then) as nat } else { 0 }
}

/// Audio padded with silence, or cut, to a length.
pub open spec fn fitted(s: Seq<u32>, count: nat) -> Seq<u32> {
    Seq::new(count, |i: int| if i < s.len() { s[i] } else { 0u32 })
}

/// How many samples the wall clock has made, in millionths.
pub open spec fn owed(w: Wire, now_us: u64) -> nat {
    since(w.last_capture_us, now_us) * w.sample_rate as nat + w.carry as nat
}

/// One end after a capture.
pub open spec fn after_capture(w: Wire, now_us: u64) -> Wire {
    if since(w.last_capture_us, now_us) < MIN_BLOCK_US {
        w
    } else {
        let count = owed(w, now_us) / SECOND_US as nat;
        Wire {
            last_capture_us: now_us,
            carry: (owed(w, now_us) % SECOND_US as nat) as u64,
            from_peer: if count < w.from_peer.len() {
                w.from_peer.subrange(count as int, w.from_peer.len() as int)
            } else {
                Seq::empty()
            },
            ..w
        }
    }
}

/// What a capture hands over.
pub open spec fn captured(w: Wire, now_us: u64) -> Seq<u32> {
    if since(w.last_capture_us, now_us) < MIN_BLOCK_US {
        Seq::empty()
    } else {
        fitted(w.from_peer, owed(w, now_us) / SECOND_US as nat)
    }
}

/// How much of what was played the clock has consumed: at the sample rate, and no faster than
/// it was played, so an idle stretch does not build up a debt.
pub open spec fn consumed_by(w: Wire, now_us: u64) -> nat {
    let due = w.consumed as nat + since(w.consumed_at_us, now_us) * w.sample_rate as nat / SECOND_US as nat;
    if due < w.played { due } else { w.played as nat }
}

/// Samples as bytes.
pub open spec fn bytes_of(samples: Seq<u32>) -> Seq<u8> {
    Seq::new(4 * samples.len(), |i: int| le32(samples[i / 4] as nat)[i % 4])
}

fn elapsed(then: u64, now: u64) -> (r: u64)
    ensures
        r == since(then, now),
{
    if now >= then { now - then } else { 0 }
}

fn sample_bytes(samples: &Vec<u32>) -> (r: Vec<u8>)
    ensures
        r@ == bytes_of(samples@),
{
    let mut out: Vec<u8> = Vec::new();
    let mut i: usize = 0;
    while i < samples.len()
        invariant
            i <= samples.len(),
            out@.len() == 4 * i,
            forall|j: int| 0 <= j < 4 * i ==> #[trigger] out@[j] == bytes_of(samples@)[j],
        decreases samples.len() - i,
    {
        let n: u32 = samples[i];
        let ghost before = out@;
        out.push((n % 256) as u8);
        out.push((n / 256 % 256) as u8);
        out.push((n / 65_536 % 256) as u8);
        out.push((n / 16_777_216) as u8);
        proof {
            assert forall|j: int| 0 <= j < 4 * (i + 1) implies #[trigger] out@[j] == bytes_of(samples@)[j] by {
                if j < 4 * i {
                    assert(out@[j] == before[j]);
                } else {
                    assert(j / 4 == i);
                    assert(out@[j] == le32(n as nat)[j - 4 * i]);
                }
            }
        }
        i += 1;
    }
    proof {
        assert(out@ =~= bytes_of(samples@));
    }
    out
}

impl SimLink {
    /// Open the channel. Until the peer is there the channel is silence, so either daemon may
    /// be started first.
    pub fn open(config: &SimConfig, now_us: u64) -> (r: Self)
        ensures
            r@ == (Wire {
                description: channel_text(*config),
                sample_rate: config.sample_rate,
                from_peer: Seq::empty(),
                pending: Seq::empty(),
                connected: false,
                lost: false,
                last_capture_us: now_us,
                carry: 0,
                played: 0,
                consumed: 0,
                consumed_at_us: now_us,
            }),
            r@.wf(),
    {
        let who = match &config.peer {
            Peer::Listen(a) => cat("listening on ", a),
            Peer::Connect(a) => cat("connecting to ", a),
        };
        let mut description = cat("simulated channel (", &who);
        description.append("), ");
        description.append(&round_text(config.snr_mdb as i128));
        description.append(" dB SNR in 3 kHz");
        SimLink {
            description,
            sample_rate: config.sample_rate,
            from_peer: Vec::new(),
            pending: Vec::new(),
            connected: false,
            lost: false,
            last_capture_us: now_us,
            carry: 0,
            played: 0,
            consumed: 0,
            consumed_at_us: now_us,
        }
    }

    /// How the channel is spoken of in the log.
    pub fn description(&self) -> (r: &String)
        ensures
            r@ == self@.description,
    {
        &self.description
    }

    /// The peer was found.
    pub fn found(&mut self)
        ensures
            final(self)@ == (Wire { connected: true, ..old(self)@ }),
    {
        self.connected = true;
    }

    /// The peer could not be found, or has gone away.
    pub fn gone(&mut self)
        ensures
            final(self)@ == (Wire { lost: true, ..old(self)@ }),
    {
        self.lost = true;
    }

    /// Whether the peer has been found.
    pub fn connected(&self) -> (r: bool)
        ensures
            r == self@.connected,
    {
        self.connected
    }

    /// Whether the peer has gone away.
    pub fn lost(&self) -> (r: bool)
        ensures
            r == self@.lost,
    {
        self.lost
    }

    /// Bytes off the socket become the peer's audio; a sample that has not arrived whole waits
    /// for the rest of it.
    pub fn heard(&mut self, bytes: &Vec<u8>)
        requires
            old(self)@.wf(),
        ensures
            final(self)@ == after_bytes(old(self)@, bytes@),
            final(self)@.wf(),
    {
        let ghost w = self@;
        let ghost all = self.pending@ + bytes@;
        let mut i: usize = 0;
        proof {
            assert(all.subrange(0, w.pending.len() as int) =~= w.pending);
            assert(w.from_peer + words(all.subrange(0, w.pending.len() as int)) =~= w.from_peer);
        }
        while i < bytes.len()
            invariant
                i <= bytes.len(),
                all == w.pending + bytes@,
                w.wf(),
                self@ == (Wire { from_peer: self.from_peer@, pending: self.pending@, ..w }),
                self.from_peer@ == w.from_peer + words(all.subrange(0, w.pending.len() + i)),
                self.pending@ == rest_of(all.subrange(0, w.pending.len() + i)),
                self.pending@.len() < 4,
            decreases bytes.len() - i,
        {
            let ghost so_far = all.subrange(0, w.pending.len() + i);
            let ghost next = all.subrange(0, w.pending.len() + i + 1);
            let ghost before = self.pending@;
            self.pending.push(bytes[i]);
            proof {
                assert(next =~= so_far.push(bytes@[i as int]));
                assert(self.pending@ =~= next.subrange(so_far.len() - so_far.len() % 4, next.len() as int));
            }
            if self.pending.len() == 4 {
                let n: u32 = self.pending[0] as u32 + 256 * (self.pending[1] as u32) + 65_536 * (self.pending[2] as u32)
                    + 16_777_216 * (self.pending[3] as u32);
                let ghost old_words = self.from_peer@;
                self.from_peer.push(n);
                proof {
                    let k = so_far.len() as int / 4;
                    assert(next.len() == 4 * (k + 1));
                    assert(self.pending@[0] == next[4 * k] && self.pending@[1] == next[4 * k + 1] && self.pending@[2]
                        == next[4 * k + 2] && self.pending@[3] == next[4 * k + 3]);
                    assert(words(next) =~= words(so_far).push(n)) by {
                        assert forall|j: int| 0 <= j < k implies words(next)[j] == words(so_far)[j] by {
                            assert(next[4 * j] == so_far[4 * j] && next[4 * j + 1] == so_far[4 * j + 1] && next[4 * j + 2]
                                == so_far[4 * j + 2] && next[4 * j + 3] == so_far[4 * j + 3]);
                        }
                    }
                    assert(self.from_peer@ =~= w.from_peer + words(next));
                }
                self.pending.clear();
                proof {
                    assert(self.pending@ =~= rest_of(next));
                }
            } else {
                proof {
                    assert(next.len() / 4 == so_far.len() / 4);
                    assert(words(next) =~= words(so_far)) by {
                        assert forall|j: int| 0 <= j < so_far.len() as int / 4 implies words(next)[j] == words(so_far)[j] by {
                            assert(next[4 * j] == so_far[4 * j] && next[4 * j + 1] == so_far[4 * j + 1] && next[4 * j + 2]
                                == so_far[4 * j + 2] && next[4 * j + 3] == so_far[4 * j + 3]);
                        }
                    }
                    assert(self.pending@ =~= rest_of(next));
                }
            }
            i += 1;
        }
        proof {
            assert(all.subrange(0, w.pending.len() + i) =~= all);
        }
    }

    /// What the sound card would deliver now.
    pub fn capture(&mut self, now_us: u64) -> (r: Vec<u32>)
        requires
            old(self)@.wf(),
            owed(old(self)@, now_us) / SECOND_US as nat <= usize::MAX,
        ensures
            r@ == captured(old(self)@, now_us),
            final(self)@ == after_capture(old(self)@, now_us),
            final(self)@.wf(),
    {
        let ghost w = self@;
        let passed: u64 = elapsed(self.last_capture_us, now_us);
        let mut out: Vec<u32> = Vec::new();
        if passed < MIN_BLOCK_US {
            return out;
        }
        proof {
            assert(passed * self.sample_rate <= u64::MAX * u32::MAX) by (nonlinear_arith)
                requires
                    passed <= u64::MAX,
                    self.sample_rate <= u32::MAX,
            ;
        }
        let due: u128 = (passed as u128) * (self.sample_rate as u128) + self.carry as u128;
        let count: usize = (due / (SECOND_US as u128)) as usize;
        self.last_capture_us = now_us;
        self.carry = (due % (SECOND_US as u128)) as u64;
        let mut i: usize = 0;
        while i < count
            invariant
                i <= count,
                self.from_peer@ == w.from_peer,
                out@ == fitted(w.from_peer, count as nat).subrange(0, i as int),
            decreases count - i,
        {
            let x: u32 = if i < self.from_peer.len() { self.from_peer[i] } else { 0 };
            out.push(x);
            proof {
                let all = fitted(w.from_peer, count as nat);
                assert(all.subrange(0, i + 1) =~= all.subrange(0, i as int).push(all[i as int]));
            }
            i += 1;
        }
        proof {
            assert(fitted(w.from_peer, count as nat).subrange(0, i as int) =~= fitted(w.from_peer, count as nat));
        }
        let have: usize = self.from_peer.len();
        let mut left: Vec<u32> = Vec::new();
        i = count;
        while i < have
            invariant
                count <= i,
                have == self.from_peer.len(),
                i <= have || count > have,
                self.from_peer@ == w.from_peer,
                count <= have ==> left@ == w.from_peer.subrange(count as int, i as int),
                count > have ==> left@.len() == 0,
            decreases have - i,
        {
            left.push(self.from_peer[i]);
            proof {
                assert(w.from_peer.subrange(count as int, i + 1) =~= w.from_peer.subrange(count as int, i as int).push(
                    w.from_peer[i as int],
                ));
            }
            i += 1;
        }
        proof {
            if count >= w.from_peer.len() {
                assert(left@ =~= Seq::empty());
            }
        }
        self.from_peer = left;
        out
    }

    /// Play samples: what goes to the peer, once there is one; what is played before that goes
    /// out into the void, as it would have on the air.
    pub fn playback(&mut self, samples: &Vec<u32>) -> (r: Option<Vec<u8>>)
        requires
            old(self)@.wf(),
            old(self)@.played + samples@.len() <= u64::MAX,
        ensures
            final(self)@ == (Wire { played: (old(self)@.played + samples@.len()) as u64, ..old(self)@ }),
            final(self)@.wf(),
            match r {
                Some(b) => old(self)@.connected && !old(self)@.lost && b@ == bytes_of(samples@),
                None => !old(self)@.connected || old(self)@.lost,
            },
    {
        self.played = self.played + samples.len() as u64;
        if self.connected && !self.lost {
            Some(sample_bytes(samples))
        } else {
            None
        }
    }

    /// How many samples are played and not yet heard.
    pub fn queued(&mut self, now_us: u64) -> (r: u64)
        requires
            old(self)@.wf(),
        ensures
            r == old(self)@.played - consumed_by(old(self)@, now_us),
            final(self)@ == (Wire {
                consumed: consumed_by(old(self)@, now_us) as u64,
                consumed_at_us: now_us,
                ..old(self)@
            }),
            final(self)@.wf(),
    {
        let passed: u64 = elapsed(self.consumed_at_us, now_us);
        proof {
            assert(passed * self.sample_rate <= u64::MAX * u32::MAX) by (nonlinear_arith)
                requires
                    passed <= u64::MAX,
                    self.sample_rate <= u32::MAX,
            ;
        }
        let due: u128 = self.consumed as u128 + (passed as u128) * (self.sample_rate as u128) / (SECOND_US as u128);
        let consumed: u64 = if due < self.played as u128 { due as u64 } else { self.played };
        self.consumed = consumed;
        self.consumed_at_us = now_us;
        self.played - consumed
    }

    /// Samples the card dropped: none, ever.
    pub fn dropped(&self) -> (r: usize)
        ensures
            r == 0,
    {
        0
    }
}

/// How the bytes arrive makes no difference: two reads bring what one of both would have.
pub proof fn the_cut_of_the_reads_does_not_matter(w: Wire, a: Seq<u8>, b: Seq<u8>)
    requires
        w.wf(),
    ensures
        after_bytes(after_bytes(w, a), b) == after_bytes(w, a + b),
{
    let first = w.pending + a;
    let all = w.pending + (a + b);
    let second = rest_of(first) + b;
    let n = first.len() as int - first.len() as int % 4;
    assert(all =~= first + b);
    assert(second =~= all.subrange(n, all.len() as int));
    let k = n / 4;
    assert(n == 4 * k);
    assert(all.len() as int / 4 == k + second.len() as int / 4);
    assert(words(all) =~= words(first) + words(second)) by {
        assert forall|j: int| 0 <= j < all.len() as int / 4 implies words(all)[j] == (words(first) + words(second))[j] by {
            if j < k {
                assert(all[4 * j] == first[4 * j] && all[4 * j + 1] == first[4 * j + 1] && all[4 * j + 2] == first[4 * j
                    + 2] && all[4 * j + 3] == first[4 * j + 3]);
            } else {
                let m = j - k;
                assert(all[4 * j] == second[4 * m] && all[4 * j + 1] == second[4 * m + 1] && all[4 * j + 2] == second[4 * m
                    + 2] && all[4 * j + 3] == second[4 * m + 3]);
            }
        }
    }
    assert(rest_of(all) =~= rest_of(second));
    assert(w.from_peer + words(all) =~= (w.from_peer + words(first)) + words(second));
}

/// What one end plays is what the other end hears, sample for sample.
pub proof fn what_is_played_is_heard(samples: Seq<u32>)
    ensures
        words(bytes_of(samples)) == samples,
        rest_of(bytes_of(samples)) == Seq::<u8>::empty(),
{
    let b = bytes_of(samples);
    assert(b.len() == 4 * samples.len());
    assert forall|i: int| 0 <= i < samples.len() implies words(b)[i] == samples[i] by {
        let n = samples[i] as nat;
        assert((4 * i) / 4 == i && (4 * i) % 4 == 0);
        assert((4 * i + 1) / 4 == i && (4 * i + 1) % 4 == 1);
        assert((4 * i + 2) / 4 == i && (4 * i + 2) % 4 == 2);
        assert((4 * i + 3) / 4 == i && (4 * i + 3) % 4 == 3);
        assert(b[4 * i] == le32(n)[0]);
        assert(b[4 * i + 1] == le32(n)[1]);
        assert(b[4 * i + 2] == le32(n)[2]);
        assert(b[4 * i + 3] == le32(n)[3]);
        let x = n / 256;
        let y = n / 65_536;
        let z = n / 16_777_216;
        assert(y == x / 256);
        assert(z == y / 256);
        assert(z < 256);
    }
    assert(words(b) =~= samples);
    assert(rest_of(b) =~= Seq::empty());
}

/// The pace is exact over time: of what the clock has made, what was not handed over is carried.
pub proof fn captures_keep_the_rate(w: Wire, now_us: u64)
    requires
        since(w.last_capture_us, now_us) >= MIN_BLOCK_US,
    ensures
        captured(w, now_us).len() * SECOND_US + after_capture(w, now_us).carry == since(w.last_capture_us, now_us)
            * w.sample_rate as nat + w.carry,
{
    vstd::arithmetic::div_mod::lemma_fundamental_div_mod(owed(w, now_us) as int, SECOND_US as int);
}

} // verus!
