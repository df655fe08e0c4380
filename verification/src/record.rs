//! Session recordings: the audio the radio delivered, and what the modem made of it.
//!
//! A recording is two files with one name: a mono 16-bit WAV of everything the sound card
//! captured (the channel as this station heard it, at the modem's own 48 kHz) and a sidecar
//! saying what the modem did with it: every frame it found, with mode, SNR, offset and whether
//! it decoded; every session event; when the transmitter was keyed; the counters at the end;
//! and whatever the operator wrote down about the band and the other station.
//!
//! The WAV's header is patched every few seconds so a daemon that dies mid-session leaves a
//! file that plays, and the sidecar is rewritten on the same schedule so the story survives
//! the same failure.
//!
//! Times are in microseconds by the station's audio clock, levels in thousandths of a decibel
//! and offsets in thousandths of a hertz.
use vstd::prelude::*;

use crate::json::{entries_of, lemma_trees, tree_of, trees_of, Json, Number, Tree};
use crate::text::{cat, chars_of, push_char, text_of};

verus! {

/// The sidecar's `format` field: bumped when its shape changes.
pub const FORMAT: &'static str = "aether-hf-session/1";

/// One frame the receiver found, as the sidecar records it.
#[derive(Debug)]
pub struct FrameRecord {
    /// Time since the recording started, by the station's audio clock.
    pub t_us: i64,
    /// `data` or `control`.
    pub kind: String,
    /// Mode index read from the pilot chips (or the control mode).
    pub mode: usize,
    /// Redundancy version.
    pub rv: u8,
    /// Signal to noise, 3 kHz reference.
    pub snr_3k_mdb: i64,
    /// Carrier offset the receiver removed, where it is worth reporting.
    pub cfo_mhz: Option<i64>,
    /// How sure the receiver was of the mode it read, in thousandths.
    pub confidence: u32,
    /// How sure acquisition was that a frame was there, in thousandths.
    pub detect_confidence: u32,
    /// Whether the payload came through.
    pub decoded: bool,
    /// Payload length when it did.
    pub bytes: usize,
    /// What a control frame said, when it could be read.
    pub control: Option<String>,
}

/// A frame this station put on the air, as the sidecar records it beside what it heard.
///
/// Without it a sidecar cannot answer the first question a failed burst raises (what mode was
/// that?), and a burst that decoded nowhere looks exactly like a burst that was never sent.
#[derive(Clone, Copy, PartialEq, Eq, Debug)]
pub struct SentRecord {
    /// The station's clock.
    pub t_us: u64,
    /// `data` or `control`.
    pub kind: &'static str,
    /// Mode index.
    pub mode: usize,
    /// Redundancy version.
    pub rv: u8,
    /// Whether it is the tone floor's.
    pub floor: bool,
    /// Payload bytes.
    pub bytes: usize,
}

/// How often the header and sidecar are refreshed, in samples (five seconds at 48 kHz).
pub const PATCH_EVERY: u64 = 240_000;

/// A number of two bytes, the low one first.
pub open spec fn le16(n: nat) -> Seq<u8> {
    seq![(n % 256) as u8, (n / 256) as u8]
}

/// A number of four bytes, the low one first.
pub open spec fn le32(n: nat) -> Seq<u8> {
    seq![(n % 256) as u8, (n / 256 % 256) as u8, (n / 65_536 % 256) as u8, (n / 16_777_216) as u8]
}

/// `RIFF`.
pub open spec fn riff() -> Seq<u8> {
    seq![82u8, 73u8, 70u8, 70u8]
}

/// `WAVE`.
pub open spec fn wave() -> Seq<u8> {
    seq![87u8, 65u8, 86u8, 69u8]
}

/// `fmt `.
pub open spec fn fmt_id() -> Seq<u8> {
    seq![102u8, 109u8, 116u8, 32u8]
}

/// `data`.
pub open spec fn data_id() -> Seq<u8> {
    seq![100u8, 97u8, 116u8, 97u8]
}

/// A canonical 44-byte header for mono 16-bit PCM.
pub open spec fn header(sample_rate: nat, samples: nat) -> Seq<u8> {
    riff() + le32(36 + 2 * samples) + wave() + fmt_id() + le32(16) + le16(1) + le16(1) + le32(sample_rate) + le32(
        2 * sample_rate,
    ) + le16(2) + le16(16) + data_id() + le32(2 * samples)
}

fn put16(out: &mut Vec<u8>, n: u16)
    ensures
        final(out)@ == old(out)@ + le16(n as nat),
{
    let ghost before = out@;
    out.push((n % 256) as u8);
    out.push((n / 256) as u8);
    proof {
        assert(out@ =~= before + le16(n as nat));
    }
}

fn put32(out: &mut Vec<u8>, n: u32)
    ensures
        final(out)@ == old(out)@ + le32(n as nat),
{
    let ghost before = out@;
    out.push((n % 256) as u8);
    out.push((n / 256 % 256) as u8);
    out.push((n / 65_536 % 256) as u8);
    out.push((n / 16_777_216) as u8);
    proof {
        assert(out@ =~= before + le32(n as nat));
    }
}

fn put_id(out: &mut Vec<u8>, a: u8, b: u8, c: u8, d: u8)
    ensures
        final(out)@ == old(out)@ + seq![a, b, c, d],
{
    let ghost before = out@;
    out.push(a);
    out.push(b);
    out.push(c);
    out.push(d);
    proof {
        assert(out@ =~= before + seq![a, b, c, d]);
    }
}

/// A canonical 44-byte header for mono 16-bit PCM.
pub fn wav_header(sample_rate: u32, samples: u64) -> (r: Vec<u8>)
    requires
        36 + 2 * samples <= u32::MAX,
        2 * sample_rate <= u32::MAX,
    ensures
        r@ == header(sample_rate as nat, samples as nat),
        r@.len() == 44,
{
    let data_bytes: u32 = (2 * samples) as u32;
    let mut out: Vec<u8> = Vec::new();
    put_id(&mut out, 82, 73, 70, 70);
    put32(&mut out, 36 + data_bytes);
    put_id(&mut out, 87, 65, 86, 69);
    put_id(&mut out, 102, 109, 116, 32);
    put32(&mut out, 16);
    put16(&mut out, 1);
    put16(&mut out, 1);
    put32(&mut out, sample_rate);
    put32(&mut out, sample_rate * 2);
    put16(&mut out, 2);
    put16(&mut out, 16);
    put_id(&mut out, 100, 97, 116, 97);
    put32(&mut out, data_bytes);
    proof {
        assert(Seq::<u8>::empty() + riff() =~= riff());
    }
    out
}

/// The number two bytes hold.
pub open spec fn u16_at(b: Seq<u8>, at: int) -> nat {
    (b[at] + 256 * b[at + 1]) as nat
}

/// The number four bytes hold.
pub open spec fn u32_at(b: Seq<u8>, at: int) -> nat {
    (b[at] + 256 * b[at + 1] + 65_536 * b[at + 2] + 16_777_216 * b[at + 3]) as nat
}

/// The sample two bytes hold.
pub open spec fn i16_at(b: Seq<u8>, at: int) -> int {
    if u16_at(b, at) < 32_768 { u16_at(b, at) as int } else { u16_at(b, at) - 65_536 }
}

fn read16(b: &Vec<u8>, at: usize) -> (r: u16)
    requires
        at + 2 <= b.len(),
    ensures
        r == u16_at(b@, at as int),
{
    b[at] as u16 + 256 * (b[at + 1] as u16)
}

fn read32(b: &Vec<u8>, at: usize) -> (r: u32)
    requires
        at + 4 <= b.len(),
    ensures
        r == u32_at(b@, at as int),
{
    b[at] as u32 + 256 * (b[at + 1] as u32) + 65_536 * (b[at + 2] as u32) + 16_777_216 * (b[at + 3] as u32)
}

fn is_id(b: &Vec<u8>, at: usize, w: u8, x: u8, y: u8, z: u8) -> (r: bool)
    requires
        at + 4 <= b.len(),
    ensures
        r == (b@.subrange(at as int, at + 4) == seq![w, x, y, z]),
{
    let r: bool = b[at] == w && b[at + 1] == x && b[at + 2] == y && b[at + 3] == z;
    proof {
        let s = b@.subrange(at as int, at + 4);
        if r {
            assert(s =~= seq![w, x, y, z]);
        } else {
            assert(s[0] == b@[at as int] && s[1] == b@[at + 1] && s[2] == b@[at + 2] && s[3] == b@[at + 3]);
            assert(seq![w, x, y, z][0] == w && seq![w, x, y, z][1] == x && seq![w, x, y, z][2] == y && seq![w, x, y, z][3]
                == z);
        }
    }
    r
}

/// Whether bytes begin with a chunk header: four printable characters and a size.
pub open spec fn chunk_like(b: Seq<u8>, at: int) -> bool {
    at + 8 <= b.len() && forall|i: int| at <= i < at + 4 ==> 32 <= #[trigger] b[i] <= 126
}

/// Whether bytes begin, at a place, with a chunk header: four printable characters and a size.
pub fn looks_like_chunk(b: &Vec<u8>, at: usize) -> (r: bool)
    requires
        at <= b.len(),
    ensures
        r == chunk_like(b@, at as int),
{
    if b.len() - at < 8 {
        return false;
    }
    let r: bool = b[at] >= 32 && b[at] <= 126 && b[at + 1] >= 32 && b[at + 1] <= 126 && b[at + 2] >= 32 && b[at + 2] <= 126
        && b[at + 3] >= 32 && b[at + 3] <= 126;
    proof {
        if chunk_like(b@, at as int) {
            assert(32 <= b@[at as int] <= 126);
            assert(32 <= b@[at + 1] <= 126);
            assert(32 <= b@[at + 2] <= 126);
            assert(32 <= b@[at + 3] <= 126);
        }
    }
    r
}

/// How samples are laid down.
#[derive(Clone, Copy, PartialEq, Eq, Structural, Debug)]
pub struct Format {
    /// What kind of number a sample is.
    pub tag: u16,
    /// How many channels there are.
    pub channels: u16,
    /// Samples per second.
    pub rate: u32,
    /// Bits in a sample.
    pub bits: u16,
}

/// Where the audio of a file is, and how it is laid down.
pub struct Layout {
    pub format: Option<Format>,
    pub data: Option<(int, int)>,
}

/// Where the audio of a chunk ends: a header that says less than the file holds is a recording
/// whose writer died between header patches, and the audio runs to the end of the file, unless
/// what follows the declared end is another chunk, in which case the header is right.
pub open spec fn data_end(b: Seq<u8>, body: int, size: nat) -> int {
    let declared = if body + size < b.len() { body + size } else { b.len() as int };
    if declared < b.len() && !chunk_like(b, declared) { b.len() as int } else { declared }
}

/// The layout the chunks from a place on say.
pub open spec fn chunks(b: Seq<u8>, pos: int, format: Option<Format>) -> Layout
    decreases (if pos < b.len() { b.len() - pos } else { 0 }),
{
    if pos + 8 > b.len() {
        Layout { format, data: None }
    } else {
        let id = b.subrange(pos, pos + 4);
        let size = u32_at(b, pos + 4);
        let body = pos + 8;
        if id == data_id() {
            Layout { format, data: Some((body, data_end(b, body, size))) }
        } else {
            let found = if id == fmt_id() && body + 16 <= b.len() {
                Some(
                    Format {
                        tag: u16_at(b, body) as u16,
                        channels: u16_at(b, body + 2) as u16,
                        rate: u32_at(b, body + 4) as u32,
                        bits: u16_at(b, body + 14) as u16,
                    },
                )
            } else {
                format
            };
            chunks(b, body + size + size % 2, found)
        }
    }
}

/// How many channels there are to skip over.
pub open spec fn lanes(f: Format) -> nat {
    if f.channels == 0 { 1 } else { f.channels as nat }
}

/// The first channel's samples of 16-bit audio.
pub open spec fn pcm(b: Seq<u8>, start: int, end: int, width: int) -> Seq<int> {
    Seq::new(((end - start) / width) as nat, |i: int| i16_at(b, start + i * width))
}

/// The first channel's samples of 32-bit float audio, by their bits.
pub open spec fn floats(b: Seq<u8>, start: int, end: int, width: int) -> Seq<nat> {
    Seq::new(((end - start) / width) as nat, |i: int| u32_at(b, start + i * width))
}

/// The samples of a recording.
#[derive(Debug)]
pub enum Samples {
    /// 16-bit samples, full scale at 32768.
    Pcm(Vec<i16>),
    /// 32-bit floating-point samples, by their bits.
    Float(Vec<u32>),
}

/// A recorded WAV read back: the samples, and the rate they were taken at.
#[derive(Debug)]
pub struct Wav {
    /// Samples per second.
    pub sample_rate: u32,
    /// Mono samples.
    pub samples: Samples,
}

/// What a recording holds.
pub enum Heard {
    Pcm(Seq<int>),
    Float(Seq<nat>),
}

impl View for Samples {
    type V = Heard;

    open spec fn view(&self) -> Heard {
        match self {
            Samples::Pcm(v) => Heard::Pcm(v@.map_values(|x: i16| x as int)),
            Samples::Float(v) => Heard::Float(v@.map_values(|x: u32| x as nat)),
        }
    }
}

/// What a WAV file says: the rate and the first channel, or why it cannot be used.
pub open spec fn wav_in(b: Seq<u8>) -> Result<(u32, Heard), Seq<char>> {
    if b.len() < 12 || b.subrange(0, 4) != riff() || b.subrange(8, 12) != wave() {
        Err("not a RIFF/WAVE file"@)
    } else {
        let layout = chunks(b, 12, None);
        match layout.format {
            None => Err("no fmt chunk"@),
            Some(f) => match layout.data {
                None => Err("no data chunk"@),
                Some((start, end)) => if f.tag == 1 && f.bits == 16 {
                    Ok((f.rate, Heard::Pcm(pcm(b, start, end, 2 * lanes(f) as int))))
                } else if f.tag == 3 && f.bits == 32 {
                    Ok((f.rate, Heard::Float(floats(b, start, end, 4 * lanes(f) as int))))
                } else {
                    Err("only 16-bit PCM and 32-bit float WAV are read"@)
                },
            },
        }
    }
}

fn take_pcm(b: &Vec<u8>, start: usize, end: usize, width: usize) -> (r: Vec<i16>)
    requires
        start <= end <= b@.len(),
        width >= 2,
    ensures
        r@.map_values(|x: i16| x as int) == pcm(b@, start as int, end as int, width as int),
{
    let count: usize = (end - start) / width;
    let ghost want = pcm(b@, start as int, end as int, width as int);
    let mut out: Vec<i16> = Vec::new();
    let mut i: usize = 0;
    let mut at: usize = start;
    proof {
        vstd::arithmetic::div_mod::lemma_fundamental_div_mod((end - start) as int, width as int);
        assert(count * width <= end - start) by (nonlinear_arith)
            requires
                (end - start) as int == (width as int) * (count as int) + ((end - start) as int) % (width as int),
                ((end - start) as int) % (width as int) >= 0,
        ;
    }
    while i < count
        invariant
            i <= count,
            width >= 2,
            end <= b@.len(),
            want == pcm(b@, start as int, end as int, width as int),
            want.len() == count,
            at == start + i * width,
            start + count * width <= end,
            out@.len() == i,
            forall|j: int| 0 <= j < i ==> #[trigger] out@[j] as int == want[j],
        decreases count - i,
    {
        proof {
            assert((i + 1) * width == i * width + width) by (nonlinear_arith);
            assert((i + 1) * width <= count * width) by (nonlinear_arith)
                requires
                    i + 1 <= count,
            ;
        }
        let n: u16 = read16(b, at);
        let x: i16 = if n < 32_768 { n as i16 } else { (n as i32 - 65_536) as i16 };
        out.push(x);
        at += width;
        i += 1;
    }
    proof {
        assert(out@.map_values(|x: i16| x as int) =~= want);
    }
    out
}

fn take_floats(b: &Vec<u8>, start: usize, end: usize, width: usize) -> (r: Vec<u32>)
    requires
        start <= end <= b@.len(),
        width >= 4,
    ensures
        r@.map_values(|x: u32| x as nat) == floats(b@, start as int, end as int, width as int),
{
    let count: usize = (end - start) / width;
    let ghost want = floats(b@, start as int, end as int, width as int);
    let mut out: Vec<u32> = Vec::new();
    let mut i: usize = 0;
    let mut at: usize = start;
    proof {
        vstd::arithmetic::div_mod::lemma_fundamental_div_mod((end - start) as int, width as int);
        assert(count * width <= end - start) by (nonlinear_arith)
            requires
                (end - start) as int == (width as int) * (count as int) + ((end - start) as int) % (width as int),
                ((end - start) as int) % (width as int) >= 0,
        ;
    }
    while i < count
        invariant
            i <= count,
            width >= 4,
            end <= b@.len(),
            want == floats(b@, start as int, end as int, width as int),
            want.len() == count,
            at == start + i * width,
            start + count * width <= end,
            out@.len() == i,
            forall|j: int| 0 <= j < i ==> #[trigger] out@[j] as nat == want[j],
        decreases count - i,
    {
        proof {
            assert((i + 1) * width == i * width + width) by (nonlinear_arith);
            assert((i + 1) * width <= count * width) by (nonlinear_arith)
                requires
                    i + 1 <= count,
            ;
        }
        out.push(read32(b, at));
        at += width;
        i += 1;
    }
    proof {
        assert(out@.map_values(|x: u32| x as nat) =~= want);
    }
    out
}

/// Read a mono or multi-channel PCM WAV (16-bit, or 32-bit float), taking the first channel.
///
/// Enough of the format for what this project writes and what a sound-card recorder produces;
/// not a general WAV reader. A truncated `data` length (a daemon that died before its last
/// header patch) is taken as "to the end of the file".
pub fn read_wav(bytes: &Vec<u8>) -> (r: Result<Wav, &'static str>)
    ensures
        match r {
            Ok(w) => wav_in(bytes@) == Ok::<(u32, Heard), Seq<char>>((w.sample_rate, w.samples@)),
            Err(e) => wav_in(bytes@) == Err::<(u32, Heard), Seq<char>>(e@),
        },
{
    if bytes.len() < 12 || !is_id(bytes, 0, 82, 73, 70, 70) || !is_id(bytes, 8, 87, 65, 86, 69) {
        return Err("not a RIFF/WAVE file");
    }
    let mut pos: usize = 12;
    let mut format: Option<Format> = None;
    let mut data: Option<(usize, usize)> = None;
    let ghost whole = chunks(bytes@, 12, None);
    let mut walking: bool = true;
    while walking && bytes.len() - pos >= 8
        invariant
            12 <= pos <= bytes@.len(),
            walking ==> data is None && whole == chunks(bytes@, pos as int, format),
            !walking ==> whole == (Layout {
                format,
                data: match data {
                    Some((a, b)) => Some((a as int, b as int)),
                    None => None,
                },
            }),
            data matches Some((a, b)) ==> a <= b <= bytes@.len(),
        decreases (if walking { 1int } else { 0int }), bytes.len() - pos,
    {
        let size: u32 = read32(bytes, pos + 4);
        let body: usize = pos + 8;
        let rest: usize = bytes.len() - body;
        if is_id(bytes, pos, 100, 97, 116, 97) {
            let declared: usize = if (size as u64) < (rest as u64) { body + size as usize } else { bytes.len() };
            let end: usize = if declared < bytes.len() && !looks_like_chunk(bytes, declared) {
                bytes.len()
            } else {
                declared
            };
            data = Some((body, end));
            walking = false;
        } else {
            if is_id(bytes, pos, 102, 109, 116, 32) && rest >= 16 {
                format = Some(
                    Format {
                        tag: read16(bytes, body),
                        channels: read16(bytes, body + 2),
                        rate: read32(bytes, body + 4),
                        bits: read16(bytes, body + 14),
                    },
                );
            }
            let skip: u64 = size as u64 + (size % 2) as u64;
            if skip > rest as u64 {
                proof {
                    reveal_with_fuel(chunks, 2);
                }
                walking = false;
            } else {
                pos = body + skip as usize;
            }
        }
    }
    let f = match format {
        Some(f) => f,
        None => return Err("no fmt chunk"),
    };
    let (start, end) = match data {
        Some(d) => d,
        None => return Err("no data chunk"),
    };
    let lane_count: usize = if f.channels == 0 { 1 } else { f.channels as usize };
    if f.tag == 1 && f.bits == 16 {
        Ok(Wav { sample_rate: f.rate, samples: Samples::Pcm(take_pcm(bytes, start, end, 2 * lane_count)) })
    } else if f.tag == 3 && f.bits == 32 {
        Ok(Wav { sample_rate: f.rate, samples: Samples::Float(take_floats(bytes, start, end, 4 * lane_count)) })
    } else {
        Err("only 16-bit PCM and 32-bit float WAV are read")
    }
}

/// A sample as an unsigned number of 16 bits.
pub open spec fn as_u16(x: int) -> nat {
    if x < 0 { (x + 65_536) as nat } else { x as nat }
}

/// Samples as the file holds them.
pub open spec fn pcm_bytes(samples: Seq<int>) -> Seq<u8> {
    Seq::new(2 * samples.len(), |i: int| le16(as_u16(samples[i / 2]))[i % 2])
}

/// Samples as the file holds them.
pub fn sample_bytes(samples: &Vec<i16>) -> (r: Vec<u8>)
    ensures
        r@ == pcm_bytes(samples@.map_values(|x: i16| x as int)),
{
    let ghost want = pcm_bytes(samples@.map_values(|x: i16| x as int));
    let mut out: Vec<u8> = Vec::new();
    let mut i: usize = 0;
    while i < samples.len()
        invariant
            i <= samples.len(),
            want == pcm_bytes(samples@.map_values(|x: i16| x as int)),
            out@.len() == 2 * i,
            forall|j: int| 0 <= j < 2 * i ==> #[trigger] out@[j] == want[j],
        decreases samples.len() - i,
    {
        let ghost before = out@;
        let x: i16 = samples[i];
        let n: u16 = if x < 0 { (x as i32 + 65_536) as u16 } else { x as u16 };
        put16(&mut out, n);
        proof {
            assert forall|j: int| 0 <= j < 2 * (i + 1) implies #[trigger] out@[j] == want[j] by {
                if j < 2 * i {
                    assert(out@[j] == before[j]);
                } else {
                    assert(j / 2 == i);
                    assert(out@[j] == le16(n as nat)[j - 2 * i]);
                }
            }
        }
        i += 1;
    }
    proof {
        assert(out@ =~= want);
    }
    out
}

proof fn lemma_le32(n: nat)
    requires
        n <= u32::MAX,
    ensures
        u32_at(le32(n), 0) == n,
        le32(n).len() == 4,
{
    let a = n / 256;
    let b = n / 65_536;
    let c = n / 16_777_216;
    assert(b == a / 256);
    assert(c == b / 256);
    assert(c < 256);
}

proof fn lemma_header(rate: nat, patched: nat, f: Seq<u8>, rest: Seq<u8>)
    requires
        2 * rate <= u32::MAX,
        36 + 2 * patched <= u32::MAX,
        f == header(rate, patched) + rest,
    ensures
        header(rate, patched).len() == 44,
        f.subrange(0, 4) == riff(),
        f.subrange(8, 12) == wave(),
        f.subrange(12, 16) == fmt_id(),
        u32_at(f, 16) == 16,
        u16_at(f, 20) == 1,
        u16_at(f, 22) == 1,
        u32_at(f, 24) == rate,
        u16_at(f, 34) == 16,
        f.subrange(36, 40) == data_id(),
        u32_at(f, 40) == 2 * patched,
{
    let h = header(rate, patched);
    lemma_le32(36 + 2 * patched);
    lemma_le32(16);
    lemma_le32(rate);
    lemma_le32(2 * rate);
    lemma_le32(2 * patched);
    assert(h.len() == 44);
    assert(f.subrange(0, 4) =~= riff());
    assert(f.subrange(8, 12) =~= wave());
    assert(f.subrange(12, 16) =~= fmt_id());
    assert(f.subrange(36, 40) =~= data_id());
    assert(f.subrange(16, 20) =~= le32(16));
    assert(f.subrange(24, 28) =~= le32(rate));
    assert(f.subrange(40, 44) =~= le32(2 * patched));
    assert(f.subrange(20, 22) =~= le16(1));
    assert(f.subrange(22, 24) =~= le16(1));
    assert(f.subrange(34, 36) =~= le16(16));
    lemma_at(f, 16);
    lemma_at(f, 24);
    lemma_at(f, 40);
    assert(f[20] == f.subrange(20, 22)[0] && f[21] == f.subrange(20, 22)[1]);
    assert(f[22] == f.subrange(22, 24)[0] && f[23] == f.subrange(22, 24)[1]);
    assert(f[34] == f.subrange(34, 36)[0] && f[35] == f.subrange(34, 36)[1]);
}

proof fn lemma_at(f: Seq<u8>, at: int)
    requires
        0 <= at,
        at + 4 <= f.len(),
    ensures
        u32_at(f, at) == u32_at(f.subrange(at, at + 4), 0),
{
    let s = f.subrange(at, at + 4);
    assert(s[0] == f[at] && s[1] == f[at + 1] && s[2] == f[at + 2] && s[3] == f[at + 3]);
}

/// A recording reads back as what was recorded, sample for sample, even one that was cut short
/// after its header was last patched: a header that counts fewer samples than the file holds is
/// not believed, unless the audio that follows the counted end happens to look like a chunk.
pub proof fn a_recording_reads_back(rate: nat, patched: nat, samples: Seq<int>)
    requires
        2 * rate <= u32::MAX,
        36 + 2 * patched <= u32::MAX,
        patched <= samples.len(),
        forall|i: int| 0 <= i < samples.len() ==> -32_768 <= #[trigger] samples[i] < 32_768,
        patched < samples.len() ==> !chunk_like(header(rate, patched) + pcm_bytes(samples), 44 + 2 * patched as int),
    ensures
        wav_in(header(rate, patched) + pcm_bytes(samples)) == Ok::<(u32, Heard), Seq<char>>(
            (rate as u32, Heard::Pcm(samples)),
        ),
{
    let body = pcm_bytes(samples);
    let f = header(rate, patched) + body;
    lemma_header(rate, patched, f, body);
    lemma_reads_back(f, rate, patched, samples);
}

proof fn lemma_reads_back(f: Seq<u8>, rate: nat, patched: nat, samples: Seq<int>)
    requires
        2 * rate <= u32::MAX,
        patched <= samples.len(),
        f.len() == 44 + 2 * samples.len(),
        f.subrange(0, 4) == riff(),
        f.subrange(8, 12) == wave(),
        f.subrange(12, 16) == fmt_id(),
        u32_at(f, 16) == 16,
        u16_at(f, 20) == 1,
        u16_at(f, 22) == 1,
        u32_at(f, 24) == rate,
        u16_at(f, 34) == 16,
        f.subrange(36, 40) == data_id(),
        u32_at(f, 40) == 2 * patched,
        forall|i: int| 0 <= i < samples.len() ==> -32_768 <= #[trigger] samples[i] < 32_768,
        forall|i: int| 0 <= i < 2 * samples.len() ==> #[trigger] f[44 + i] == pcm_bytes(samples)[i],
        patched < samples.len() ==> !chunk_like(f, 44 + 2 * patched as int),
    ensures
        wav_in(f) == Ok::<(u32, Heard), Seq<char>>((rate as u32, Heard::Pcm(samples))),
{
    let body = pcm_bytes(samples);
    let format = Some(Format { tag: 1, channels: 1, rate: rate as u32, bits: 16 });
    let end = data_end(f, 44, 2 * patched);
    assert(end == f.len());
    assert(chunks(f, 36, format) == (Layout { format, data: Some((44int, end)) }));
    assert(fmt_id()[0] != data_id()[0]);
    assert(chunks(f, 12, None) == chunks(f, 36, format));
    let read = pcm(f, 44, end, 2);
    assert(read.len() == samples.len());
    assert forall|i: int| 0 <= i < samples.len() implies read[i] == samples[i] by {
        let n = as_u16(samples[i]);
        assert(f[44 + 2 * i] == body[2 * i]);
        assert(f[44 + (2 * i + 1)] == body[2 * i + 1]);
        assert((2 * i) / 2 == i && (2 * i) % 2 == 0);
        assert((2 * i + 1) / 2 == i && (2 * i + 1) % 2 == 1);
        assert(body[2 * i] == le16(n)[0]);
        assert(body[2 * i + 1] == le16(n)[1]);
        assert(u16_at(f, 44 + i * 2) == n);
    }
    assert(read =~= samples);
}

/// A recording in progress.
#[derive(Debug)]
pub struct Recording {
    wav: String,
    sidecar: String,
    sample_rate: u32,
    samples: u64,
    /// Samples written at the last header patch.
    patched_at: u64,
    started: String,
    /// The station clock when the recording began, so times start at zero.
    t0_us: i64,
    frames: Vec<FrameRecord>,
    sent: Vec<Json>,
    events: Vec<Json>,
    /// Who and what: callsigns, settings, the operator's notes.
    meta: Json,
}

/// What a recording in progress is.
pub struct Tape {
    pub wav: Seq<char>,
    pub sidecar: Seq<char>,
    pub sample_rate: u32,
    pub samples: u64,
    pub patched_at: u64,
    pub started: Seq<char>,
    pub t0_us: i64,
    pub frames: Seq<FrameRecord>,
    pub sent: Seq<Tree>,
    pub events: Seq<Tree>,
    pub meta: Tree,
}

impl View for Recording {
    type V = Tape;

    closed spec fn view(&self) -> Tape {
        Tape {
            wav: self.wav@,
            sidecar: self.sidecar@,
            sample_rate: self.sample_rate,
            samples: self.samples,
            patched_at: self.patched_at,
            started: self.started@,
            t0_us: self.t0_us,
            frames: self.frames@,
            sent: trees_of(self.sent@),
            events: trees_of(self.events@),
            meta: self.meta@,
        }
    }
}

impl Tape {
    /// Whether the last patch is behind what has been written.
    pub open spec fn wf(self) -> bool {
        self.patched_at <= self.samples
    }
}

/// What `stop` reports.
#[derive(Debug)]
pub struct Summary {
    /// The audio file.
    pub wav: String,
    /// The sidecar.
    pub sidecar: String,
    /// Length of the audio, in samples.
    pub samples: u64,
    /// Frames the receiver found.
    pub frames: usize,
    /// Of those, frames that decoded.
    pub decoded: usize,
}

/// How many of the first `n` frames decoded.
pub open spec fn decoded_among(frames: Seq<FrameRecord>, n: nat) -> nat
    decreases n,
{
    if n == 0 {
        0
    } else {
        decoded_among(frames, (n - 1) as nat) + if frames[n - 1].decoded { 1nat } else { 0nat }
    }
}

/// How many frames decoded.
pub fn count_decoded(frames: &Vec<FrameRecord>) -> (r: usize)
    ensures
        r == decoded_among(frames@, frames@.len()),
        r <= frames@.len(),
{
    let mut n: usize = 0;
    let mut i: usize = 0;
    while i < frames.len()
        invariant
            i <= frames.len(),
            n <= i,
            n == decoded_among(frames@, i as nat),
        decreases frames.len() - i,
    {
        if frames[i].decoded {
            n += 1;
        }
        i += 1;
    }
    n
}

/// A time as a document writes it, in seconds.
pub open spec fn seconds_tree(us: int) -> Tree {
    Tree::Number(Number::Real((us * 1000) as i128))
}

/// A number of thousandths as a document writes it.
pub open spec fn thousandths_tree(n: int) -> Tree {
    Tree::Number(Number::Real((n * 1_000_000) as i128))
}

/// An event as the sidecar records it.
pub open spec fn event_tree(us: int, event: Seq<char>, detail: Seq<char>, state: Seq<char>) -> Tree {
    Tree::Table(
        seq![
            ("detail"@, Tree::Text(detail)),
            ("event"@, Tree::Text(event)),
            ("state"@, Tree::Text(state)),
            ("t_s"@, seconds_tree(us)),
        ],
    )
}

/// A frame this station sent as the sidecar records it.
pub open spec fn sent_tree(us: int, f: SentRecord) -> Tree {
    Tree::Table(
        seq![
            ("bytes"@, Tree::Number(Number::Unsigned(f.bytes as u64))),
            ("floor"@, Tree::Bool(f.floor)),
            ("kind"@, Tree::Text(f.kind@)),
            ("mode"@, Tree::Number(Number::Unsigned(f.mode as u64))),
            ("rv"@, Tree::Number(Number::Unsigned(f.rv as u64))),
            ("t_s"@, seconds_tree(us)),
        ],
    )
}

/// A frame as the sidecar records it.
pub open spec fn frame_tree(f: FrameRecord) -> Tree {
    Tree::Table(
        seq![
            ("bytes"@, Tree::Number(Number::Unsigned(f.bytes as u64))),
            (
                "cfo_hz"@,
                match f.cfo_mhz {
                    Some(x) => thousandths_tree(x as int),
                    None => Tree::Null,
                },
            ),
            ("confidence"@, thousandths_tree(f.confidence as int)),
            (
                "control"@,
                match f.control {
                    Some(s) => Tree::Text(s@),
                    None => Tree::Null,
                },
            ),
            ("decoded"@, Tree::Bool(f.decoded)),
            ("detect_confidence"@, thousandths_tree(f.detect_confidence as int)),
            ("kind"@, Tree::Text(f.kind@)),
            ("mode"@, Tree::Number(Number::Unsigned(f.mode as u64))),
            ("rv"@, Tree::Number(Number::Unsigned(f.rv as u64))),
            ("snr_3k_db"@, thousandths_tree(f.snr_3k_mdb as int)),
            ("t_s"@, seconds_tree(f.t_us as int)),
        ],
    )
}

/// The first `n` frames as the sidecar records them.
pub open spec fn frame_trees(frames: Seq<FrameRecord>, n: nat) -> Seq<Tree>
    decreases n,
{
    if n == 0 { Seq::empty() } else { frame_trees(frames, (n - 1) as nat).push(frame_tree(frames[n - 1])) }
}

/// What a text that may be missing is in a document.
pub open spec fn text_or_null(s: Option<&String>) -> Tree {
    match s {
        Some(x) => Tree::Text(x@),
        None => Tree::Null,
    }
}

/// What a value that may be missing is in a document.
pub open spec fn value_or_null(s: Option<&Json>) -> Tree {
    match s {
        Some(x) => x@,
        None => Tree::Null,
    }
}

/// The sidecar of a recording.
pub open spec fn sidecar_tree(t: Tape, version: Seq<char>, ended: Tree, counters: Tree) -> Tree {
    Tree::Table(
        seq![
            (
                "audio"@,
                Tree::Table(
                    seq![
                        ("channels"@, Tree::Number(Number::Unsigned(1))),
                        ("encoding"@, Tree::Text("pcm16"@)),
                        ("file"@, Tree::Text(t.wav)),
                        ("sample_rate"@, Tree::Number(Number::Unsigned(t.sample_rate as u64))),
                        ("samples"@, Tree::Number(Number::Unsigned(t.samples))),
                        (
                            "seconds"@,
                            Tree::Number(
                                Number::Real((t.samples * 1_000_000_000 / t.sample_rate as int) as i128),
                            ),
                        ),
                    ],
                ),
            ),
            ("counters"@, counters),
            ("ended"@, ended),
            ("events"@, Tree::List(t.events)),
            ("format"@, Tree::Text(FORMAT@)),
            ("frames"@, Tree::List(frame_trees(t.frames, t.frames.len()))),
            ("sent"@, Tree::List(t.sent)),
            ("session"@, t.meta),
            ("started"@, Tree::Text(t.started)),
            ("version"@, Tree::Text(version)),
        ],
    )
}

pub(crate) fn entry(out: &mut Vec<(String, Json)>, key: &str, value: Json)
    ensures
        entries_of(final(out)@) == entries_of(old(out)@).push((key@, value@)),
{
    let ghost before = out@;
    out.push((key.to_owned(), value));
    proof {
        assert(out@.drop_last() =~= before);
    }
}

pub(crate) fn number(n: u64) -> (r: Json)
    ensures
        r@ == Tree::Number(Number::Unsigned(n)),
{
    Json::Number(Number::Unsigned(n))
}

pub(crate) fn fraction(nano: i128) -> (r: Json)
    ensures
        r@ == Tree::Number(Number::Real(nano)),
{
    Json::Number(Number::Real(nano))
}

pub(crate) fn text(s: &str) -> (r: Json)
    ensures
        r@ == Tree::Text(s@),
{
    Json::Text(s.to_owned())
}

fn frame_json(f: &FrameRecord) -> (r: Json)
    ensures
        r@ == frame_tree(*f),
{
    let mut t: Vec<(String, Json)> = Vec::new();
    entry(&mut t, "bytes", number(f.bytes as u64));
    let cfo = match f.cfo_mhz {
        Some(x) => fraction((x as i128) * 1_000_000),
        None => Json::Null,
    };
    entry(&mut t, "cfo_hz", cfo);
    entry(&mut t, "confidence", fraction((f.confidence as i128) * 1_000_000));
    let control = match &f.control {
        Some(s) => text(s),
        None => Json::Null,
    };
    entry(&mut t, "control", control);
    entry(&mut t, "decoded", Json::Bool(f.decoded));
    entry(&mut t, "detect_confidence", fraction((f.detect_confidence as i128) * 1_000_000));
    entry(&mut t, "kind", text(&f.kind));
    entry(&mut t, "mode", number(f.mode as u64));
    entry(&mut t, "rv", number(f.rv as u64));
    entry(&mut t, "snr_3k_db", fraction((f.snr_3k_mdb as i128) * 1_000_000));
    entry(&mut t, "t_s", fraction((f.t_us as i128) * 1000));
    let r = Json::Table(t);
    proof {
        assert(entries_of(t@) =~= frame_tree(*f)->Table_0);
    }
    r
}

fn clone_all(list: &Vec<Json>) -> (r: Vec<Json>)
    ensures
        trees_of(r@) == trees_of(list@),
{
    let mut out: Vec<Json> = Vec::new();
    let mut i: usize = 0;
    proof {
        lemma_trees(list@);
        assert(trees_of(out@) =~= trees_of(list@).subrange(0, 0));
    }
    while i < list.len()
        invariant
            i <= list.len(),
            trees_of(list@).len() == list@.len(),
            forall|j: int| 0 <= j < list@.len() ==> #[trigger] trees_of(list@)[j] == tree_of(list@[j]),
            trees_of(out@) == trees_of(list@).subrange(0, i as int),
        decreases list.len() - i,
    {
        let ghost before = out@;
        out.push(list[i].clone());
        proof {
            assert(out@.drop_last() =~= before);
            assert(trees_of(list@).subrange(0, i + 1) =~= trees_of(list@).subrange(0, i as int).push(
                trees_of(list@)[i as int],
            ));
        }
        i += 1;
    }
    proof {
        assert(trees_of(list@).subrange(0, i as int) =~= trees_of(list@));
    }
    out
}

impl Recording {
    /// Begin a recording named after the time and the stations: its files are that name with
    /// `.wav` and `.json` behind it. `started` is when, `now_us` the station's clock.
    ///
    /// `meta` is what the sidecar says about the session besides what the modem observes:
    /// callsigns, the settings that matter, the operator's notes.
    pub fn start(name: &str, sample_rate: u32, started: &str, now_us: i64, meta: Json) -> (r: Self)
        ensures
            r@ == (Tape {
                wav: name@ + ".wav"@,
                sidecar: name@ + ".json"@,
                sample_rate,
                samples: 0,
                patched_at: 0,
                started: started@,
                t0_us: now_us,
                frames: Seq::empty(),
                sent: Seq::empty(),
                events: Seq::empty(),
                meta: meta@,
            }),
            r@.wf(),
    {
        let r = Recording {
            wav: cat(name, ".wav"),
            sidecar: cat(name, ".json"),
            sample_rate,
            samples: 0,
            patched_at: 0,
            started: started.to_owned(),
            t0_us: now_us,
            frames: Vec::new(),
            sent: Vec::new(),
            events: Vec::new(),
            meta,
        };
        proof {
            assert(trees_of(r.events@) =~= Seq::empty());
            assert(trees_of(r.sent@) =~= Seq::empty());
            assert(r.frames@ =~= Seq::empty());
        }
        r
    }

    /// The audio file being written.
    pub fn path(&self) -> (r: &String)
        ensures
            r@ == self@.wav,
    {
        &self.wav
    }

    /// The sidecar beside it.
    pub fn sidecar(&self) -> (r: &String)
        ensures
            r@ == self@.sidecar,
    {
        &self.sidecar
    }

    /// Audio so far, in samples.
    pub fn samples(&self) -> (r: u64)
        ensures
            r == self@.samples,
    {
        self.samples
    }

    /// Audio so far, in milliseconds.
    pub fn milliseconds(&self) -> (r: u64)
        requires
            self@.sample_rate > 0,
            self@.samples * 1000 <= u64::MAX,
        ensures
            r == self@.samples * 1000 / self@.sample_rate as int,
    {
        self.samples * 1000 / (self.sample_rate as u64)
    }

    /// Note so many more samples written, in order. Says whether the header and the sidecar are
    /// due to be refreshed.
    pub fn captured(&mut self, count: usize) -> (r: bool)
        requires
            old(self)@.wf(),
            old(self)@.samples + count <= u64::MAX,
        ensures
            r == (old(self)@.samples + count - old(self)@.patched_at >= PATCH_EVERY),
            r <==> old(self)@.samples + count >= old(self)@.patched_at + 240_000,
            final(self)@ == (Tape {
                samples: (old(self)@.samples + count) as u64,
                patched_at: if r { (old(self)@.samples + count) as u64 } else { old(self)@.patched_at },
                ..old(self)@
            }),
            final(self)@.wf(),
    {
        self.samples = self.samples + count as u64;
        let due: bool = self.samples - self.patched_at >= PATCH_EVERY;
        if due {
            self.patched_at = self.samples;
        }
        due
    }

    /// A frame the receiver found, at the station's clock.
    pub fn frame(&mut self, record: FrameRecord)
        requires
            i64::MIN <= record.t_us - old(self)@.t0_us <= i64::MAX,
        ensures
            final(self)@ == (Tape {
                frames: old(self)@.frames.push(FrameRecord { t_us: (record.t_us - old(self)@.t0_us) as i64, ..record }),
                ..old(self)@
            }),
    {
        let mut record = record;
        record.t_us = record.t_us - self.t0_us;
        self.frames.push(record);
    }

    /// A frame this station sent.
    pub fn sent(&mut self, record: SentRecord)
        ensures
            final(self)@ == (Tape {
                sent: old(self)@.sent.push(sent_tree(record.t_us - old(self)@.t0_us, record)),
                ..old(self)@
            }),
    {
        let mut t: Vec<(String, Json)> = Vec::new();
        let since: i128 = record.t_us as i128 - self.t0_us as i128;
        entry(&mut t, "bytes", number(record.bytes as u64));
        entry(&mut t, "floor", Json::Bool(record.floor));
        entry(&mut t, "kind", text(record.kind));
        entry(&mut t, "mode", number(record.mode as u64));
        entry(&mut t, "rv", number(record.rv as u64));
        entry(&mut t, "t_s", fraction(since * 1000));
        let ghost before = self.sent@;
        proof {
            assert(entries_of(t@) =~= sent_tree(since as int, record)->Table_0);
        }
        let e = Json::Table(t);
        proof {
            assert(e@ == sent_tree(since as int, record));
        }
        self.sent.push(e);
        proof {
            assert(self.sent@.drop_last() =~= before);
            assert(trees_of(self.sent@) == trees_of(before).push(e@));
        }
    }

    /// Something that happened: a session event, the transmitter keyed or released.
    pub fn event(&mut self, now_us: i64, event: &str, detail: &str, state: &str)
        ensures
            final(self)@ == (Tape {
                events: old(self)@.events.push(event_tree(now_us - old(self)@.t0_us, event@, detail@, state@)),
                ..old(self)@
            }),
    {
        let mut t: Vec<(String, Json)> = Vec::new();
        let since: i128 = now_us as i128 - self.t0_us as i128;
        entry(&mut t, "detail", text(detail));
        entry(&mut t, "event", text(event));
        entry(&mut t, "state", text(state));
        entry(&mut t, "t_s", fraction(since * 1000));
        let ghost before = self.events@;
        proof {
            assert(entries_of(t@) =~= event_tree(since as int, event@, detail@, state@)->Table_0);
        }
        let e = Json::Table(t);
        proof {
            assert(e@ == event_tree(since as int, event@, detail@, state@));
        }
        self.events.push(e);
        proof {
            assert(self.events@.drop_last() =~= before);
            assert(trees_of(self.events@) == trees_of(before).push(e@));
        }
    }

    /// The sidecar as it stands: `ended` and `counters` once the recording is finished.
    pub fn document(&self, version: &str, ended: Option<&String>, counters: Option<&Json>) -> (r: Json)
        requires
            self@.sample_rate > 0,
        ensures
            r@ == sidecar_tree(self@, version@, text_or_null(ended), value_or_null(counters)),
    {
        let mut audio: Vec<(String, Json)> = Vec::new();
        entry(&mut audio, "channels", number(1));
        entry(&mut audio, "encoding", text("pcm16"));
        entry(&mut audio, "file", text(&self.wav));
        entry(&mut audio, "sample_rate", number(self.sample_rate as u64));
        entry(&mut audio, "samples", number(self.samples));
        entry(&mut audio, "seconds", fraction((self.samples as i128) * 1_000_000_000 / (self.sample_rate as i128)));
        let ghost wanted = sidecar_tree(self@, version@, text_or_null(ended), value_or_null(counters))->Table_0;
        proof {
            assert(entries_of(audio@) =~= wanted[0].1->Table_0);
        }
        let mut frames: Vec<Json> = Vec::new();
        let mut i: usize = 0;
        proof {
            assert(trees_of(frames@) =~= Seq::empty());
        }
        while i < self.frames.len()
            invariant
                i <= self.frames.len(),
                trees_of(frames@) == frame_trees(self.frames@, i as nat),
            decreases self.frames.len() - i,
        {
            let ghost before = frames@;
            frames.push(frame_json(&self.frames[i]));
            proof {
                assert(frames@.drop_last() =~= before);
            }
            i += 1;
        }
        let mut t: Vec<(String, Json)> = Vec::new();
        entry(&mut t, "audio", Json::Table(audio));
        let counted = match counters {
            Some(x) => x.clone(),
            None => Json::Null,
        };
        entry(&mut t, "counters", counted);
        let over = match ended {
            Some(x) => text(x),
            None => Json::Null,
        };
        entry(&mut t, "ended", over);
        entry(&mut t, "events", Json::List(clone_all(&self.events)));
        entry(&mut t, "format", text(FORMAT));
        entry(&mut t, "frames", Json::List(frames));
        entry(&mut t, "sent", Json::List(clone_all(&self.sent)));
        entry(&mut t, "session", self.meta.clone());
        entry(&mut t, "started", text(&self.started));
        entry(&mut t, "version", text(version));
        proof {
            assert(entries_of(t@) =~= wanted);
        }
        Json::Table(t)
    }

    /// What is reported once the header is patched and the sidecar is written.
    pub fn finish(self) -> (r: Summary)
        ensures
            r.wav@ == self@.wav,
            r.sidecar@ == self@.sidecar,
            r.samples == self@.samples,
            r.frames == self@.frames.len(),
            r.decoded == decoded_among(self@.frames, self@.frames.len()),
    {
        let decoded: usize = count_decoded(&self.frames);
        let frames: usize = self.frames.len();
        Summary { wav: self.wav, sidecar: self.sidecar, samples: self.samples, frames, decoded }
    }
}

/// Whether a character of a time stamp stays in a name.
pub open spec fn stamp_char(c: char) -> bool {
    '0' <= c <= '9' || c == 'T'
}

/// The first `n` characters of a time stamp as a name has them: the digits, and a dash between
/// the day and the time.
pub open spec fn compact(stamp: Seq<char>, n: nat) -> Seq<char>
    decreases n,
{
    if n == 0 {
        Seq::empty()
    } else {
        let before = compact(stamp, (n - 1) as nat);
        let c = stamp[n - 1];
        if stamp_char(c) { before.push(if c == 'T' { '-' } else { c }) } else { before }
    }
}

/// A callsign with the characters a file's name cannot have replaced.
pub open spec fn clean_call(call: Seq<char>) -> Seq<char> {
    call.map_values(|c: char| if c == '/' || c == '\\' || c == ':' { '-' } else { c })
}

/// How much of a stamp a name is made from.
pub open spec fn stamp_len(stamp: Seq<char>) -> nat {
    if stamp.len() < 19 { stamp.len() } else { 19 }
}

/// The name a recording gets: when, who, and with whom.
pub open spec fn name_of(stamp: Seq<char>, callsign: Seq<char>, remote: Option<Seq<char>>) -> Seq<char> {
    compact(stamp, stamp_len(stamp)) + "_"@ + clean_call(callsign) + "_"@ + match remote {
        Some(r) => clean_call(r),
        None => "listen"@,
    }
}

fn cleaned(call: &str) -> (r: String)
    ensures
        r@ == clean_call(call@),
{
    let mut chars = chars_of(call);
    let ghost whole = call@;
    let mut i: usize = 0;
    while i < chars.len()
        invariant
            i <= chars.len(),
            whole == call@,
            chars@.len() == whole.len(),
            forall|j: int| 0 <= j < i ==> chars@[j] == clean_call(whole)[j],
            forall|j: int| i <= j < whole.len() ==> chars@[j] == whole[j],
        decreases chars.len() - i,
    {
        let c: char = chars[i];
        if c == '/' || c == '\\' || c == ':' {
            chars.set(i, '-');
        }
        i += 1;
    }
    proof {
        assert(chars@ =~= clean_call(whole));
        assert(chars@.subrange(0, chars@.len() as int) =~= chars@);
    }
    text_of(&chars, 0, chars.len())
}

/// The name a recording gets: when, who, and with whom. `stamp` is the time, RFC 3339:
/// `2026-09-14T12:34:56.789Z` is `20260914-123456`.
pub fn session_name(stamp: &str, callsign: &str, remote: Option<&str>) -> (r: String)
    ensures
        r@ == name_of(
            stamp@,
            callsign@,
            match remote {
                Some(s) => Some(s@),
                None => None,
            },
        ),
{
    let chars = chars_of(stamp);
    let n: usize = if chars.len() < 19 { chars.len() } else { 19 };
    let mut name = "".to_owned();
    let mut i: usize = 0;
    proof {
        reveal_strlit("");
        assert(name@ =~= Seq::empty());
    }
    while i < n
        invariant
            i <= n <= chars.len(),
            chars@ == stamp@,
            name@ == compact(stamp@, i as nat),
        decreases n - i,
    {
        let c: char = chars[i];
        if ('0' <= c && c <= '9') || c == 'T' {
            push_char(&mut name, if c == 'T' { '-' } else { c });
        }
        i += 1;
    }
    name.append("_");
    name.append(&cleaned(callsign));
    name.append("_");
    match remote {
        Some(r) => name.append(&cleaned(r)),
        None => name.append("listen"),
    }
    name
}

/// A recording's name has no character in it that parts a path, whatever the callsigns.
pub proof fn names_are_safe_for_a_file_system(stamp: Seq<char>, callsign: Seq<char>, remote: Option<Seq<char>>)
    ensures
        forall|i: int|
            0 <= i < name_of(stamp, callsign, remote).len() ==> (#[trigger] name_of(stamp, callsign, remote)[i]) != '/'
                && name_of(stamp, callsign, remote)[i] != '\\' && name_of(stamp, callsign, remote)[i] != ':',
{
    lemma_compact(stamp, stamp_len(stamp));
    reveal_strlit("_");
    reveal_strlit("listen");
}

proof fn lemma_compact(stamp: Seq<char>, n: nat)
    ensures
        forall|i: int|
            0 <= i < compact(stamp, n).len() ==> ('0' <= #[trigger] compact(stamp, n)[i] <= '9' || compact(stamp, n)[i]
                == '-'),
    decreases n,
{
    if n > 0 {
        let before = compact(stamp, (n - 1) as nat);
        let now = compact(stamp, n);
        lemma_compact(stamp, (n - 1) as nat);
        assert forall|i: int| 0 <= i < now.len() implies ('0' <= #[trigger] now[i] <= '9' || now[i] == '-') by {
            if i < before.len() {
                assert(now[i] == before[i]);
            }
        }
    }
}

} // verus!
