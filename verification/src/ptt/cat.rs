//! A radio's own command set over its CAT port.
use vstd::prelude::*;
use vstd::arithmetic::div_mod::lemma_mod_breakdown;
use vstd::utf8::{decode_first_codepoint, is_leading_byte_width_1, not_surrogate, pop_first_scalar, valid_utf8};

use crate::ptt::PttError;
use crate::text::{
    cat, chars_of, digit_value, digits, hex_list, hex_list_text, number_in, padded_numbers_read_back,
    parse_digits, whole, zero_padded, zero_padded_text,
};

verus! {

/// A radio's command set, as bytes on the wire: the published CAT protocols.
///
/// The commands are the manufacturers' own: Yaesu's ASCII CAT (`TX1;` keys, `TX0;` releases;
/// `FA;` asks the VFO-A frequency), Kenwood's (`TX;`, `RX;`, `FA;`), and Icom's CI-V frames
/// (`FE FE <rig> <controller> 1C 00 <01|00> FD` to key, `03` to ask the frequency, which
/// comes back as little-endian BCD).
///
/// On a Yaesu the keying command is `TX1;` and only that. The protocol's `TX2` is a *status*
/// the radio reports when something other than CAT keyed it, and sending it as a command does
/// nothing.
#[derive(Clone, Copy, PartialEq, Eq, Structural, Debug)]
pub enum CatProtocol {
    /// Yaesu ASCII CAT.
    Yaesu,
    /// Kenwood's ASCII protocol, which Elecraft speaks too.
    Kenwood,
    /// Icom CI-V, addressed to one radio.
    Icom {
        /// The radio's CI-V address.
        address: u8,
    },
}

/// The controller's own CI-V address; `E0` is what every rig-control program uses.
pub const CIV_CONTROLLER: u8 = 0xE0;

/// Whether bytes have other bytes at a place.
pub open spec fn bytes_at(s: Seq<u8>, t: Seq<u8>, at: int) -> bool {
    0 <= at && at + t.len() <= s.len() && s.subrange(at, at + t.len()) == t
}

/// The first place, from `from` on, where bytes have other bytes.
pub open spec fn first_bytes(s: Seq<u8>, t: Seq<u8>, from: int) -> Option<int>
    decreases s.len() - from + 1,
{
    if from > s.len() {
        None
    } else if bytes_at(s, t, from) {
        Some(from)
    } else {
        first_bytes(s, t, from + 1)
    }
}

fn matches_bytes(s: &[u8], t: &Vec<u8>, at: usize) -> (r: bool)
    ensures
        r == bytes_at(s@, t@, at as int),
{
    if at > s.len() || t.len() > s.len() - at {
        return false;
    }
    let mut i: usize = 0;
    while i < t.len()
        invariant
            i <= t.len(),
            at + t.len() <= s.len(),
            forall|j: int| 0 <= j < i ==> s@[at + j] == t@[j],
        decreases t.len() - i,
    {
        if s[at + i] != t[i] {
            proof {
                assert(s@.subrange(at as int, at + t@.len())[i as int] != t@[i as int]);
            }
            return false;
        }
        i += 1;
    }
    proof {
        assert(s@.subrange(at as int, at + t@.len()) =~= t@);
    }
    true
}

fn find_bytes(s: &[u8], t: &Vec<u8>) -> (r: Option<usize>)
    ensures
        match r {
            Some(i) => first_bytes(s@, t@, 0) == Some(i as int) && bytes_at(s@, t@, i as int) && i + t@.len() <= usize::MAX,
            None => first_bytes(s@, t@, 0) is None,
        },
{
    let mut i: usize = 0;
    while i < s.len()
        invariant
            i <= s.len(),
            first_bytes(s@, t@, 0) == first_bytes(s@, t@, i as int),
        decreases s.len() - i,
    {
        if matches_bytes(s, t, i) {
            return Some(i);
        }
        i += 1;
    }
    if matches_bytes(s, t, i) {
        return Some(i);
    }
    proof {
        assert(first_bytes(s@, t@, i as int) == first_bytes(s@, t@, i + 1));
    }
    None
}

/// The first place is the first: nothing before it matches.
proof fn lemma_first_bytes_is(s: Seq<u8>, t: Seq<u8>, from: int, n: int)
    requires
        0 <= from <= n <= s.len(),
        bytes_at(s, t, n),
        forall|i: int| from <= i < n ==> !bytes_at(s, t, i),
    ensures
        first_bytes(s, t, from) == Some(n),
    decreases n - from,
{
    if from < n {
        lemma_first_bytes_is(s, t, from + 1, n);
    }
}

/// How many bytes, from a place on, are decimal digits.
pub open spec fn digit_run(s: Seq<u8>, from: int) -> nat
    decreases s.len() - from,
{
    if 0 <= from < s.len() && 48 <= s[from] <= 57 {
        1 + digit_run(s, from + 1)
    } else {
        0
    }
}

/// Bytes as the characters they are in ASCII.
pub open spec fn ascii_chars(s: Seq<u8>) -> Seq<char> {
    s.map_values(|b: u8| b as char)
}

/// The frequency an ASCII answer gives: the digits behind the first `FA`, where the answer is
/// text, has any there, and the number fits.
pub open spec fn ascii_frequency(reply: Seq<u8>) -> Option<u64> {
    if !valid_utf8(reply) {
        None
    } else {
        match first_bytes(reply, seq![0x46u8, 0x41u8], 0) {
            None => None,
            Some(at) => {
                let start = at + 2;
                let run = digit_run(reply, start);
                match number_in(ascii_chars(reply.subrange(start, start + run))) {
                    Some(n) => if n <= u64::MAX { Some(n as u64) } else { None },
                    None => None,
                }
            },
        }
    }
}

/// The number binary-coded decimal gives, two digits a byte, the least significant byte
/// first; none where a half of a byte is no digit.
pub open spec fn bcd_value(s: Seq<u8>) -> Option<nat>
    decreases s.len(),
{
    if s.len() == 0 {
        Some(0)
    } else if s[0] / 16 > 9 || s[0] % 16 > 9 {
        None
    } else {
        match bcd_value(s.drop_first()) {
            Some(rest) => Some(rest * 100 + (s[0] as nat / 16) * 10 + s[0] as nat % 16),
            None => None,
        }
    }
}

/// The frequency a CI-V answer gives: the BCD between the answer's head and the next
/// terminator, four bytes or more of it.
pub open spec fn civ_frequency(reply: Seq<u8>, address: u8) -> Option<u64> {
    match first_bytes(reply, seq![0xFEu8, 0xFEu8, CIV_CONTROLLER, address, 0x03u8], 0) {
        None => None,
        Some(at) => {
            let data = reply.subrange(at + 5, reply.len() as int);
            match first_bytes(data, seq![0xFDu8], 0) {
                None => None,
                Some(end) => if end < 4 {
                    None
                } else {
                    match bcd_value(data.subrange(0, end)) {
                        Some(n) => if n <= u64::MAX { Some(n as u64) } else { None },
                        None => None,
                    }
                },
            }
        },
    }
}

/// Five bytes of binary-coded decimal, the least significant first.
pub open spec fn bcd_five(hz: nat) -> Seq<u8> {
    seq![
        bcd_pair(hz),
        bcd_pair(hz / 100),
        bcd_pair(hz / 100 / 100),
        bcd_pair(hz / 100 / 100 / 100),
        bcd_pair(hz / 100 / 100 / 100 / 100),
    ]
}

/// The last two decimal digits of a number in one byte.
pub open spec fn bcd_pair(n: nat) -> u8 {
    (((n % 100) / 10) * 16 + n % 10) as u8
}

/// What `core::str::from_utf8` accepts: it takes exactly the byte runs that are valid UTF-8.
#[verifier::external_body]
fn is_utf8(bytes: &[u8]) -> (r: bool)
    ensures
        r == valid_utf8(bytes@),
{
    core::str::from_utf8(bytes).is_ok()
}

/// A text's characters as bytes: for text that is ASCII.
pub open spec fn ascii_bytes(s: Seq<char>) -> Seq<u8> {
    s.map_values(|c: char| c as u8)
}

fn push_ascii(out: &mut Vec<u8>, s: &str)
    ensures
        final(out)@ == old(out)@ + ascii_bytes(s@),
{
    let ghost start = out@;
    let chars = chars_of(s);
    let mut i: usize = 0;
    proof {
        assert(start =~= start + ascii_bytes(s@.subrange(0, 0)));
    }
    while i < chars.len()
        invariant
            i <= chars.len(),
            chars@ == s@,
            out@ == start + ascii_bytes(s@.subrange(0, i as int)),
        decreases chars.len() - i,
    {
        out.push(chars[i] as u8);
        proof {
            assert(ascii_bytes(s@.subrange(0, i + 1)) =~= ascii_bytes(s@.subrange(0, i as int)).push(s@[i as int] as u8));
            assert(out@ =~= start + ascii_bytes(s@.subrange(0, i + 1)));
        }
        i += 1;
    }
    proof {
        assert(s@.subrange(0, i as int) =~= s@);
    }
}

impl CatProtocol {
    /// The bytes that put the radio into transmit, or take it out.
    pub open spec fn key_bytes(self, keyed: bool) -> Seq<u8> {
        match self {
            CatProtocol::Yaesu => if keyed { seq![0x54u8, 0x58u8, 0x31u8, 0x3Bu8] } else { seq![0x54u8, 0x58u8, 0x30u8, 0x3Bu8] },
            CatProtocol::Kenwood => if keyed { seq![0x54u8, 0x58u8, 0x3Bu8] } else { seq![0x52u8, 0x58u8, 0x3Bu8] },
            CatProtocol::Icom { address } => seq![
                0xFEu8, 0xFEu8, address, CIV_CONTROLLER, 0x1Cu8, 0x00u8, if keyed { 1u8 } else { 0u8 }, 0xFDu8,
            ],
        }
    }

    /// The bytes that put the radio into transmit, or take it out: `TX1;` and `TX0;`, `TX;`
    /// and `RX;`, or a CI-V frame.
    pub fn keying(self, keyed: bool) -> (r: Vec<u8>)
        ensures
            r@ == self.key_bytes(keyed),
    {
        let mut r: Vec<u8> = Vec::new();
        match self {
            CatProtocol::Yaesu => {
                r.push(0x54);
                r.push(0x58);
                r.push(if keyed { 0x31 } else { 0x30 });
                r.push(0x3B);
            },
            CatProtocol::Kenwood => {
                r.push(if keyed { 0x54 } else { 0x52 });
                r.push(0x58);
                r.push(0x3B);
            },
            CatProtocol::Icom { address } => {
                r.push(0xFE);
                r.push(0xFE);
                r.push(address);
                r.push(CIV_CONTROLLER);
                r.push(0x1C);
                r.push(0x00);
                r.push(if keyed { 1 } else { 0 });
                r.push(0xFD);
            },
        }
        proof {
            assert(r@ =~= self.key_bytes(keyed));
        }
        r
    }

    /// The bytes that ask for the operating frequency: `FA;`, or CI-V command 03.
    pub fn frequency_query(self) -> (r: Vec<u8>)
        ensures
            r@ == match self {
                CatProtocol::Icom { address } => seq![0xFEu8, 0xFEu8, address, CIV_CONTROLLER, 0x03u8, 0xFDu8],
                _ => seq![0x46u8, 0x41u8, 0x3Bu8],
            },
    {
        let mut r: Vec<u8> = Vec::new();
        match self {
            CatProtocol::Yaesu | CatProtocol::Kenwood => {
                r.push(0x46);
                r.push(0x41);
                r.push(0x3B);
                proof {
                    assert(r@ =~= seq![0x46u8, 0x41u8, 0x3Bu8]);
                }
            },
            CatProtocol::Icom { address } => {
                r.push(0xFE);
                r.push(0xFE);
                r.push(address);
                r.push(CIV_CONTROLLER);
                r.push(0x03);
                r.push(0xFD);
                proof {
                    assert(r@ =~= seq![0xFEu8, 0xFEu8, address, CIV_CONTROLLER, 0x03u8, 0xFDu8]);
                }
            },
        }
        r
    }

    /// The command that tunes VFO A.
    pub open spec fn tune_bytes(self, hz: u64) -> Seq<u8> {
        match self {
            CatProtocol::Yaesu => seq![0x46u8, 0x41u8] + ascii_bytes(zero_padded(hz as nat, 9)) + seq![0x3Bu8],
            CatProtocol::Kenwood => seq![0x46u8, 0x41u8] + ascii_bytes(zero_padded(hz as nat, 11)) + seq![0x3Bu8],
            CatProtocol::Icom { address } => seq![0xFEu8, 0xFEu8, address, CIV_CONTROLLER, 0x05u8] + bcd_five(hz as nat)
                + seq![0xFDu8],
        }
    }

    /// The command that tunes VFO A to `hz`: nine digits on a Yaesu, eleven on a Kenwood, and
    /// CI-V command 05 with the frequency as five BCD bytes, least significant first, on an
    /// Icom: the same layout its frequency answer uses.
    pub fn frequency_set(self, hz: u64) -> (r: Vec<u8>)
        ensures
            r@ == self.tune_bytes(hz),
    {
        let mut r: Vec<u8> = Vec::new();
        match self {
            CatProtocol::Yaesu | CatProtocol::Kenwood => {
                let width: usize = match self {
                    CatProtocol::Yaesu => 9,
                    _ => 11,
                };
                r.push(0x46);
                r.push(0x41);
                let text = zero_padded_text(hz as u128, width);
                push_ascii(&mut r, &text);
                r.push(0x3B);
                proof {
                    assert(r@ =~= self.tune_bytes(hz));
                }
            },
            CatProtocol::Icom { address } => {
                r.push(0xFE);
                r.push(0xFE);
                r.push(address);
                r.push(CIV_CONTROLLER);
                r.push(0x05);
                let mut rest: u64 = hz;
                r.push(((rest % 100) / 10 * 16 + rest % 10) as u8);
                rest = rest / 100;
                r.push(((rest % 100) / 10 * 16 + rest % 10) as u8);
                rest = rest / 100;
                r.push(((rest % 100) / 10 * 16 + rest % 10) as u8);
                rest = rest / 100;
                r.push(((rest % 100) / 10 * 16 + rest % 10) as u8);
                rest = rest / 100;
                r.push(((rest % 100) / 10 * 16 + rest % 10) as u8);
                r.push(0xFD);
                proof {
                    assert(r@ =~= self.tune_bytes(hz));
                }
            },
        }
        r
    }

    /// The frequency in hertz from the radio's answer, if the answer is one: none where the
    /// number would not fit.
    pub fn parse_frequency(self, reply: &[u8]) -> (r: Option<u64>)
        ensures
            r == match self {
                CatProtocol::Icom { address } => civ_frequency(reply@, address),
                _ => ascii_frequency(reply@),
            },
    {
        match self {
            CatProtocol::Yaesu | CatProtocol::Kenwood => {
                if !is_utf8(reply) {
                    return None;
                }
                let mut head: Vec<u8> = Vec::new();
                head.push(0x46);
                head.push(0x41);
                proof {
                    assert(head@ =~= seq![0x46u8, 0x41u8]);
                }
                let start: usize = match find_bytes(reply, &head) {
                    Some(at) => {
                        proof {
                            assert(at + head@.len() <= reply@.len());
                        }
                        at + 2
                    },
                    None => return None,
                };
                let mut run: Vec<char> = Vec::new();
                let mut i: usize = start;
                proof {
                    assert(ascii_chars(reply@.subrange(start as int, start as int)) =~= Seq::empty());
                }
                while i < reply.len() && 48 <= reply[i] && reply[i] <= 57
                    invariant
                        start <= i <= reply.len(),
                        run@ == ascii_chars(reply@.subrange(start as int, i as int)),
                        digit_run(reply@, start as int) == (i - start) + digit_run(reply@, i as int),
                    decreases reply.len() - i,
                {
                    run.push(reply[i] as char);
                    proof {
                        assert(ascii_chars(reply@.subrange(start as int, i + 1)) =~= ascii_chars(
                            reply@.subrange(start as int, i as int),
                        ).push(reply@[i as int] as char));
                    }
                    i += 1;
                }
                parse_digits(&run)
            },
            CatProtocol::Icom { address } => {
                let mut head: Vec<u8> = Vec::new();
                head.push(0xFE);
                head.push(0xFE);
                head.push(CIV_CONTROLLER);
                head.push(address);
                head.push(0x03);
                proof {
                    assert(head@ =~= seq![0xFEu8, 0xFEu8, CIV_CONTROLLER, address, 0x03u8]);
                }
                let at: usize = match find_bytes(reply, &head) {
                    Some(at) => at,
                    None => return None,
                };
                proof {
                    assert(at + head@.len() <= reply@.len());
                }
                let ghost data = reply@.subrange(at + 5, reply@.len() as int);
                let mut bcd: Vec<u8> = Vec::new();
                let mut i: usize = at + 5;
                proof {
                    assert(data.subrange(0, 0) =~= Seq::empty());
                }
                while i < reply.len() && reply[i] != 0xFD
                    invariant
                        at + 5 <= i <= reply.len(),
                        data == reply@.subrange(at + 5, reply@.len() as int),
                        bcd@ == data.subrange(0, i - (at + 5)),
                        first_bytes(data, seq![0xFDu8], 0) == first_bytes(data, seq![0xFDu8], i - (at + 5)),
                    decreases reply.len() - i,
                {
                    proof {
                        let k = i - (at + 5);
                        assert(data[k] == reply@[i as int]);
                        assert(data.subrange(0, k + 1) =~= data.subrange(0, k).push(data[k]));
                        if bytes_at(data, seq![0xFDu8], k) {
                            assert(data.subrange(k, k + 1)[0] == 0xFDu8);
                        }
                    }
                    bcd.push(reply[i]);
                    i += 1;
                }
                proof {
                    let k = i - (at + 5);
                    if i < reply.len() {
                        assert(data[k] == 0xFDu8);
                        assert(data.subrange(k, k + 1) =~= seq![0xFDu8]);
                        assert(bytes_at(data, seq![0xFDu8], k));
                    } else {
                        assert(!bytes_at(data, seq![0xFDu8], k));
                        assert(first_bytes(data, seq![0xFDu8], k) == first_bytes(data, seq![0xFDu8], k + 1));
                    }
                }
                if i >= reply.len() {
                    return None;
                }
                if bcd.len() < 4 {
                    return None;
                }
                read_bcd(&bcd)
            },
        }
    }

    /// Whether the radio answers a keying command at all, so a missing answer means
    /// something. Yaesu and Kenwood radios say nothing on success; an Icom always answers
    /// `FB` (done) or `FA` (refused).
    pub fn acknowledges_keying(self) -> (r: bool)
        ensures
            r == (self is Icom),
    {
        match self {
            CatProtocol::Icom { .. } => true,
            _ => false,
        }
    }

    /// Whether a CI-V answer says the command was carried out.
    pub open spec fn accepts(self, reply: Seq<u8>) -> bool {
        match self {
            CatProtocol::Icom { address } => exists|i: int|
                bytes_at(reply, seq![0xFEu8, 0xFEu8, CIV_CONTROLLER, address, 0xFBu8, 0xFDu8], i),
            _ => true,
        }
    }

    /// Whether a CI-V answer says the command was carried out; the others say nothing, which
    /// is as good.
    pub fn keying_accepted(self, reply: &[u8]) -> (r: bool)
        ensures
            r == self.accepts(reply@),
    {
        match self {
            CatProtocol::Icom { address } => {
                let mut done: Vec<u8> = Vec::new();
                done.push(0xFE);
                done.push(0xFE);
                done.push(CIV_CONTROLLER);
                done.push(address);
                done.push(0xFB);
                done.push(0xFD);
                proof {
                    assert(done@ =~= seq![0xFEu8, 0xFEu8, CIV_CONTROLLER, address, 0xFBu8, 0xFDu8]);
                    lemma_first_bytes(reply@, done@, 0);
                }
                find_bytes(reply, &done).is_some()
            },
            _ => true,
        }
    }

    /// Whether an answer is whole: what has arrived ends a command of this dialect.
    pub fn answer_complete(self, got: &Vec<u8>) -> (r: bool)
        ensures
            r == (exists|i: int| 0 <= i < got@.len() && #[trigger] got@[i] == (if self is Icom { 0xFDu8 } else { 0x3Bu8 })),
    {
        let end: u8 = match self {
            CatProtocol::Icom { .. } => 0xFD,
            _ => 0x3B,
        };
        let mut i: usize = 0;
        while i < got.len()
            invariant
                i <= got.len(),
                end == if self is Icom { 0xFDu8 } else { 0x3Bu8 },
                forall|j: int| 0 <= j < i ==> #[trigger] got@[j] != end,
            decreases got.len() - i,
        {
            if got[i] == end {
                return true;
            }
            i += 1;
        }
        false
    }

    /// What a keying command came to, by what the radio answered on the port `path`.
    pub fn keying_outcome(self, path: &str, got: &Vec<u8>) -> (r: Result<(), PttError>)
        ensures
            self.accepts(got@) ==> r is Ok,
            !self.accepts(got@) ==> (r matches Err(PttError::Backend(m)) && m@ == path@
                + ": the radio did not accept the keying command (answer "@ + hex_list(got@)
                + "); check the CI-V address and rate"@),
    {
        if self.keying_accepted(got.as_slice()) {
            Ok(())
        } else {
            let mut m = cat(path, ": the radio did not accept the keying command (answer ");
            m.append(&hex_list_text(got));
            m.append("); check the CI-V address and rate");
            Err(PttError::Backend(m))
        }
    }

    /// What a tuning command came to on a radio that answers it, by its answer.
    pub fn tuning_outcome(self, path: &str, got: &Vec<u8>) -> (r: Result<(), PttError>)
        ensures
            self.accepts(got@) ==> r is Ok,
            !self.accepts(got@) ==> (r matches Err(PttError::Backend(m)) && m@ == path@
                + ": the radio did not accept the frequency (answer "@ + hex_list(got@) + ")"@),
    {
        if self.keying_accepted(got.as_slice()) {
            Ok(())
        } else {
            let mut m = cat(path, ": the radio did not accept the frequency (answer ");
            m.append(&hex_list_text(got));
            m.append(")");
            Err(PttError::Backend(m))
        }
    }

    /// What a CAT port is, for a log line.
    pub fn describe(self, path: &str) -> (r: String)
        ensures
            r@ == (match self {
                CatProtocol::Yaesu => "Yaesu CAT"@,
                CatProtocol::Kenwood => "Kenwood CAT"@,
                CatProtocol::Icom { .. } => "Icom CI-V"@,
            }) + " on "@ + path@,
    {
        let which: &str = match self {
            CatProtocol::Yaesu => "Yaesu CAT",
            CatProtocol::Kenwood => "Kenwood CAT",
            CatProtocol::Icom { .. } => "Icom CI-V",
        };
        let mut s = cat(which, " on ");
        s.append(path);
        s
    }
}

/// What a tuning command came to on a radio that says nothing back: the dial is read to see
/// that it moved, to within ten hertz.
pub fn tuned(path: &str, hz: u64, reads: Option<u64>) -> (r: Result<(), PttError>)
    ensures
        match reads {
            Some(now) => {
                let off = if now >= hz { now - hz } else { hz - now };
                &&& off <= 10 ==> r is Ok
                &&& off > 10 ==> (r matches Err(PttError::Backend(m)) && m@ == path@ + ": the radio reads "@
                    + digits(now as nat) + " Hz after being asked for "@ + digits(hz as nat)
                    + "; a locked VFO or a band the radio has not got"@)
            },
            None => r matches Err(PttError::Backend(m)) && m@ == path@
                + ": the radio did not answer after the frequency was set"@,
        },
{
    match reads {
        Some(now) => {
            let off: u64 = if now >= hz { now - hz } else { hz - now };
            if off <= 10 {
                Ok(())
            } else {
                let mut m = cat(path, ": the radio reads ");
                m.append(&whole(now as u128));
                m.append(" Hz after being asked for ");
                m.append(&whole(hz as u128));
                m.append("; a locked VFO or a band the radio has not got");
                Err(PttError::Backend(m))
            }
        },
        None => Err(PttError::Backend(cat(path, ": the radio did not answer after the frequency was set"))),
    }
}

/// Binary-coded decimal, from its most significant end down to a byte.
spec fn bcd_from(s: Seq<u8>, from: int) -> Option<nat> {
    bcd_value(s.subrange(from, s.len() as int))
}

proof fn lemma_bcd_shorter(s: Seq<u8>, n: int)
    requires
        0 <= n <= s.len(),
    ensures
        bcd_value(s) is Some ==> bcd_from(s, n) is Some && bcd_from(s, n)->0 <= bcd_value(s)->0,
    decreases n,
{
    if n == 0 {
        assert(s.subrange(0, s.len() as int) =~= s);
    } else {
        let rest = s.drop_first();
        lemma_bcd_shorter(rest, n - 1);
        assert(rest.subrange(n - 1, rest.len() as int) =~= s.subrange(n, s.len() as int));
        if bcd_value(s) is Some {
            assert(bcd_value(rest) is Some);
        }
    }
}

fn read_bcd(bcd: &Vec<u8>) -> (r: Option<u64>)
    ensures
        r == match bcd_value(bcd@) {
            Some(n) => if n <= u64::MAX { Some(n as u64) } else { None },
            None => None::<u64>,
        },
{
    let mut hz: u64 = 0;
    let mut i: usize = bcd.len();
    proof {
        assert(bcd@.subrange(i as int, bcd@.len() as int) =~= Seq::empty());
    }
    while i > 0
        invariant
            i <= bcd.len(),
            bcd_from(bcd@, i as int) == Some(hz as nat),
        decreases i,
    {
        let byte: u8 = bcd[i - 1];
        proof {
            let here = bcd@.subrange(i - 1, bcd@.len() as int);
            assert(here.drop_first() =~= bcd@.subrange(i as int, bcd@.len() as int));
            assert(here[0] == byte);
            lemma_bcd_shorter(bcd@, i - 1);
        }
        let high: u64 = (byte / 16) as u64;
        let low: u64 = (byte % 16) as u64;
        if high > 9 || low > 9 {
            return None;
        }
        let shifted: u64 = match hz.checked_mul(100) {
            Some(v) => v,
            None => return None,
        };
        hz = match shifted.checked_add(high * 10 + low) {
            Some(v) => v,
            None => return None,
        };
        i -= 1;
    }
    proof {
        assert(bcd@.subrange(0, bcd@.len() as int) =~= bcd@);
    }
    Some(hz)
}

proof fn lemma_first_bytes(s: Seq<u8>, t: Seq<u8>, from: int)
    requires
        0 <= from,
    ensures
        first_bytes(s, t, from) is Some <==> exists|i: int| from <= i && bytes_at(s, t, i),
        (exists|i: int| bytes_at(s, t, i)) && from == 0 ==> first_bytes(s, t, from) is Some,
    decreases s.len() - from + 1,
{
    if from <= s.len() && !bytes_at(s, t, from) {
        lemma_first_bytes(s, t, from + 1);
        if exists|i: int| from <= i && bytes_at(s, t, i) {
            let i = choose|i: int| from <= i && bytes_at(s, t, i);
            assert(from + 1 <= i && bytes_at(s, t, i));
        }
    }
    if exists|i: int| bytes_at(s, t, i) {
        let i = choose|i: int| bytes_at(s, t, i);
        if from == 0 {
            assert(from <= i && bytes_at(s, t, i));
        }
    }
}

proof fn lemma_bcd_pair(n: nat)
    ensures
        bcd_pair(n) / 16 == (n % 100) / 10,
        bcd_pair(n) % 16 == n % 10,
        bcd_pair(n) / 16 <= 9,
        bcd_pair(n) % 16 <= 9,
        bcd_pair(n) != 0xFD,
        (bcd_pair(n) / 16) * 10 + bcd_pair(n) % 16 == n % 100,
{
    let high = (n % 100) / 10;
    let low = n % 10;
    assert(high <= 9 && low <= 9);
    assert(((high * 16 + low) as u8) as nat == high * 16 + low);
}

/// Five bytes of binary-coded decimal read back as the number, as far as ten digits hold it.
pub proof fn bcd_reads_back(hz: nat)
    ensures
        bcd_value(bcd_five(hz)) == Some(hz % 10_000_000_000),
{
    let n1 = hz / 100;
    let n2 = n1 / 100;
    let n3 = n2 / 100;
    let n4 = n3 / 100;
    lemma_bcd_pair(hz);
    lemma_bcd_pair(n1);
    lemma_bcd_pair(n2);
    lemma_bcd_pair(n3);
    lemma_bcd_pair(n4);
    let s = bcd_five(hz);
    let s1 = s.drop_first();
    let s2 = s1.drop_first();
    let s3 = s2.drop_first();
    let s4 = s3.drop_first();
    assert(s4.drop_first() =~= Seq::empty());
    assert(s[0] == bcd_pair(hz) && s1[0] == bcd_pair(n1) && s2[0] == bcd_pair(n2) && s3[0] == bcd_pair(n3) && s4[0]
        == bcd_pair(n4));
    assert(bcd_value(s4.drop_first()) == Some(0nat));
    assert(bcd_value(s4) == Some(n4 % 100));
    lemma_mod_breakdown(n3 as int, 100, 100);
    assert(bcd_value(s3) == Some(n3 % 10_000));
    lemma_mod_breakdown(n2 as int, 100, 10_000);
    assert(bcd_value(s2) == Some(n2 % 1_000_000));
    lemma_mod_breakdown(n1 as int, 100, 1_000_000);
    assert(bcd_value(s1) == Some(n1 % 100_000_000));
    lemma_mod_breakdown(hz as int, 100, 100_000_000);
}

/// An Icom's tuning command and its frequency answer use one layout: an answer with the five
/// bytes of the command gives back the frequency, as far as ten digits hold it.
pub proof fn civ_frequency_reads_back(address: u8, hz: u64)
    ensures
        ({
            let answer = seq![0xFEu8, 0xFEu8, CIV_CONTROLLER, address, 0x03u8] + bcd_five(hz as nat) + seq![0xFDu8];
            civ_frequency(answer, address) == Some((hz as nat % 10_000_000_000) as u64)
        }),
{
    let head = seq![0xFEu8, 0xFEu8, CIV_CONTROLLER, address, 0x03u8];
    let five = bcd_five(hz as nat);
    let answer = head + five + seq![0xFDu8];
    assert(answer.subrange(0, 5) =~= head);
    assert(bytes_at(answer, head, 0));
    let data = answer.subrange(5, answer.len() as int);
    assert(data =~= five + seq![0xFDu8]);
    lemma_bcd_pair(hz as nat);
    lemma_bcd_pair(hz as nat / 100);
    lemma_bcd_pair(hz as nat / 100 / 100);
    lemma_bcd_pair(hz as nat / 100 / 100 / 100);
    lemma_bcd_pair(hz as nat / 100 / 100 / 100 / 100);
    assert forall|i: int| 0 <= i < 5 implies !bytes_at(data, seq![0xFDu8], i) by {
        assert(data.subrange(i, i + 1)[0] == data[i]);
        assert(data[i] == five[i]);
    }
    assert(data.subrange(5, 6) =~= seq![0xFDu8]);
    lemma_first_bytes_is(data, seq![0xFDu8], 0, 5);
    assert(data.subrange(0, 5) =~= five);
    bcd_reads_back(hz as nat);
}

proof fn lemma_digit_run(s: Seq<u8>, from: int, n: nat)
    requires
        0 <= from,
        from + n <= s.len(),
        forall|i: int| from <= i < from + n ==> 48 <= #[trigger] s[i] <= 57,
        from + n < s.len() ==> !(48 <= s[from + n] <= 57),
    ensures
        digit_run(s, from) == n,
    decreases n,
{
    if n > 0 {
        assert(48 <= s[from] <= 57);
        lemma_digit_run(s, from + 1, (n - 1) as nat);
    }
}

proof fn lemma_ascii_is_utf8(s: Seq<u8>)
    requires
        forall|i: int| 0 <= i < s.len() ==> #[trigger] s[i] < 128,
    ensures
        valid_utf8(s),
    decreases s.len(),
{
    if s.len() > 0 {
        let b = s[0];
        assert(b < 128);
        assert(is_leading_byte_width_1(b));
        assert(b as u32 & 0x7F < 128) by (bit_vector);
        assert(not_surrogate(decode_first_codepoint(s)));
        assert(pop_first_scalar(s) =~= s.drop_first());
        assert forall|i: int| 0 <= i < s.drop_first().len() implies #[trigger] s.drop_first()[i] < 128 by {
            assert(s.drop_first()[i] == s[i + 1]);
        }
        lemma_ascii_is_utf8(s.drop_first());
    }
}

/// An ASCII tuning command is read back as the frequency it tunes to, where it is sent back
/// as the answer: the two use one layout.
pub proof fn ascii_frequency_reads_back(protocol: CatProtocol, hz: u64)
    requires
        !(protocol is Icom),
    ensures
        ascii_frequency(protocol.tune_bytes(hz)) == Some(hz),
{
    let width: nat = if protocol is Yaesu { 9 } else { 11 };
    let text = zero_padded(hz as nat, width);
    let bytes = ascii_bytes(text);
    let reply = seq![0x46u8, 0x41u8] + bytes + seq![0x3Bu8];
    assert(reply =~= protocol.tune_bytes(hz));
    padded_numbers_read_back(hz as nat, width);
    assert(reply.subrange(0, 2) =~= seq![0x46u8, 0x41u8]);
    assert(bytes_at(reply, seq![0x46u8, 0x41u8], 0));
    assert forall|i: int| 2 <= i < 2 + bytes.len() implies 48 <= #[trigger] reply[i] <= 57 by {
        assert(reply[i] == bytes[i - 2]);
        assert(digit_value(text[i - 2]) is Some);
    }
    assert(reply[2 + bytes.len() as int] == 0x3Bu8);
    assert forall|i: int| 0 <= i < reply.len() implies #[trigger] reply[i] < 128 by {
        if 2 <= i < 2 + bytes.len() {
            assert(48 <= reply[i] <= 57);
        }
    }
    lemma_ascii_is_utf8(reply);
    lemma_digit_run(reply, 2, bytes.len());
    let run = reply.subrange(2, 2 + bytes.len() as int);
    assert(run =~= bytes);
    assert forall|i: int| 0 <= i < text.len() implies #[trigger] ascii_chars(run)[i] == text[i] by {
        assert(digit_value(text[i]) is Some);
    }
    assert(ascii_chars(run) =~= text);
}

} // verus!
