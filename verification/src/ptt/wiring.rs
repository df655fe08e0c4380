//! What goes down the wire to a radio, and what is made of what comes back.
use vstd::prelude::*;

use crate::figures::{a_number_is_written_in_figures, all_figures, noughts_in_front_change_nothing, read_off};
use crate::ptt::cat::{ascii_bytes, bcd_five, bcd_reads_back, bcd_value, bytes_at, CatProtocol};
use crate::ptt::gpio::{
    device_key, first_picked, interfaces_among, known_codec, pin_bit, seen_before, GpioInterfaceInfo, HidEntry,
};
use crate::ptt::{key_run, KeyClock, KeyEvent};
use crate::text::{contains, lowercase, zero_padded};

verus! {

/// A CI-V command: two bytes of preamble, the radio it is for, the controller it is from, what
/// is asked, and the end.
pub open spec fn civ_command(address: u8, body: Seq<u8>) -> Seq<u8> {
    seq![0xFEu8, 0xFEu8, address, 0xE0u8] + body + seq![0xFDu8]
}

/// A CI-V answer: the same, to the controller and from the radio.
pub open spec fn civ_answer(address: u8, body: Seq<u8>) -> Seq<u8> {
    seq![0xFEu8, 0xFEu8, 0xE0u8, address] + body + seq![0xFDu8]
}

/// An Icom radio is keyed and tuned by commands addressed to it: the transmit setting on or
/// off, and the frequency in five bytes that read as the frequency.
pub proof fn a_civ_command_is_for_the_radio(address: u8, hz: u64)
    ensures
        ({
            let radio = CatProtocol::Icom { address };
            &&& radio.key_bytes(true) == civ_command(address, seq![0x1Cu8, 0x00u8, 0x01u8])
            &&& radio.key_bytes(false) == civ_command(address, seq![0x1Cu8, 0x00u8, 0x00u8])
            &&& exists|five: Seq<u8>|
                #![trigger bcd_value(five)]
                {
                    &&& radio.tune_bytes(hz) == civ_command(address, seq![0x05u8] + five)
                    &&& five.len() == 5
                    &&& hz < 10_000_000_000 ==> bcd_value(five) == Some(hz as nat)
                }
        }),
{
    let radio = CatProtocol::Icom { address };
    assert(radio.key_bytes(true) =~= civ_command(address, seq![0x1Cu8, 0x00u8, 0x01u8]));
    assert(radio.key_bytes(false) =~= civ_command(address, seq![0x1Cu8, 0x00u8, 0x00u8]));
    let five = bcd_five(hz as nat);
    bcd_reads_back(hz as nat);
    assert(radio.tune_bytes(hz) =~= civ_command(address, seq![0x05u8] + five));
    assert(bcd_value(five) == Some(hz as nat % 10_000_000_000));
}

/// A Yaesu or a Kenwood radio is keyed and tuned by text that ends in a semicolon: `TX` and a
/// number, `TX` or `RX`, and `FA` with the frequency in as many figures as the radio reads.
pub proof fn an_ascii_command_is_text(keyed: bool, hz: u64)
    ensures
        CatProtocol::Yaesu.key_bytes(keyed) == ascii_bytes(if keyed { "TX1;"@ } else { "TX0;"@ }),
        CatProtocol::Kenwood.key_bytes(keyed) == ascii_bytes(if keyed { "TX;"@ } else { "RX;"@ }),
        exists|figures: Seq<char>|
            #![trigger read_off(figures)]
            {
                &&& CatProtocol::Yaesu.tune_bytes(hz) == ascii_bytes("FA"@ + figures + ";"@)
                &&& all_figures(figures) && read_off(figures) == hz
                &&& figures.len() >= 9
                &&& figures.len() > 9 ==> figures[0] != '0'
            },
        exists|figures: Seq<char>|
            #![trigger read_off(figures)]
            {
                &&& CatProtocol::Kenwood.tune_bytes(hz) == ascii_bytes("FA"@ + figures + ";"@)
                &&& all_figures(figures) && read_off(figures) == hz
                &&& figures.len() >= 11
                &&& figures.len() > 11 ==> figures[0] != '0'
            },
{
    reveal_strlit("TX1;");
    reveal_strlit("TX0;");
    reveal_strlit("TX;");
    reveal_strlit("RX;");
    reveal_strlit("FA");
    reveal_strlit(";");
    assert(CatProtocol::Yaesu.key_bytes(keyed) =~= ascii_bytes(if keyed { "TX1;"@ } else { "TX0;"@ }));
    assert(CatProtocol::Kenwood.key_bytes(keyed) =~= ascii_bytes(if keyed { "TX;"@ } else { "RX;"@ }));
    let nine = zero_padded(hz as nat, 9);
    let eleven = zero_padded(hz as nat, 11);
    noughts_in_front_change_nothing(hz as nat, 9);
    noughts_in_front_change_nothing(hz as nat, 11);
    a_number_is_written_in_figures(hz as nat);
    assert(CatProtocol::Yaesu.tune_bytes(hz) =~= ascii_bytes("FA"@ + nine + ";"@));
    assert(CatProtocol::Kenwood.tune_bytes(hz) =~= ascii_bytes("FA"@ + eleven + ";"@));
    assert(read_off(nine) == hz);
    assert(read_off(eleven) == hz);
}

/// An Icom radio's yes is taken wherever it stands among what came back, and only from that
/// radio: where no byte says yes, none was said.
pub proof fn a_yes_is_the_radios_own(address: u8, before: Seq<u8>, behind: Seq<u8>, reply: Seq<u8>)
    ensures
        (CatProtocol::Icom { address }).accepts(before + civ_answer(address, seq![0xFBu8]) + behind),
        (CatProtocol::Icom { address }).accepts(reply) ==> exists|i: int|
            0 <= i && i + 6 <= reply.len() && #[trigger] reply[i] == 0xFE && reply[i + 1] == 0xFE && reply[i + 2] == 0xE0
                && reply[i + 3] == address && reply[i + 4] == 0xFB && reply[i + 5] == 0xFD,
        CatProtocol::Yaesu.accepts(reply),
        CatProtocol::Kenwood.accepts(reply),
{
    let yes = seq![0xFEu8, 0xFEu8, 0xE0u8, address, 0xFBu8, 0xFDu8];
    assert(civ_answer(address, seq![0xFBu8]) =~= yes);
    let all = before + civ_answer(address, seq![0xFBu8]) + behind;
    let at = before.len() as int;
    assert(all.subrange(at, at + 6) =~= yes);
    assert(bytes_at(all, yes, at));
    if (CatProtocol::Icom { address }).accepts(reply) {
        let i = choose|i: int| bytes_at(reply, yes, i);
        assert(bytes_at(reply, yes, i));
        let part = reply.subrange(i, i + 6);
        assert(part[0] == reply[i] && part[1] == reply[i + 1] && part[2] == reply[i + 2] && part[3] == reply[i + 3]
            && part[4] == reply[i + 4] && part[5] == reply[i + 5]);
    }
}

/// A keyed radio is released when it has been keyed for as long as it may be, and not before;
/// a key that nothing holds is never released for being held.
pub proof fn the_key_is_released_at_the_limit(limit_us: u64, trips: usize, start: u64, now: u64)
    requires
        start <= now,
        trips < usize::MAX,
    ensures
        ({
            let c = KeyClock { limit_us, since: None, tripped: false, trips };
            let held = key_run(c, seq![KeyEvent::Key { now: start, taken: true }]);
            let polled = key_run(c, seq![KeyEvent::Key { now: start, taken: true }, KeyEvent::Poll { now }]);
            &&& held == KeyClock { since: Some(start), ..c }
            &&& now - start < limit_us ==> polled == held
            &&& now - start >= limit_us ==> polled.since is None && polled.tripped && polled.trips == trips + 1
                && polled.limit_us == limit_us
            &&& key_run(c, seq![KeyEvent::Poll { now }]) == c
        }),
{
    let c = KeyClock { limit_us, since: None, tripped: false, trips };
    let one = seq![KeyEvent::Key { now: start, taken: true }];
    let two = seq![KeyEvent::Key { now: start, taken: true }, KeyEvent::Poll { now }];
    let poll = seq![KeyEvent::Poll { now }];
    reveal_with_fuel(key_run, 3);
    assert(one.drop_last() =~= Seq::empty());
    assert(two.drop_last() =~= one);
    assert(poll.drop_last() =~= Seq::empty());
}

/// A key released in time is up, with its clock stopped and no trip counted; keying it again
/// starts the clock from then.
pub proof fn a_release_in_time_is_no_trip(limit_us: u64, trips: usize, start: u64, again: u64)
    ensures
        ({
            let c = KeyClock { limit_us, since: None, tripped: false, trips };
            let down = KeyEvent::Key { now: start, taken: true };
            &&& key_run(c, seq![down, KeyEvent::Unkey]) == c
            &&& key_run(c, seq![down, KeyEvent::Unkey, KeyEvent::Key { now: again, taken: true }]) == KeyClock {
                since: Some(again),
                ..c
            }
            &&& key_run(c, seq![KeyEvent::Key { now: start, taken: false }]) == c
        }),
{
    let c = KeyClock { limit_us, since: None, tripped: false, trips };
    let down = KeyEvent::Key { now: start, taken: true };
    let two = seq![down, KeyEvent::Unkey];
    let three = seq![down, KeyEvent::Unkey, KeyEvent::Key { now: again, taken: true }];
    let refused = seq![KeyEvent::Key { now: start, taken: false }];
    reveal_with_fuel(key_run, 4);
    assert(seq![down].drop_last() =~= Seq::empty());
    assert(two.drop_last() =~= seq![down]);
    assert(three.drop_last() =~= two);
    assert(refused.drop_last() =~= Seq::empty());
}

/// The interfaces listed are the known codecs, in the order they were found, one for each
/// device however many times it shows up.
pub proof fn each_codec_is_listed_once(devices: Seq<HidEntry>, n: nat, i: int)
    requires
        n <= devices.len(),
        0 <= i < n,
    ensures
        known_codec(devices[i].vendor, devices[i].product) ==> exists|j: int, k: int|
            #![trigger devices[j], interfaces_among(devices, n)[k]]
            0 <= j <= i && 0 <= k < interfaces_among(devices, n).len() && device_key(devices[j].path@) == device_key(
                devices[i].path@,
            ) && interfaces_among(devices, n)[k].0 == devices[j].path@,
        interfaces_among(devices, n).len() <= n,
    decreases n,
{
    let before = interfaces_among(devices, (n - 1) as nat);
    let all = interfaces_among(devices, n);
    if n > 1 {
        each_codec_is_listed_once(devices, (n - 1) as nat, if i < n - 1 { i } else { 0 });
    }
    if known_codec(devices[i].vendor, devices[i].product) {
        if i < n - 1 {
            let (j, k) = choose|j: int, k: int|
                #![trigger devices[j], before[k]]
                0 <= j <= i && 0 <= k < before.len() && device_key(devices[j].path@) == device_key(devices[i].path@)
                    && before[k].0 == devices[j].path@;
            assert(all[k] == before[k]);
            assert(devices[j].path@ == all[k].0);
        } else if seen_before(devices, device_key(devices[i].path@), n - 1) {
            let e = choose|e: int|
                0 <= e < n - 1 && known_codec((#[trigger] devices[e]).vendor, devices[e].product) && device_key(
                    devices[e].path@,
                ) == device_key(devices[i].path@);
            each_codec_is_listed_once(devices, (n - 1) as nat, e);
            let (j, k) = choose|j: int, k: int|
                #![trigger devices[j], before[k]]
                0 <= j <= e && 0 <= k < before.len() && device_key(devices[j].path@) == device_key(devices[e].path@)
                    && before[k].0 == devices[j].path@;
            assert(all[k] == before[k]);
            assert(devices[j].path@ == all[k].0);
        } else {
            assert(all[before.len() as int].0 == devices[i].path@);
        }
    }
}

/// A report drives the pin it is for and no other: pin one is the lowest bit and each pin after
/// it the next.
pub proof fn the_pins_are_the_bits_in_order(pin: u8)
    requires
        1 <= pin < 8,
    ensures
        pin_bit(1) == 1,
        pin_bit((pin + 1) as u8) == 2 * pin_bit(pin),
{
}

/// The interface picked is the first that is asked for: by its path, or by a part of its name in
/// any case. Where none is, none is picked.
pub proof fn the_first_that_is_asked_for_is_picked(listed: Seq<GpioInterfaceInfo>, wanted: Seq<char>, from: nat)
    requires
        from <= listed.len(),
    ensures
        ({
            let n = first_picked(listed, wanted, from);
            &&& from <= n <= listed.len()
            &&& n < listed.len() ==> listed[n as int].path@ == wanted || contains(
                lowercase(listed[n as int].name@),
                lowercase(wanted),
            )
            &&& forall|i: int|
                from <= i < n ==> (#[trigger] listed[i]).path@ != wanted && !contains(
                    lowercase(listed[i].name@),
                    lowercase(wanted),
                )
        }),
    decreases listed.len() - from,
{
    if from < listed.len() && listed[from as int].path@ != wanted && !contains(
        lowercase(listed[from as int].name@),
        lowercase(wanted),
    ) {
        the_first_that_is_asked_for_is_picked(listed, wanted, from + 1);
    }
}

} // verus!
