//! Keying, the watchdog, and what is said to a radio.
use aetherd::ptt::{
    gpio_report, instance_key, is_gpio_codec, validate_callsign, BrokenPtt, CatProtocol, NullPtt, Ptt, PttError,
    PttWatchdog, SerialLine, SerialPortInfo, WatchdogState,
};
use aetherd::ptt::cat::tuned;
use aetherd::ptt::gpio::{choose_interface, gpio_interfaces_in, GpioInterfaceInfo, HidEntry};
use aetherd::ptt::ports::PortKind;
use aetherd::ptt::rigctld::{command_outcome, frequency_in, key_line, query_outcome, tune_line};

/// Seconds of the station's clock.
fn s(seconds: f64) -> u64 {
    (seconds * 1_000_000.0) as u64
}

#[test]
fn cat_commands_are_the_published_ones() {
    // TX1 and only TX1: TX2 is what the radio *reports* when its mic or data jack
    // keyed it, and as a command an FTDX10 ignores it (Hamlib and flrig both send TX1)
    let yaesu = CatProtocol::Yaesu;
    assert_eq!(yaesu.keying(true), b"TX1;");
    assert_eq!(yaesu.keying(false), b"TX0;");
    assert_ne!(yaesu.keying(true), b"TX2;", "a status code is not a command");
    assert_eq!(CatProtocol::Kenwood.keying(true), b"TX;");
    assert_eq!(CatProtocol::Kenwood.keying(false), b"RX;");
    let icom = CatProtocol::Icom { address: 0x94 };
    assert_eq!(
        icom.keying(true),
        [0xFE, 0xFE, 0x94, 0xE0, 0x1C, 0x00, 0x01, 0xFD]
    );
    assert_eq!(
        icom.keying(false),
        [0xFE, 0xFE, 0x94, 0xE0, 0x1C, 0x00, 0x00, 0xFD]
    );
    assert_eq!(icom.frequency_query(), [0xFE, 0xFE, 0x94, 0xE0, 0x03, 0xFD]);
    assert!(!icom.keying_accepted(&[0xFE, 0xFE, 0xE0, 0x94, 0xFA, 0xFD]));
    assert!(icom.keying_accepted(&[0xFE, 0xFE, 0xE0, 0x94, 0xFB, 0xFD]));
}

#[test]
fn the_tuning_command_is_the_published_one_in_each_dialect() {
    let yaesu = CatProtocol::Yaesu;
    assert_eq!(yaesu.frequency_set(14_107_000), b"FA014107000;");
    assert_eq!(
        CatProtocol::Kenwood.frequency_set(7_101_000),
        b"FA00007101000;"
    );
    let icom = CatProtocol::Icom { address: 0x94 };
    let command = icom.frequency_set(14_107_000);
    assert_eq!(
        command,
        [0xFE, 0xFE, 0x94, 0xE0, 0x05, 0x00, 0x70, 0x10, 0x14, 0x00, 0xFD]
    );
    // the same five bytes read back as the frequency: one layout both ways
    let mut answer = vec![0xFE, 0xFE, 0xE0, 0x94, 0x03];
    answer.extend_from_slice(&command[5..10]);
    answer.push(0xFD);
    assert_eq!(icom.parse_frequency(&answer), Some(14_107_000));
}

#[test]
fn a_frequency_answer_is_read_in_each_dialect() {
    let yaesu = CatProtocol::Yaesu;
    assert_eq!(yaesu.parse_frequency(b"FA014107000;"), Some(14_107_000));
    assert_eq!(
        CatProtocol::Kenwood.parse_frequency(b"FA00007101000;"),
        Some(7_101_000)
    );
    assert_eq!(yaesu.parse_frequency(b"?;"), None);
    // 14.107000 MHz as CI-V BCD, least significant byte first: 00 70 10 14 00
    let icom = CatProtocol::Icom { address: 0x94 };
    assert_eq!(
        icom.parse_frequency(&[0xFE, 0xFE, 0xE0, 0x94, 0x03, 0x00, 0x70, 0x10, 0x14, 0x00, 0xFD]),
        Some(14_107_000)
    );
    assert_eq!(
        icom.parse_frequency(&[0xFE, 0xFE, 0xE0, 0x94, 0xFA, 0xFD]),
        None
    );
}

#[test]
fn an_answer_that_is_no_frequency_gives_none() {
    let yaesu = CatProtocol::Yaesu;
    // not text at all, no digits, and a number that does not fit
    assert_eq!(yaesu.parse_frequency(&[0xFF, 0x46, 0x41, 0x31, 0x3B]), None);
    assert_eq!(yaesu.parse_frequency(b"FA;"), None);
    assert_eq!(yaesu.parse_frequency(b"FA99999999999999999999;"), None);
    // noise before the answer is passed over
    assert_eq!(yaesu.parse_frequency(b"?;FA014107000;"), Some(14_107_000));
    let icom = CatProtocol::Icom { address: 0x94 };
    // a half-byte that is no digit, too short, no terminator, another radio's answer
    assert_eq!(icom.parse_frequency(&[0xFE, 0xFE, 0xE0, 0x94, 0x03, 0x0A, 0x70, 0x10, 0x14, 0xFD]), None);
    assert_eq!(icom.parse_frequency(&[0xFE, 0xFE, 0xE0, 0x94, 0x03, 0x70, 0x10, 0x14, 0xFD]), None);
    assert_eq!(icom.parse_frequency(&[0xFE, 0xFE, 0xE0, 0x94, 0x03, 0x00, 0x70, 0x10, 0x14]), None);
    assert_eq!(icom.parse_frequency(&[0xFE, 0xFE, 0xE0, 0x95, 0x03, 0x00, 0x70, 0x10, 0x14, 0xFD]), None);
}

#[test]
fn a_radio_that_did_not_do_as_told_is_reported() {
    let icom = CatProtocol::Icom { address: 0x94 };
    let refused = icom.keying_outcome("COM6", &vec![0xFE, 0xFE, 0xE0, 0x94, 0xFA, 0xFD]);
    assert_eq!(
        refused,
        Err(PttError::Backend(
            "COM6: the radio did not accept the keying command (answer [FE, FE, E0, 94, FA, FD]); check the CI-V address and rate"
                .to_owned()
        ))
    );
    assert_eq!(
        icom.tuning_outcome("COM6", &vec![]),
        Err(PttError::Backend("COM6: the radio did not accept the frequency (answer [])".to_owned()))
    );
    assert!(CatProtocol::Yaesu.keying_outcome("COM6", &vec![]).is_ok());
    assert!(tuned("COM6", 14_107_000, Some(14_107_010)).is_ok());
    assert_eq!(
        tuned("COM6", 14_107_000, Some(14_107_011)),
        Err(PttError::Backend(
            "COM6: the radio reads 14107011 Hz after being asked for 14107000; a locked VFO or a band the radio has not got"
                .to_owned()
        ))
    );
    assert!(tuned("COM6", 14_107_000, None).is_err());
    assert!(icom.answer_complete(&vec![0xFE, 0xFD]));
    assert!(!icom.answer_complete(&vec![0xFE, 0x3B]));
    assert!(CatProtocol::Kenwood.answer_complete(b"FA;".to_vec().as_ref()));
    assert_eq!(icom.describe("COM6"), "Icom CI-V on COM6");
    assert!(icom.acknowledges_keying() && !CatProtocol::Yaesu.acknowledges_keying());
}

/// A backend that counts what it was asked to do, and can be told to refuse.
#[derive(Debug, Default)]
struct FakePtt {
    keyed: bool,
    keys: usize,
    unkeys: usize,
    refuse: bool,
}

impl Ptt for FakePtt {
    fn key(&mut self) -> Result<(), PttError> {
        if self.refuse {
            return Err(PttError::Backend("refused".into()));
        }
        self.keys += 1;
        self.keyed = true;
        Ok(())
    }

    fn unkey(&mut self) -> Result<(), PttError> {
        if self.refuse {
            return Err(PttError::Backend("refused".into()));
        }
        self.unkeys += 1;
        self.keyed = false;
        Ok(())
    }

    fn describe(&self) -> String {
        "fake".to_owned()
    }
}

#[test]
fn a_normal_transmission_is_left_alone() {
    let mut ptt = PttWatchdog::new(FakePtt::default(), s(30.0));
    ptt.key(s(0.0)).expect("key");
    assert_eq!(ptt.poll(s(10.0)), Ok(WatchdogState::Keyed));
    assert_eq!(ptt.keyed_for(s(10.0)), s(10.0));
    ptt.unkey(s(12.0)).expect("unkey");
    assert_eq!(ptt.poll(s(60.0)), Ok(WatchdogState::Idle));
    assert!(!ptt.inner().keyed);
    assert_eq!(ptt.trips(), 0);
}

#[test]
fn the_key_is_released_when_the_limit_passes() {
    let mut ptt = PttWatchdog::new(FakePtt::default(), s(30.0));
    ptt.key(s(0.0)).expect("key");
    assert_eq!(ptt.poll(s(29.9)), Ok(WatchdogState::Keyed));
    assert_eq!(ptt.poll(s(30.1)), Ok(WatchdogState::Tripped));
    assert!(!ptt.inner().keyed, "the radio is still transmitting");
    assert!(!ptt.is_keyed());
    assert_eq!(ptt.trips(), 1);
}

#[test]
fn a_trip_latches_until_the_key_is_released() {
    // the failure this exists to contain is a loop that keeps asking to transmit, so
    // asking again must not be enough to get back on the air
    let mut ptt = PttWatchdog::new(FakePtt::default(), s(10.0));
    ptt.key(s(0.0)).expect("key");
    assert_eq!(ptt.poll(s(11.0)), Ok(WatchdogState::Tripped));
    assert_eq!(ptt.key(s(11.1)), Err(PttError::WatchdogTripped));
    assert_eq!(ptt.key(s(20.0)), Err(PttError::WatchdogTripped));
    assert!(!ptt.inner().keyed);
    assert_eq!(ptt.inner().keys, 1, "it keyed again behind the latch");

    ptt.unkey(s(21.0)).expect("release");
    ptt.key(s(21.1)).expect("and now it may transmit");
    assert!(ptt.inner().keyed);
}

#[test]
fn keying_again_does_not_restart_the_clock() {
    // a burst sent as several calls is one transmission to the radio; if each call reset
    // the limit, a steady stream of them would never trip it
    let mut ptt = PttWatchdog::new(FakePtt::default(), s(10.0));
    ptt.key(s(0.0)).expect("key");
    for t in [2.0, 4.0, 6.0, 8.0] {
        ptt.key(s(t)).expect("still keyed");
    }
    assert_eq!(ptt.inner().keys, 1, "it keyed the radio more than once");
    assert_eq!(ptt.poll(s(10.5)), Ok(WatchdogState::Tripped));
}

#[test]
fn a_backend_that_will_not_release_still_clears_the_state() {
    // if the device is gone there is nothing more this side can do about the carrier;
    // what it must not do is keep believing the radio is still ours to key
    let mut ptt = PttWatchdog::new(FakePtt::default(), s(5.0));
    ptt.key(s(0.0)).expect("key");
    ptt.inner_mut().refuse = true;
    let result = ptt.unkey(s(1.0));
    assert!(matches!(result, Err(PttError::Backend(_))));
    assert!(!ptt.is_keyed());
    assert!(!ptt.is_tripped());
}

#[test]
fn a_failed_key_leaves_the_watchdog_idle() {
    let mut ptt = PttWatchdog::new(
        FakePtt {
            refuse: true,
            ..FakePtt::default()
        },
        s(5.0),
    );
    assert!(ptt.key(s(0.0)).is_err());
    assert!(!ptt.is_keyed(), "a refused key must not start the clock");
    assert_eq!(ptt.poll(s(100.0)), Ok(WatchdogState::Idle));
}

#[test]
fn rigctld_lines_are_hamlibs_and_its_answers_are_read() {
    assert_eq!(key_line(true), "T 1\n");
    assert_eq!(key_line(false), "T 0\n");
    assert_eq!(tune_line(7_101_000), "F 7101000\n");
    assert_eq!(frequency_in("14107000\n"), Some(14_107_000));
    assert_eq!(frequency_in("dial"), None);
    assert!(command_outcome("RPRT 0\n").is_ok());
    assert_eq!(
        command_outcome("RPRT -11\n"),
        Err(PttError::Backend("rigctld returned -11".to_owned()))
    );
    assert_eq!(
        command_outcome(" hello\n"),
        Err(PttError::Backend("unexpected reply \"hello\"".to_owned()))
    );
    assert_eq!(query_outcome("7101000\n"), Ok("7101000\n".to_owned()));
    assert_eq!(
        query_outcome("RPRT -1\n"),
        Err(PttError::Backend("rigctld said RPRT -1".to_owned()))
    );
}

#[test]
fn a_keying_interface_that_would_not_open_refuses_every_key_and_says_why() {
    let mut broken = BrokenPtt::new("cannot open the serial port COM9");
    // it explains itself rather than pretending the radio is there
    assert_eq!(
        broken.fault().as_deref(),
        Some("cannot open the serial port COM9")
    );
    assert!(broken.describe().contains("COM9"));
    // and it never keys: the station copies no audio to the card until keying succeeds,
    // so a station holding one cannot put a signal on the air
    let refused = broken.key().expect_err("it must not key");
    assert_eq!(
        refused,
        PttError::Backend("cannot open the serial port COM9".to_owned())
    );
    // releasing what was never keyed is not an error worth raising
    broken.unkey().expect("unkey is a no-op");
    // a working interface has no fault to report
    assert_eq!(NullPtt::default().fault(), None);
}

#[test]
fn the_null_backend_keys_nothing() {
    let mut ptt = NullPtt::default();
    ptt.key().expect("key");
    assert!(ptt.keyed);
    ptt.unkey().expect("unkey");
    assert!(!ptt.keyed);
    // nor does it tune
    assert!(!ptt.can_tune());
    assert_eq!(ptt.frequency_hz(), None);
    assert!(ptt.set_frequency_hz(7_101_000).is_err());
}

#[test]
fn an_error_says_what_went_wrong() {
    assert_eq!(PttError::Backend("gone".to_owned()).text(), "keying: gone");
    assert!(PttError::WatchdogTripped.text().contains("stays released"));
}

#[test]
fn the_report_drives_one_pin_and_leaves_the_others_alone() {
    assert_eq!(gpio_report(3, true), [0, 0, 0b0100, 0b0100, 0]);
    assert_eq!(gpio_report(3, false), [0, 0, 0, 0b0100, 0]);
    assert_eq!(gpio_report(1, true), [0, 0, 1, 1, 0]);
    assert_eq!(gpio_report(8, true), [0, 0, 0x80, 0x80, 0]);
}

#[test]
fn a_report_for_a_pin_there_is_not_takes_the_nearest() {
    assert_eq!(gpio_report(0, true), [0, 0, 1, 1, 0]);
    assert_eq!(gpio_report(200, true), [0, 0, 0x80, 0x80, 0]);
}

#[test]
fn the_codecs_with_pins_are_known_by_their_ids() {
    assert!(is_gpio_codec(0x0D8C, 0x0008)); // CM108
    assert!(is_gpio_codec(0x0D8C, 0x000F)); // CM119
    assert!(is_gpio_codec(0x0D8C, 0x0012)); // CM108B
    assert!(is_gpio_codec(0x0D8C, 0x013A)); // CM119A
    assert!(is_gpio_codec(0x0C76, 0x1607)); // SSS1623
    assert!(is_gpio_codec(0x1209, 0x7388)); // AIOC
    assert!(!is_gpio_codec(0x0D8C, 0x0100));
    assert!(!is_gpio_codec(0x046D, 0x0008)); // another maker's product 8
}

#[test]
fn a_windows_path_names_the_device_and_not_one_of_its_collections() {
    let one = r"\\?\hid#vid_0d8c&pid_0008&mi_03&col01#7&1a2b&0&0000#{4d1e55b2}";
    let two = r"\\?\hid#vid_0d8c&pid_0008&mi_03&col02#7&1a2b&0&0000#{4d1e55b2}";
    assert_eq!(instance_key(one), instance_key(two));
    assert_ne!(instance_key("/dev/hidraw0"), instance_key("/dev/hidraw1"));
}

fn codec(path: &str, product: Option<&str>, maker: Option<&str>, serial: Option<&str>) -> HidEntry {
    HidEntry {
        vendor: 0x0D8C,
        product: 0x0008,
        path: path.to_owned(),
        product_string: product.map(str::to_owned),
        manufacturer_string: maker.map(str::to_owned),
        serial_number: serial.map(str::to_owned),
    }
}

#[test]
fn a_codec_is_listed_once_under_its_own_name() {
    let mut mouse = codec("/dev/hidraw9", Some("Mouse"), None, None);
    mouse.vendor = 0x046D;
    let listed = gpio_interfaces_in(&vec![
        codec("HID&col01#a", Some(" USB Audio "), Some("C-Media"), None),
        codec("hid&col02#a", Some("USB Audio"), Some("C-Media"), None),
        mouse,
        codec("/dev/hidraw1", None, None, Some(" 42 ")),
        codec("/dev/hidraw2", Some("C-Media Device"), Some("C-Media"), Some("  ")),
    ]);
    let names: Vec<&str> = listed.iter().map(|i| i.name.as_str()).collect();
    assert_eq!(
        names,
        ["C-Media USB Audio", "CM108-class codec 0d8c:0008 (42)", "C-Media Device"]
    );
    assert_eq!(listed[0].path, "HID&col01#a");
}

#[test]
fn a_pin_the_codecs_do_not_have_is_refused() {
    let error = choose_interface(&vec![], None, 9).expect_err("no such pin");
    assert!(error.text().contains("1–8"), "{error:?}");
}

#[test]
fn an_interface_is_picked_by_path_or_by_part_of_its_name() {
    let listed = vec![
        GpioInterfaceInfo { path: "a".to_owned(), name: "C-Media One".to_owned() },
        GpioInterfaceInfo { path: "b".to_owned(), name: "AIOC".to_owned() },
    ];
    assert_eq!(choose_interface(&listed, None, 3), Ok(0));
    assert_eq!(choose_interface(&listed, Some("b"), 3), Ok(1));
    assert_eq!(choose_interface(&listed, Some("aioc"), 3), Ok(1));
    assert_eq!(
        choose_interface(&listed, Some("dra"), 3),
        Err(PttError::Backend(
            "no CM108-class interface matches \"dra\"; `aetherd --list-ports` shows what is there".to_owned()
        ))
    );
    assert!(choose_interface(&vec![], None, 3).is_err());
}

#[test]
fn a_serial_port_says_what_is_behind_it() {
    let usb = |product: Option<&str>, maker: Option<&str>| {
        SerialPortInfo::of(
            "COM7".to_owned(),
            PortKind::Usb {
                product: product.map(str::to_owned),
                manufacturer: maker.map(str::to_owned),
            },
        )
        .description
    };
    assert_eq!(usb(Some("CP210x Standard (COM7)"), Some("Silicon Labs")), "Silicon Labs CP210x Standard");
    assert_eq!(usb(Some("Silicon Labs CP210x"), Some("Silicon Labs")), "Silicon Labs CP210x");
    assert_eq!(usb(None, Some("FTDI")), "FTDI");
    assert_eq!(usb(Some("Bridge"), None), "Bridge");
    assert_eq!(SerialPortInfo::of("x".to_owned(), PortKind::Bluetooth).description, "Bluetooth");
    assert_eq!(SerialPortInfo::of("x".to_owned(), PortKind::Pci).description, "built in");
    assert_eq!(SerialPortInfo::of("x".to_owned(), PortKind::Unknown).description, "");
}

#[test]
fn a_keying_line_moves_what_it_names() {
    assert_eq!(SerialLine::default(), SerialLine::Rts);
    assert!(SerialLine::Both.moves_rts() && SerialLine::Both.moves_dtr());
    assert!(SerialLine::Rts.moves_rts() && !SerialLine::Rts.moves_dtr());
    assert!(!SerialLine::Dtr.moves_rts() && SerialLine::Dtr.moves_dtr());
    assert_eq!(SerialLine::Both.describe("COM7"), "RTS and DTR on COM7");
}

#[test]
fn a_callsign_the_air_cannot_carry_is_refused() {
    assert!(validate_callsign("KK4ODA-1").is_ok());
    assert!(validate_callsign("W4/G3XYZ").is_ok());
    assert!(validate_callsign("").is_err());
    assert!(validate_callsign("ABCDEFGHIJ").is_err());
    assert_eq!(
        validate_callsign("kk4oda"),
        Err(PttError::Backend(
            "callsign \"kk4oda\": only A-Z, 0-9, - and / can go on the air".to_owned()
        ))
    );
}

#[test]
fn a_boxed_interface_is_the_one_inside() {
    let mut boxed: Box<dyn Ptt> = Box::new(BrokenPtt::new("cannot open the serial port COM9"));
    assert_eq!(Ptt::fault(&boxed).as_deref(), Some("cannot open the serial port COM9"));
    assert!(Ptt::key(&mut boxed).is_err());
    let mut plain: Box<NullPtt> = Box::new(NullPtt::default());
    Ptt::key(&mut plain).expect("keys");
    assert!(plain.keyed && !Ptt::can_tune(&plain));
    assert_eq!(Ptt::frequency_hz(&mut plain), None);
    assert!(Ptt::set_frequency_hz(&mut plain, 7_100_000).is_err());
}
