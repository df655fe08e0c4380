//! CM108-class interfaces: keying through the codec's own GPIO pin.
use vstd::prelude::*;

use crate::ptt::PttError;
use crate::text::{
    ascii_lowercase, begins, cat, chars_of, contains, contains_text, digits, find_text, first_at, hex, hex_text,
    lowercase, quote, quoted, same, starts_with, text_of, to_ascii_lower, to_lower, trim, trimmed, whole,
};

verus! {

/// Whether a USB identity is one of the sound-card codecs whose general-purpose pins the DRA,
/// URI, RA-40 and similar interfaces bring out to a PTT transistor.
pub open spec fn known_codec(vendor: u16, product: u16) -> bool {
    ||| vendor == 0x0D8C && (0x0008 <= product <= 0x000F || product == 0x0012 || product == 0x0013 || product == 0x0139
        || product == 0x013A || product == 0x013C)
    ||| vendor == 0x0C76 && (product == 0x1605 || product == 0x1607 || product == 0x160B)
    ||| vendor == 0x1209 && product == 0x7388
}

/// Whether a USB identity is one of the sound-card codecs whose general-purpose pins the DRA,
/// URI, RA-40 and similar interfaces bring out to a PTT transistor: C-Media's CM108, CM108AH,
/// CM108B, CM119, CM119A and CM119B, Solid State System's SSS1621/1623, and the AIOC cable
/// that emulates one.
pub fn is_gpio_codec(vendor: u16, product: u16) -> (r: bool)
    ensures
        r == known_codec(vendor, product),
{
    match vendor {
        0x0D8C => (0x0008 <= product && product <= 0x000F) || product == 0x0012 || product == 0x0013 || product == 0x0139
            || product == 0x013A || product == 0x013C,
        0x0C76 => product == 0x1605 || product == 0x1607 || product == 0x160B,
        0x1209 => product == 0x7388,
        _ => false,
    }
}

/// The bit that stands for a pin: bit 0 is GPIO1. A pin the codecs do not have is taken as the
/// nearest they do.
pub open spec fn pin_bit(pin: u8) -> u8 {
    if pin <= 1 { 1 } else if pin == 2 { 2 } else if pin == 3 { 4 } else if pin == 4 { 8 } else if pin == 5 { 16 }
    else if pin == 6 { 32 } else if pin == 7 { 64 } else { 128 }
}

/// The HID output report that drives one pin, as the CM108 data sheet lays the four bytes
/// out: register bits left alone, the pins' output data, the pins' direction (a set bit makes
/// that pin an output), a spare, behind the report-id byte of zero that a device with
/// unnumbered reports takes. One pin in the mask, so the others are not touched.
pub fn gpio_report(pin: u8, high: bool) -> (r: [u8; 5])
    ensures
        r@ == seq![0u8, 0u8, if high { pin_bit(pin) } else { 0u8 }, pin_bit(pin), 0u8],
{
    let mask: u8 = if pin <= 1 { 1 } else if pin == 2 { 2 } else if pin == 3 { 4 } else if pin == 4 { 8 } else if pin == 5 { 16 }
        else if pin == 6 { 32 } else if pin == 7 { 64 } else { 128 };
    let data: u8 = if high { mask } else { 0 };
    let r: [u8; 5] = [0, 0, data, mask, 0];
    proof {
        assert(r@ =~= seq![0u8, 0u8, if high { pin_bit(pin) } else { 0u8 }, pin_bit(pin), 0u8]);
    }
    r
}

/// A report drives one pin and leaves the others alone: two pins never share a bit, and each
/// pin has exactly the bit its number says.
pub proof fn a_report_drives_one_pin(pin: u8, other: u8)
    requires
        1 <= pin <= 8,
        1 <= other <= 8,
    ensures
        pin != other ==> pin_bit(pin) & pin_bit(other) == 0,
        pin == other ==> pin_bit(pin) & pin_bit(other) == pin_bit(pin),
        pin_bit(pin) == 1u8 << ((pin - 1) as u8),
{
    let a = pin_bit(pin);
    let b = pin_bit(other);
    assert(pin != other ==> a & b == 0) by (bit_vector)
        requires
            1 <= pin <= 8,
            1 <= other <= 8,
            a == (if pin <= 1 { 1u8 } else if pin == 2 { 2u8 } else if pin == 3 { 4u8 } else if pin == 4 { 8u8 } else if pin
                == 5 { 16u8 } else if pin == 6 { 32u8 } else if pin == 7 { 64u8 } else { 128u8 }),
            b == (if other <= 1 { 1u8 } else if other == 2 { 2u8 } else if other == 3 { 4u8 } else if other == 4 { 8u8 } else if other
                == 5 { 16u8 } else if other == 6 { 32u8 } else if other == 7 { 64u8 } else { 128u8 }),
    ;
    assert(a & a == a) by (bit_vector);
    let shift: u8 = (pin - 1) as u8;
    assert(1u8 << shift == (if shift == 0 { 1u8 } else if shift == 1 { 2u8 } else if shift == 2 { 4u8 } else if shift == 3 { 8u8 } else if shift
        == 4 { 16u8 } else if shift == 5 { 32u8 } else if shift == 6 { 64u8 } else { 128u8 })) by (bit_vector)
        requires
            shift <= 7,
    ;
}

/// A CM108-class interface as the operator should see it.
#[derive(Clone, PartialEq, Eq, Debug)]
pub struct GpioInterfaceInfo {
    /// The path the configuration takes to name this one among several.
    pub path: String,
    /// What the interface calls itself.
    pub name: String,
}

/// A HID device as the system lists it.
#[derive(Clone, PartialEq, Eq, Debug)]
pub struct HidEntry {
    /// The USB vendor.
    pub vendor: u16,
    /// The USB product.
    pub product: u16,
    /// The path it is opened by.
    pub path: String,
    /// The product's name for itself.
    pub product_string: Option<String>,
    /// The maker's name.
    pub manufacturer_string: Option<String>,
    /// The serial number.
    pub serial_number: Option<String>,
}

/// What identifies the device behind a HID path: the path in lower case, without the
/// `&colNN` field by which Windows tells a device's HID collections apart.
pub open spec fn device_key(path: Seq<char>) -> Seq<char> {
    let lower = ascii_lowercase(path);
    match first_at(lower, "&col"@, 0) {
        Some(at) => if lower.len() >= at + 6 {
            lower.subrange(0, at) + lower.subrange(at + 6, lower.len() as int)
        } else {
            lower
        },
        None => lower,
    }
}

/// What identifies the device behind a HID path. Windows gives each of a device's HID
/// collections a path of its own, differing only in a `&colNN` field; the GPIO report is
/// accepted by one of them, so the device is the unit and the collections are tried.
pub fn instance_key(path: &str) -> (r: String)
    ensures
        r@ == device_key(path@),
{
    let lower = to_ascii_lower(path);
    let chars = chars_of(&lower);
    match find_text(&chars, &chars_of("&col")) {
        Some(at) => {
            if chars.len() >= 6 && at <= chars.len() - 6 {
                let mut s = text_of(&chars, 0, at);
                s.append(&text_of(&chars, at + 6, chars.len()));
                s
            } else {
                lower
            }
        },
        None => lower,
    }
}

/// A text that may be missing, without the white space at either end.
pub open spec fn tidy(s: Option<String>) -> Seq<char> {
    match s {
        Some(s) => trimmed(s@),
        None => trimmed(""@),
    }
}

fn tidied(s: &Option<String>) -> (r: String)
    ensures
        r@ == tidy(*s),
{
    match s {
        Some(s) => trim(s),
        None => trim(""),
    }
}

/// What an interface calls itself: maker and product, without saying the maker twice; its USB
/// identity where it says nothing; and its serial number, where it has one.
pub open spec fn interface_title(d: HidEntry) -> Seq<char> {
    let product = tidy(d.product_string);
    let maker = tidy(d.manufacturer_string);
    let given = if maker.len() == 0 || begins(product, maker) { product } else { maker + " "@ + product };
    let name = if given.len() == 0 {
        "CM108-class codec "@ + hex(d.vendor as nat, 4, false) + ":"@ + hex(d.product as nat, 4, false)
    } else {
        given
    };
    match d.serial_number {
        Some(serial) => if trimmed(serial@).len() > 0 { name + " ("@ + trimmed(serial@) + ")"@ } else { name },
        None => name,
    }
}

/// What an interface calls itself.
pub fn interface_name(d: &HidEntry) -> (r: String)
    ensures
        r@ == interface_title(*d),
{
    let product = tidied(&d.product_string);
    let maker = tidied(&d.manufacturer_string);
    let mut name = if maker.as_str().is_empty() || starts_with(&product, &maker) {
        product
    } else {
        let mut s = cat(&maker, " ");
        s.append(&product);
        s
    };
    if name.as_str().is_empty() {
        name = cat("CM108-class codec ", &hex_text(d.vendor as u128, 4, false));
        name.append(":");
        name.append(&hex_text(d.product as u128, 4, false));
    }
    match &d.serial_number {
        Some(serial) => {
            let serial = trim(serial);
            if !serial.as_str().is_empty() {
                name.append(" (");
                name.append(&serial);
                name.append(")");
            }
        },
        None => {},
    }
    name
}

/// What an interface is.
pub open spec fn interface_view(i: GpioInterfaceInfo) -> (Seq<char>, Seq<char>) {
    (i.path@, i.name@)
}

/// What a run of interfaces is.
pub open spec fn interface_views(s: Seq<GpioInterfaceInfo>) -> Seq<(Seq<char>, Seq<char>)> {
    s.map_values(|i: GpioInterfaceInfo| interface_view(i))
}

/// Whether one of the first `n` devices is a codec of this key.
pub open spec fn seen_before(devices: Seq<HidEntry>, key: Seq<char>, n: int) -> bool {
    exists|i: int|
        0 <= i < n && known_codec((#[trigger] devices[i]).vendor, devices[i].product) && device_key(devices[i].path@) == key
}

/// The interfaces among the first `n` devices: every codec once, by the first of its
/// collections.
pub open spec fn interfaces_among(devices: Seq<HidEntry>, n: nat) -> Seq<(Seq<char>, Seq<char>)>
    decreases n,
{
    if n == 0 {
        Seq::empty()
    } else {
        let d = devices[n - 1];
        let before = interfaces_among(devices, (n - 1) as nat);
        if known_codec(d.vendor, d.product) && !seen_before(devices, device_key(d.path@), n - 1) {
            before.push((d.path@, interface_title(d)))
        } else {
            before
        }
    }
}

/// The CM108-class interfaces among the HID devices of a machine, for an operator choosing
/// one. Windows lists a codec once per HID collection: one entry per device is enough.
pub fn gpio_interfaces_in(devices: &Vec<HidEntry>) -> (r: Vec<GpioInterfaceInfo>)
    ensures
        interface_views(r@) == interfaces_among(devices@, devices@.len()),
{
    let mut out: Vec<GpioInterfaceInfo> = Vec::new();
    let mut i: usize = 0;
    proof {
        assert(interface_views(out@) =~= Seq::empty());
    }
    while i < devices.len()
        invariant
            i <= devices.len(),
            interface_views(out@) == interfaces_among(devices@, i as nat),
        decreases devices.len() - i,
    {
        if is_gpio_codec(devices[i].vendor, devices[i].product) {
            let key = instance_key(&devices[i].path);
            let mut seen: bool = false;
            let mut j: usize = 0;
            while j < i
                invariant
                    j <= i < devices.len(),
                    seen == seen_before(devices@, key@, j as int),
                decreases i - j,
            {
                if is_gpio_codec(devices[j].vendor, devices[j].product) {
                    let other = instance_key(&devices[j].path);
                    if same(&other, &key) {
                        seen = true;
                        proof {
                            assert(known_codec(devices@[j as int].vendor, devices@[j as int].product));
                        }
                    }
                }
                j += 1;
            }
            if !seen {
                let ghost before = out@;
                let info = GpioInterfaceInfo { path: devices[i].path.clone(), name: interface_name(&devices[i]) };
                out.push(info);
                proof {
                    assert(interface_views(out@) =~= interface_views(before).push(interface_view(info)));
                }
            }
        }
        i += 1;
    }
    out
}

/// The first interface, from `from` on, that a name or a path picks.
pub open spec fn first_picked(listed: Seq<GpioInterfaceInfo>, wanted: Seq<char>, from: nat) -> nat
    decreases listed.len() - from,
{
    if from >= listed.len() || listed[from as int].path@ == wanted || contains(
        lowercase(listed[from as int].name@),
        lowercase(wanted),
    ) {
        from
    } else {
        first_picked(listed, wanted, from + 1)
    }
}

/// What is said of a pin the codecs do not have.
pub open spec fn no_such_pin(pin: u8) -> Seq<char> {
    "[ptt] gpio must be 1–8, not "@ + digits(pin as nat) + "; the DRA and URI boards key on 3"@
}

/// Check that the codecs have a pin.
pub fn check_pin(pin: u8) -> (r: Result<(), PttError>)
    ensures
        if 1 <= pin <= 8 {
            r is Ok
        } else {
            r matches Err(PttError::Backend(m)) && m@ == no_such_pin(pin)
        },
{
    if 1 <= pin && pin <= 8 {
        return Ok(());
    }
    let mut m = cat("[ptt] gpio must be 1–8, not ", &whole(pin as u128));
    m.append("; the DRA and URI boards key on 3");
    Err(PttError::Backend(m))
}

/// Which interface to open: the one named by path or by part of its name, or the first one on
/// the machine; an error where there is none, or where the codecs have no such pin.
pub fn choose_interface(listed: &Vec<GpioInterfaceInfo>, which: Option<&str>, pin: u8) -> (r: Result<usize, PttError>)
    ensures
        !(1 <= pin <= 8) ==> (r matches Err(PttError::Backend(m)) && m@ == no_such_pin(pin)),
        1 <= pin <= 8 ==> match which {
            Some(wanted) => {
                let n = first_picked(listed@, wanted@, 0);
                if n < listed@.len() {
                    r == Ok::<usize, PttError>(n as usize)
                } else {
                    r matches Err(PttError::Backend(m)) && m@ == "no CM108-class interface matches "@ + quoted(wanted@)
                        + "; `aetherd --list-ports` shows what is there"@
                }
            },
            None => if listed@.len() > 0 {
                r == Ok::<usize, PttError>(0)
            } else {
                r matches Err(PttError::Backend(m)) && m@
                    == "no CM108-class interface is plugged in; `aetherd --list-ports` shows what is there"@
            },
        },
{
    match check_pin(pin) {
        Ok(_) => {},
        Err(e) => return Err(e),
    }
    match which {
        Some(wanted) => {
            let lower = to_lower(wanted);
            let mut i: usize = 0;
            while i < listed.len() && !same(&listed[i].path, wanted) && !contains_text(&to_lower(&listed[i].name), &lower)
                invariant
                    i <= listed.len(),
                    lower@ == lowercase(wanted@),
                    first_picked(listed@, wanted@, 0) == first_picked(listed@, wanted@, i as nat),
                decreases listed.len() - i,
            {
                i += 1;
            }
            if i < listed.len() {
                Ok(i)
            } else {
                let mut m = cat("no CM108-class interface matches ", &quote(wanted));
                m.append("; `aetherd --list-ports` shows what is there");
                Err(PttError::Backend(m))
            }
        },
        None => {
            if listed.len() > 0 {
                Ok(0)
            } else {
                Err(
                    PttError::Backend(
                        "no CM108-class interface is plugged in; `aetherd --list-ports` shows what is there".to_owned(),
                    ),
                )
            }
        },
    }
}

/// What a GPIO interface is, for a log line.
pub fn describe(pin: u8, name: &str) -> (r: String)
    ensures
        r@ == "GPIO"@ + digits(pin as nat) + " of "@ + name@,
{
    let mut s = cat("GPIO", &whole(pin as u128));
    s.append(" of ");
    s.append(name);
    s
}

/// What is said where none of a device's collections takes the report.
pub fn undrivable(name: &str, last_error: &str) -> (r: PttError)
    ensures
        r matches PttError::Backend(m) && m@ == name@ + ": cannot drive its GPIO ("@ + last_error@
            + "). On Linux the hidraw device needs a udev rule; docs/user/gateway-kit.md has it"@,
{
    let mut m = cat(name, ": cannot drive its GPIO (");
    m.append(last_error);
    m.append("). On Linux the hidraw device needs a udev rule; docs/user/gateway-kit.md has it");
    PttError::Backend(m)
}

} // verus!
