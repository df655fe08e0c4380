//! Serial ports, as an operator sees them.
use vstd::prelude::*;

use crate::text::{begins, cat, starts_with, strip_suffix, without_suffix};

verus! {

/// Which control line on a serial port keys the radio.
#[derive(Clone, Copy, PartialEq, Eq, Structural, Debug)]
pub enum SerialLine {
    /// Request To Send. What most home-made and commercial interfaces use.
    Rts,
    /// Data Terminal Ready. The other common choice.
    Dtr,
    /// Both together, for interfaces that wire them in parallel.
    Both,
}

impl Default for SerialLine {
    /// The line most interfaces use.
    fn default() -> (r: SerialLine)
        ensures
            r == SerialLine::Rts,
    {
        SerialLine::Rts
    }
}

impl SerialLine {
    /// Whether RTS moves.
    pub fn moves_rts(self) -> (r: bool)
        ensures
            r == (self != SerialLine::Dtr),
    {
        self != SerialLine::Dtr
    }

    /// Whether DTR moves.
    pub fn moves_dtr(self) -> (r: bool)
        ensures
            r == (self != SerialLine::Rts),
    {
        self != SerialLine::Rts
    }

    /// What a keying line is, for a log line.
    pub fn describe(self, path: &str) -> (r: String)
        ensures
            r@ == (match self {
                SerialLine::Rts => "RTS"@,
                SerialLine::Dtr => "DTR"@,
                SerialLine::Both => "RTS and DTR"@,
            }) + " on "@ + path@,
    {
        let line: &str = match self {
            SerialLine::Rts => "RTS",
            SerialLine::Dtr => "DTR",
            SerialLine::Both => "RTS and DTR",
        };
        let mut s = cat(line, " on ");
        s.append(path);
        s
    }
}

/// What the system says is behind a serial port.
#[derive(Clone, PartialEq, Eq, Debug)]
pub enum PortKind {
    /// A USB device, with the names it gives itself.
    Usb {
        /// Its product name.
        product: Option<String>,
        /// Its maker.
        manufacturer: Option<String>,
    },
    /// A Bluetooth device.
    Bluetooth,
    /// On the computer's own bus.
    Pci,
    /// Not known.
    Unknown,
}

/// A serial port as the operator should see it: its name, and what is behind it.
///
/// A radio's USB port often presents two serial ports and only one of them keys. A name alone
/// cannot say which is which; the description can.
#[derive(Clone, PartialEq, Eq, Debug)]
pub struct SerialPortInfo {
    /// The name the configuration takes: `COM7`, `/dev/ttyUSB1`.
    pub name: String,
    /// What the driver says is behind it, or empty when it says nothing.
    pub description: String,
}

/// What is said to be behind a port: the product without the port's own name, which Windows
/// appends, and with its maker in front where the product does not begin with it.
pub open spec fn behind(name: Seq<char>, kind: PortKind) -> Seq<char> {
    match kind {
        PortKind::Usb { product, manufacturer } => {
            let given = match product {
                Some(p) => p@,
                None => Seq::empty(),
            };
            let product = without_suffix(given, " ("@ + name + ")"@);
            match manufacturer {
                Some(maker) => if product.len() == 0 {
                    maker@
                } else if !begins(product, maker@) {
                    maker@ + " "@ + product
                } else {
                    product
                },
                None => product,
            }
        },
        PortKind::Bluetooth => "Bluetooth"@,
        PortKind::Pci => "built in"@,
        PortKind::Unknown => Seq::empty(),
    }
}

impl SerialPortInfo {
    /// A port and what is behind it.
    pub fn of(name: String, kind: PortKind) -> (r: SerialPortInfo)
        ensures
            r.name == name,
            r.description@ == behind(name@, kind),
    {
        let description = match kind {
            PortKind::Usb { product, manufacturer } => {
                let given = match product {
                    Some(p) => p,
                    None => String::new(),
                };
                let mut own = cat(" (", &name);
                own.append(")");
                let product = strip_suffix(&given, &own);
                match manufacturer {
                    Some(maker) => if product.as_str().is_empty() {
                        maker
                    } else if !starts_with(&product, &maker) {
                        let mut s = cat(&maker, " ");
                        s.append(&product);
                        s
                    } else {
                        product
                    },
                    None => product,
                }
            },
            PortKind::Bluetooth => "Bluetooth".to_owned(),
            PortKind::Pci => "built in".to_owned(),
            PortKind::Unknown => String::new(),
        };
        SerialPortInfo { name, description }
    }
}

} // verus!
