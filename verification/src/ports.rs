//! Port discovery records.
//!
//! Enumeration itself is a platform call; what the library owns is the
//! reduction of a discovered port to its name and a human-readable
//! classification.

use vstd::prelude::*;

verus! {

/// A discovered port: its name and a human-readable classification.
/// Read-only, rebuilt on every enumeration.
#[derive(Debug, Clone)]
pub struct PortInfo {
    /// The platform name of the port.
    pub name: String,
    /// A human-readable classification of the port.
    pub port_type: String,
}

/// What the platform reports about a discovered port, as plain values.
#[derive(Debug, Clone)]
pub enum PortKind {
    /// A USB device, with its manufacturer and product strings when known.
    Usb { manufacturer: Option<String>, product: Option<String> },
    /// A Bluetooth serial port.
    Bluetooth,
    /// A PCI serial port.
    Pci,
    /// Anything the platform could not classify.
    Unknown,
}

/// The text of an optional string, empty when absent.
pub open spec fn opt_text(s: Option<String>) -> Seq<char> {
    match s {
        Some(x) => x@,
        None => Seq::<char>::empty(),
    }
}

/// The classification label of a port kind: USB ports show their manufacturer
/// and product, the others their bus name.
pub open spec fn port_label(kind: PortKind) -> Seq<char> {
    match kind {
        PortKind::Usb { manufacturer, product } => "USB: "@ + opt_text(manufacturer) + " "@
            + opt_text(product),
        PortKind::Bluetooth => "Bluetooth"@,
        PortKind::Pci => "PCI"@,
        PortKind::Unknown => "Unknown"@,
    }
}

/// Build the discovery record for one port.
pub fn describe_port(name: String, kind: PortKind) -> (r: PortInfo)
    ensures
        r.name == name,
        r.port_type@ == port_label(kind),
{
    let label = match kind {
        PortKind::Usb { manufacturer, product } => {
            let m = match manufacturer {
                Some(s) => s,
                None => String::new(),
            };
            let p = match product {
                Some(s) => s,
                None => String::new(),
            };
            "USB: ".to_owned().concat(m.as_str()).concat(" ").concat(p.as_str())
        },
        PortKind::Bluetooth => "Bluetooth".to_owned(),
        PortKind::Pci => "PCI".to_owned(),
        PortKind::Unknown => "Unknown".to_owned(),
    };
    PortInfo { name, port_type: label }
}

} // verus!
