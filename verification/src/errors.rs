//! Error taxonomy of the transport layer and of the signal store.
//!
//! Transport errors abort the current operation; protocol-level disagreement
//! (a NAK, a missing acknowledgment) is not an error but a value inside
//! [`crate::upload::UploadResult`].

use vstd::prelude::*;

verus! {

/// A failure of the serial transport itself: connection lifecycle misuse or a
/// platform error while opening, writing or reading.
#[derive(Debug, Clone)]
pub enum SerialError {
    /// An operation that needs a live connection found none.
    NotConnected,
    /// `open` was called while a connection is already held.
    AlreadyConnected,
    /// The platform failed to open the port; carries the platform's reason.
    OpenFailed(String),
    /// The platform failed to list the available ports; carries its reason.
    EnumerationFailed(String),
    /// A write or flush failed mid-operation.
    WriteFailed(String),
    /// A read failed for a reason other than a timeout.
    ReadFailed(String),
}

impl SerialError {
    /// Human-readable description of the error.
    pub fn message(&self) -> (r: String)
        ensures
            self matches SerialError::NotConnected ==> r@ == "No port connected"@,
            self matches SerialError::AlreadyConnected ==> r@ == "Port already connected"@,
            self matches SerialError::OpenFailed(m) ==> r@ == "Failed to open port: "@ + m@,
            self matches SerialError::EnumerationFailed(m) ==> r@ == "Failed to enumerate ports: "@
                + m@,
            self matches SerialError::WriteFailed(m) ==> r@ == "Failed to write to port: "@ + m@,
            self matches SerialError::ReadFailed(m) ==> r@ == "Failed to read from port: "@ + m@,
    {
        match self {
            SerialError::NotConnected => "No port connected".to_owned(),
            SerialError::AlreadyConnected => "Port already connected".to_owned(),
            SerialError::OpenFailed(m) => "Failed to open port: ".to_owned().concat(m.as_str()),
            SerialError::EnumerationFailed(m) => "Failed to enumerate ports: ".to_owned().concat(
                m.as_str(),
            ),
            SerialError::WriteFailed(m) => "Failed to write to port: ".to_owned().concat(m.as_str()),
            SerialError::ReadFailed(m) => "Failed to read from port: ".to_owned().concat(m.as_str()),
        }
    }
}

/// A failure of the signal store: persistence, decoding or validation.
#[derive(Debug, Clone)]
pub enum SignalError {
    /// A file operation failed; carries the platform's reason.
    IoError(String),
    /// A stored record could not be decoded; carries the decoder's reason.
    ParseError(String),
    /// A record broke the validation rules; carries which rule.
    ValidationError(String),
    /// The named record does not exist.
    NotFound(String),
}

impl SignalError {
    /// Human-readable description of the error.
    pub fn message(&self) -> (r: String)
        ensures
            self matches SignalError::IoError(m) ==> r@ == "IO Error: "@ + m@,
            self matches SignalError::ParseError(m) ==> r@ == "Parse Error: "@ + m@,
            self matches SignalError::ValidationError(m) ==> r@ == "Validation Error: "@ + m@,
            self matches SignalError::NotFound(m) ==> r@ == "Not Found: "@ + m@,
    {
        match self {
            SignalError::IoError(m) => "IO Error: ".to_owned().concat(m.as_str()),
            SignalError::ParseError(m) => "Parse Error: ".to_owned().concat(m.as_str()),
            SignalError::ValidationError(m) => "Validation Error: ".to_owned().concat(m.as_str()),
            SignalError::NotFound(m) => "Not Found: ".to_owned().concat(m.as_str()),
        }
    }
}

} // verus!
