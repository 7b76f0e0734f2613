//! Failures surfaced by the scanning engine.

use vstd::prelude::*;
use vstd::string::StringExecFns;

verus! {

/// What went wrong: an invalid address range refuses construction; the other
/// variants describe one probe's failure and carry its detail text.
#[derive(Debug)]
pub enum ScanError {
    Network(String),
    InvalidRange,
    PingFailed(String),
    PortScanFailed(String),
    DnsResolutionFailed(String),
    Io(String),
}

#[verifier::external_type_specification]
#[verifier::external_body]
pub struct ExIoError(std::io::Error);

impl ScanError {
    pub open spec fn spec_message(&self) -> Seq<char> {
        match self {
            ScanError::Network(s) => "Network error: "@ + s@,
            ScanError::InvalidRange => "Invalid IP range"@,
            ScanError::PingFailed(s) => "Ping failed: "@ + s@,
            ScanError::PortScanFailed(s) => "Port scan failed: "@ + s@,
            ScanError::DnsResolutionFailed(s) => "DNS resolution failed: "@ + s@,
            ScanError::Io(s) => "IO error: "@ + s@,
        }
    }

    /// The error's display text.
    pub fn message(&self) -> (r: String)
        ensures
            r@ == self.spec_message(),
    {
        match self {
            ScanError::Network(s) => {
                let mut m = String::from_str("Network error: ");
                m.append(s.as_str());
                m
            },
            ScanError::InvalidRange => String::from_str("Invalid IP range"),
            ScanError::PingFailed(s) => {
                let mut m = String::from_str("Ping failed: ");
                m.append(s.as_str());
                m
            },
            ScanError::PortScanFailed(s) => {
                let mut m = String::from_str("Port scan failed: ");
                m.append(s.as_str());
                m
            },
            ScanError::DnsResolutionFailed(s) => {
                let mut m = String::from_str("DNS resolution failed: ");
                m.append(s.as_str());
                m
            },
            ScanError::Io(s) => {
                let mut m = String::from_str("IO error: ");
                m.append(s.as_str());
                m
            },
        }
    }
}

impl From<std::io::Error> for ScanError {
    /// Relies on `io::Error`'s display text for the stored message.
    fn from(e: std::io::Error) -> (r: ScanError)
        ensures
            r is Io,
    {
        ScanError::Io(e.to_string())
    }
}

impl vstd::std_specs::convert::FromSpecImpl<std::io::Error> for ScanError {
    // The display text of an `io::Error` has no specification here, so
    // nothing is claimed of the conversion beyond its variant.
    open spec fn obeys_from_spec() -> bool {
        false
    }

    open spec fn from_spec(v: std::io::Error) -> ScanError {
        arbitrary()
    }
}

} // verus!
