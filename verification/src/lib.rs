//! Decoder core for flight-controller data logs: a bit-level reader, the
//! integer codecs used by data frames, and the parser for the textual
//! header section that describes the layout of those frames.

use vstd::prelude::*;
use vstd::string::StringSliceAdditionalSpecFns;

pub mod parser;

verus! {

/// Version of the log format, as announced by the `Data version` header.
#[derive(Debug, Clone, Copy, PartialEq, Eq, Hash, Structural)]
pub enum LogVersion {
    V1,
    V2,
}

impl LogVersion {
    /// The version that the value of a `Data version` header names.
    pub open spec fn spec_from_str(s: Seq<u8>) -> Option<LogVersion> {
        if s == "1".spec_bytes() {
            Some(LogVersion::V1)
        } else if s == "2".spec_bytes() {
            Some(LogVersion::V2)
        } else {
            None
        }
    }

    /// Reads the value of a `Data version` header; `None` for a version
    /// that is not known.
    pub fn from_str(s: &str) -> (version: Option<LogVersion>)
        ensures
            version == Self::spec_from_str(s.spec_bytes()),
    {
        if parser::text::same_text(s, "1") {
            Some(LogVersion::V1)
        } else if parser::text::same_text(s, "2") {
            Some(LogVersion::V2)
        } else {
            None
        }
    }
}

} // verus!
