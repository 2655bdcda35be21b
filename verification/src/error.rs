use vstd::prelude::*;

verus! {

/// The reasons a configuration document can be rejected.  Construction of the
/// aggregate configuration is fail-fast: the first error encountered aborts
/// the attempt and is returned verbatim, carrying the offending field or value
/// where one is available.
#[derive(Debug, Clone, PartialEq, Eq)]
pub enum ConfigError {
    /// An address string does not decode to the protocol's fixed byte width,
    /// or uses a character outside the encoding alphabet.
    InvalidAddress(String),
    /// A timestamp string is not a strict RFC 3339 date-time.
    InvalidTimestamp(String),
    /// A closed enumeration was given a token outside its set of values.
    UnknownEnumValue(String),
    /// A required field is absent from the document.
    MissingRequiredField(String),
    /// A field is present but has the wrong document shape.
    TypeMismatch(String),
    /// A fixed-width byte field has the wrong length; carries the length found.
    InvalidFixedLength(usize),
}

} // verus!
