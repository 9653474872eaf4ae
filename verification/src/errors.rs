//! Error values returned by the codec. Every failure on malformed or
//! untrusted wire input is reported as one of these variants; the codec
//! never panics on bad input.

use vstd::prelude::*;

verus! {

/// A local, synchronous encode/decode failure.
#[derive(Debug, Clone, Copy, PartialEq, Eq, Structural)]
pub enum DnsError {
    /// A domain-name label longer than 63 octets was given to the encoder.
    LabelTooLong,
    /// The encoded form of a domain name would exceed 255 octets.
    NameTooLong,
    /// A name's tag octet carries the reserved `01` or `10` top-bit pattern.
    UnsupportedLabelType,
    /// Compression-pointer chasing exceeded the safety bound (one jump per
    /// octet of the buffer), which means the pointer chain revisits itself.
    CompressionLoop,
    /// A resource record's `rdlength` claims more octets than remain.
    TruncatedRecord,
    /// The buffer ended inside a header, name, or fixed record field.
    TruncatedMessage,
    /// A numeric record type outside the supported enumeration.
    UnknownRecordType,
    /// A numeric record class outside the supported enumeration.
    UnknownRecordClass,
}

} // verus!
