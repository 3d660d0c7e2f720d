//! Typed failures raised by the codec and by structural mutations.

use vstd::prelude::*;

verus! {

/// Which enumerated wire tag held a value outside its declared set.
#[derive(Clone, Copy, Debug, PartialEq, Eq, Structural)]
pub enum TagKind {
    FileFormatTag,
    IsaTag,
    ByteOrderTag,
    SectionFlagTag,
}

/// A typed decode or mutation failure.
#[derive(Clone, Copy, Debug, PartialEq, Eq, Structural)]
pub enum Error {
    /// An identifier field on the wire did not hold exactly 16 bytes.
    MalformedIdentifier,
    /// An enumerated tag value was outside its declared set.
    UnknownEnum(TagKind),
    /// The byte stream ended before a record was complete.
    TruncatedInput,
    /// The wire envelope could not be parsed (bad prefix, bad flag byte,
    /// an out-of-range scalar, or a duplicate identifier).
    StructuralDecodeError,
    /// A block record had neither a code nor a data body.
    InvalidBlockRecord,
    /// Initialized contents exceed a declared size, or a
    /// symbolic-expression key is not below its interval's size.
    InvalidSizes,
    /// An attempt to attach a node that is already attached to a parent.
    DetachedNode,
}

impl Error {
    /// A one-line human-readable rendering of the failure.
    pub fn describe(&self) -> (r: &'static str)
        ensures
            r@.len() > 0,
    {
        let s: &'static str = match self {
            Error::MalformedIdentifier => "identifier field was not exactly 16 bytes",
            Error::UnknownEnum(TagKind::FileFormatTag) => "unknown file-format tag",
            Error::UnknownEnum(TagKind::IsaTag) => "unknown ISA tag",
            Error::UnknownEnum(TagKind::ByteOrderTag) => "unknown byte-order tag",
            Error::UnknownEnum(TagKind::SectionFlagTag) => "unknown section-flag tag",
            Error::TruncatedInput => "input ended before the record was complete",
            Error::StructuralDecodeError => "malformed record envelope",
            Error::InvalidBlockRecord => "block record had neither a code nor a data body",
            Error::InvalidSizes => "declared sizes are inconsistent",
            Error::DetachedNode => "node is already attached to a parent",
        };
        proof {
            reveal_strlit("identifier field was not exactly 16 bytes");
            reveal_strlit("unknown file-format tag");
            reveal_strlit("unknown ISA tag");
            reveal_strlit("unknown byte-order tag");
            reveal_strlit("unknown section-flag tag");
            reveal_strlit("input ended before the record was complete");
            reveal_strlit("malformed record envelope");
            reveal_strlit("block record had neither a code nor a data body");
            reveal_strlit("declared sizes are inconsistent");
            reveal_strlit("node is already attached to a parent");
        }
        s
    }
}

} // verus!
