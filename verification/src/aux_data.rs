//! Opaque auxiliary-data blobs: per-node key/value bags that the codec
//! preserves verbatim and the core never interprets.

use vstd::prelude::*;

verus! {

/// One auxiliary-data entry: an uninterpreted name and an uninterpreted blob.
pub struct AuxEntry {
    pub key: String,
    pub value: Vec<u8>,
}

/// The mathematical value of an auxiliary-data entry.
pub struct AuxEntryV {
    pub key: Seq<char>,
    pub value: Seq<u8>,
}

impl View for AuxEntry {
    type V = AuxEntryV;

    open spec fn view(&self) -> AuxEntryV {
        AuxEntryV { key: self.key@, value: self.value@ }
    }
}

/// The values of a whole auxiliary-data bag, in stored order.
pub open spec fn aux_view(s: Seq<AuxEntry>) -> Seq<AuxEntryV> {
    s.map_values(|a: AuxEntry| a@)
}

} // verus!
