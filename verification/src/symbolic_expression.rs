//! Small arithmetic expressions over symbols, attached to byte offsets
//! within a byte interval.

use vstd::prelude::*;

use crate::ident::Uuid;

verus! {

/// A scaled sum of two symbols plus a constant offset.
#[derive(Clone, Copy, Debug, PartialEq, Eq, Structural)]
pub struct SymAddrAddr {
    pub scale: i64,
    pub offset: i64,
    pub symbol1: Uuid,
    pub symbol2: Uuid,
}

/// One symbol plus a constant offset.
#[derive(Clone, Copy, Debug, PartialEq, Eq, Structural)]
pub struct SymAddrConst {
    pub offset: i64,
    pub symbol: Uuid,
}

/// One symbol plus a constant offset, relative to a stack frame.
#[derive(Clone, Copy, Debug, PartialEq, Eq, Structural)]
pub struct SymStackConst {
    pub offset: i64,
    pub symbol: Uuid,
}

/// A symbolic expression stored at one byte offset of a byte interval.
#[derive(Clone, Copy, Debug, PartialEq, Eq, Structural)]
pub enum SymbolicExpression {
    SymAddrAddr(SymAddrAddr),
    SymAddrConst(SymAddrConst),
    SymStackConst(SymStackConst),
}

} // verus!
