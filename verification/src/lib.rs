//! An in-memory representation and binary codec for GTIRB, a tree-structured
//! intermediate representation for analyzed binary programs.
//!
//! One [`Context`] owns a forest of node records, each named by a 128-bit
//! [`Uuid`] and registered in a per-kind index.  Handles ([`IRRef`],
//! [`ModuleRef`], ...) are small copyable tokens that name a node; all reads
//! and mutations go through the context.  The codec turns a whole tree into a
//! length-prefixed byte stream and back.

mod addr;
mod aux_data;
mod byte_interval;
mod code_block;
mod context;
mod data_block;
mod error;
mod ident;
mod ir;
mod module;
pub mod codec;
pub mod proto;
mod proxy_block;
mod section;
mod symbol;
mod symbolic_expression;
mod tags;
pub mod wire;

pub use addr::Addr;
pub use aux_data::{AuxEntry, AuxEntryV};
pub use byte_interval::{ByteInterval, ByteIntervalNodeV, ByteIntervalRef};
pub use code_block::{CodeBlock, CodeBlockRef};
pub use context::Context;
pub use data_block::{DataBlock, DataBlockRef};
pub use error::{Error, TagKind};
pub use ident::Uuid;
pub use ir::{IRRef, IrNodeV, IR};
pub use module::{Module, ModuleNodeV, ModuleRef};
pub use proxy_block::{ProxyBlock, ProxyBlockRef};
pub use section::{Section, SectionNodeV, SectionRef};
pub use symbol::{Payload, Symbol, SymbolNodeV, SymbolRef};
pub use symbolic_expression::{SymAddrAddr, SymAddrConst, SymStackConst, SymbolicExpression};
pub use codec::{decode, encode};
pub use tags::{ByteOrder, FileFormat, SectionFlag, ISA};
