//! The structured records of the wire format, as plain owned data.
//!
//! A decoded file becomes one [`Ir`] record tree; loading turns it into
//! registered nodes, and encoding walks the node tree back into this
//! shape's byte form.  Enumerated tags stay raw integers here; they are
//! validated when the records are loaded into a context.

use vstd::prelude::*;

use crate::aux_data::{aux_view, AuxEntry, AuxEntryV};
use crate::symbol::Payload;
use crate::symbolic_expression::SymbolicExpression;

verus! {

/// The body of a block record: a code block or a data block.
#[derive(Clone, Copy, Debug, PartialEq, Eq, Structural)]
pub enum BlockBody {
    Code { uuid: u128, size: u64, decode_mode: u64 },
    Data { uuid: u128, size: u64 },
}

/// A block record: an offset within its interval and a code or data body.
#[derive(Clone, Copy, Debug, PartialEq, Eq, Structural)]
pub struct Block {
    pub offset: u64,
    pub body: BlockBody,
}

/// A symbol record.
pub struct Symbol {
    pub uuid: u128,
    pub name: String,
    pub payload: Option<Payload>,
}

/// The mathematical value of a symbol record.
pub struct SymbolV {
    pub uuid: u128,
    pub name: Seq<char>,
    pub payload: Option<Payload>,
}

impl View for Symbol {
    type V = SymbolV;

    open spec fn view(&self) -> SymbolV {
        SymbolV { uuid: self.uuid, name: self.name@, payload: self.payload }
    }
}

/// A byte-interval record.
pub struct ByteInterval {
    pub uuid: u128,
    pub blocks: Vec<Block>,
    pub has_address: bool,
    pub address: u64,
    pub size: u64,
    pub contents: Vec<u8>,
    pub symbolic_expressions: Vec<(u64, SymbolicExpression)>,
}

/// The mathematical value of a byte-interval record.
pub struct ByteIntervalV {
    pub uuid: u128,
    pub blocks: Seq<Block>,
    pub has_address: bool,
    pub address: u64,
    pub size: u64,
    pub contents: Seq<u8>,
    pub symbolic_expressions: Seq<(u64, SymbolicExpression)>,
}

impl View for ByteInterval {
    type V = ByteIntervalV;

    open spec fn view(&self) -> ByteIntervalV {
        ByteIntervalV {
            uuid: self.uuid,
            blocks: self.blocks@,
            has_address: self.has_address,
            address: self.address,
            size: self.size,
            contents: self.contents@,
            symbolic_expressions: self.symbolic_expressions@,
        }
    }
}

/// A section record.
pub struct Section {
    pub uuid: u128,
    pub name: String,
    pub section_flags: Vec<u64>,
    pub byte_intervals: Vec<ByteInterval>,
}

/// The mathematical value of a section record.
pub struct SectionV {
    pub uuid: u128,
    pub name: Seq<char>,
    pub section_flags: Seq<u64>,
    pub byte_intervals: Seq<ByteIntervalV>,
}

impl View for Section {
    type V = SectionV;

    open spec fn view(&self) -> SectionV {
        SectionV {
            uuid: self.uuid,
            name: self.name@,
            section_flags: self.section_flags@,
            byte_intervals: self.byte_intervals@.map_values(|b: ByteInterval| b@),
        }
    }
}

/// A module record.
pub struct Module {
    pub uuid: u128,
    pub name: String,
    pub binary_path: String,
    pub preferred_addr: u64,
    pub rebase_delta: i64,
    pub file_format: u64,
    pub isa: u64,
    pub byte_order: u64,
    pub entry_point: Option<u128>,
    pub symbols: Vec<Symbol>,
    pub proxies: Vec<u128>,
    pub sections: Vec<Section>,
    pub aux_data: Vec<AuxEntry>,
}

/// The mathematical value of a module record.
pub struct ModuleV {
    pub uuid: u128,
    pub name: Seq<char>,
    pub binary_path: Seq<char>,
    pub preferred_addr: u64,
    pub rebase_delta: i64,
    pub file_format: u64,
    pub isa: u64,
    pub byte_order: u64,
    pub entry_point: Option<u128>,
    pub symbols: Seq<SymbolV>,
    pub proxies: Seq<u128>,
    pub sections: Seq<SectionV>,
    pub aux_data: Seq<AuxEntryV>,
}

impl View for Module {
    type V = ModuleV;

    open spec fn view(&self) -> ModuleV {
        ModuleV {
            uuid: self.uuid,
            name: self.name@,
            binary_path: self.binary_path@,
            preferred_addr: self.preferred_addr,
            rebase_delta: self.rebase_delta,
            file_format: self.file_format,
            isa: self.isa,
            byte_order: self.byte_order,
            entry_point: self.entry_point,
            symbols: self.symbols@.map_values(|s: Symbol| s@),
            proxies: self.proxies@,
            sections: self.sections@.map_values(|s: Section| s@),
            aux_data: aux_view(self.aux_data@),
        }
    }
}

/// The top-level record of one file.
pub struct Ir {
    pub uuid: u128,
    pub version: u32,
    pub modules: Vec<Module>,
    pub aux_data: Vec<AuxEntry>,
}

/// The mathematical value of a top-level record.
pub struct IrV {
    pub uuid: u128,
    pub version: u32,
    pub modules: Seq<ModuleV>,
    pub aux_data: Seq<AuxEntryV>,
}

impl View for Ir {
    type V = IrV;

    open spec fn view(&self) -> IrV {
        IrV {
            uuid: self.uuid,
            version: self.version,
            modules: self.modules@.map_values(|m: Module| m@),
            aux_data: aux_view(self.aux_data@),
        }
    }
}

} // verus!
