//! Enumerated tags carried by modules and sections, and their wire codes.
//!
//! On the wire each tag is an unsigned integer; a value outside the declared
//! set is rejected at decode.  Inside the tree only the well-typed enums
//! appear.

use vstd::prelude::*;

verus! {

/// The file format of an analyzed binary image.
#[derive(Clone, Copy, Debug, PartialEq, Eq, Hash, Structural)]
pub enum FileFormat {
    FormatUndefined,
    Coff,
    Elf,
    Pe,
    IdaProDb32,
    IdaProDb64,
    Macho,
    Raw,
}

/// The instruction-set architecture of a module.
#[derive(Clone, Copy, Debug, PartialEq, Eq, Hash, Structural)]
pub enum ISA {
    Undefined,
    Ia32,
    Ppc32,
    X64,
    Arm,
    ValidButUnsupported,
    Ppc64,
    Arm64,
    Mips32,
    Mips64,
}

/// The byte order of a module.
#[derive(Clone, Copy, Debug, PartialEq, Eq, Hash, Structural)]
pub enum ByteOrder {
    Undefined,
    BigEndian,
    LittleEndian,
}

/// A property flag of a section.
#[derive(Clone, Copy, Debug, PartialEq, Eq, Hash, Structural)]
pub enum SectionFlag {
    Undefined,
    Readable,
    Writable,
    Executable,
    Loaded,
    Initialized,
    ThreadLocal,
}

/// The wire code of a file-format tag.
pub open spec fn spec_file_format_code(f: FileFormat) -> u64 {
    match f {
        FileFormat::FormatUndefined => 0,
        FileFormat::Coff => 1,
        FileFormat::Elf => 2,
        FileFormat::Pe => 3,
        FileFormat::IdaProDb32 => 4,
        FileFormat::IdaProDb64 => 5,
        FileFormat::Macho => 6,
        FileFormat::Raw => 7,
    }
}

/// The file-format tag of a wire code, if the code is declared.
pub open spec fn spec_file_format_from_code(c: u64) -> Option<FileFormat> {
    if c == 0 {
        Some(FileFormat::FormatUndefined)
    } else if c == 1 {
        Some(FileFormat::Coff)
    } else if c == 2 {
        Some(FileFormat::Elf)
    } else if c == 3 {
        Some(FileFormat::Pe)
    } else if c == 4 {
        Some(FileFormat::IdaProDb32)
    } else if c == 5 {
        Some(FileFormat::IdaProDb64)
    } else if c == 6 {
        Some(FileFormat::Macho)
    } else if c == 7 {
        Some(FileFormat::Raw)
    } else {
        None
    }
}

pub fn file_format_code(f: FileFormat) -> (r: u64)
    ensures
        r == spec_file_format_code(f),
{
    match f {
        FileFormat::FormatUndefined => 0,
        FileFormat::Coff => 1,
        FileFormat::Elf => 2,
        FileFormat::Pe => 3,
        FileFormat::IdaProDb32 => 4,
        FileFormat::IdaProDb64 => 5,
        FileFormat::Macho => 6,
        FileFormat::Raw => 7,
    }
}

pub fn file_format_from_code(c: u64) -> (r: Option<FileFormat>)
    ensures
        r == spec_file_format_from_code(c),
{
    if c == 0 {
        Some(FileFormat::FormatUndefined)
    } else if c == 1 {
        Some(FileFormat::Coff)
    } else if c == 2 {
        Some(FileFormat::Elf)
    } else if c == 3 {
        Some(FileFormat::Pe)
    } else if c == 4 {
        Some(FileFormat::IdaProDb32)
    } else if c == 5 {
        Some(FileFormat::IdaProDb64)
    } else if c == 6 {
        Some(FileFormat::Macho)
    } else if c == 7 {
        Some(FileFormat::Raw)
    } else {
        None
    }
}

/// A declared file-format code maps back to the tag it encodes.
pub proof fn lemma_file_format_round_trip(f: FileFormat)
    ensures
        spec_file_format_from_code(spec_file_format_code(f)) == Some(f),
{
}

/// The wire code of an ISA tag.
pub open spec fn spec_isa_code(i: ISA) -> u64 {
    match i {
        ISA::Undefined => 0,
        ISA::Ia32 => 1,
        ISA::Ppc32 => 2,
        ISA::X64 => 3,
        ISA::Arm => 4,
        ISA::ValidButUnsupported => 5,
        ISA::Ppc64 => 6,
        ISA::Arm64 => 7,
        ISA::Mips32 => 8,
        ISA::Mips64 => 9,
    }
}

/// The ISA tag of a wire code, if the code is declared.
pub open spec fn spec_isa_from_code(c: u64) -> Option<ISA> {
    if c == 0 {
        Some(ISA::Undefined)
    } else if c == 1 {
        Some(ISA::Ia32)
    } else if c == 2 {
        Some(ISA::Ppc32)
    } else if c == 3 {
        Some(ISA::X64)
    } else if c == 4 {
        Some(ISA::Arm)
    } else if c == 5 {
        Some(ISA::ValidButUnsupported)
    } else if c == 6 {
        Some(ISA::Ppc64)
    } else if c == 7 {
        Some(ISA::Arm64)
    } else if c == 8 {
        Some(ISA::Mips32)
    } else if c == 9 {
        Some(ISA::Mips64)
    } else {
        None
    }
}

pub fn isa_code(i: ISA) -> (r: u64)
    ensures
        r == spec_isa_code(i),
{
    match i {
        ISA::Undefined => 0,
        ISA::Ia32 => 1,
        ISA::Ppc32 => 2,
        ISA::X64 => 3,
        ISA::Arm => 4,
        ISA::ValidButUnsupported => 5,
        ISA::Ppc64 => 6,
        ISA::Arm64 => 7,
        ISA::Mips32 => 8,
        ISA::Mips64 => 9,
    }
}

pub fn isa_from_code(c: u64) -> (r: Option<ISA>)
    ensures
        r == spec_isa_from_code(c),
{
    if c == 0 {
        Some(ISA::Undefined)
    } else if c == 1 {
        Some(ISA::Ia32)
    } else if c == 2 {
        Some(ISA::Ppc32)
    } else if c == 3 {
        Some(ISA::X64)
    } else if c == 4 {
        Some(ISA::Arm)
    } else if c == 5 {
        Some(ISA::ValidButUnsupported)
    } else if c == 6 {
        Some(ISA::Ppc64)
    } else if c == 7 {
        Some(ISA::Arm64)
    } else if c == 8 {
        Some(ISA::Mips32)
    } else if c == 9 {
        Some(ISA::Mips64)
    } else {
        None
    }
}

/// A declared ISA code maps back to the tag it encodes.
pub proof fn lemma_isa_round_trip(i: ISA)
    ensures
        spec_isa_from_code(spec_isa_code(i)) == Some(i),
{
}

/// The wire code of a byte-order tag.
pub open spec fn spec_byte_order_code(b: ByteOrder) -> u64 {
    match b {
        ByteOrder::Undefined => 0,
        ByteOrder::BigEndian => 1,
        ByteOrder::LittleEndian => 2,
    }
}

/// The byte-order tag of a wire code, if the code is declared.
pub open spec fn spec_byte_order_from_code(c: u64) -> Option<ByteOrder> {
    if c == 0 {
        Some(ByteOrder::Undefined)
    } else if c == 1 {
        Some(ByteOrder::BigEndian)
    } else if c == 2 {
        Some(ByteOrder::LittleEndian)
    } else {
        None
    }
}

pub fn byte_order_code(b: ByteOrder) -> (r: u64)
    ensures
        r == spec_byte_order_code(b),
{
    match b {
        ByteOrder::Undefined => 0,
        ByteOrder::BigEndian => 1,
        ByteOrder::LittleEndian => 2,
    }
}

pub fn byte_order_from_code(c: u64) -> (r: Option<ByteOrder>)
    ensures
        r == spec_byte_order_from_code(c),
{
    if c == 0 {
        Some(ByteOrder::Undefined)
    } else if c == 1 {
        Some(ByteOrder::BigEndian)
    } else if c == 2 {
        Some(ByteOrder::LittleEndian)
    } else {
        None
    }
}

/// A declared byte-order code maps back to the tag it encodes.
pub proof fn lemma_byte_order_round_trip(b: ByteOrder)
    ensures
        spec_byte_order_from_code(spec_byte_order_code(b)) == Some(b),
{
}

/// The wire code of a section flag.
pub open spec fn spec_section_flag_code(f: SectionFlag) -> u64 {
    match f {
        SectionFlag::Undefined => 0,
        SectionFlag::Readable => 1,
        SectionFlag::Writable => 2,
        SectionFlag::Executable => 3,
        SectionFlag::Loaded => 4,
        SectionFlag::Initialized => 5,
        SectionFlag::ThreadLocal => 6,
    }
}

/// The section flag of a wire code, if the code is declared.
pub open spec fn spec_section_flag_from_code(c: u64) -> Option<SectionFlag> {
    if c == 0 {
        Some(SectionFlag::Undefined)
    } else if c == 1 {
        Some(SectionFlag::Readable)
    } else if c == 2 {
        Some(SectionFlag::Writable)
    } else if c == 3 {
        Some(SectionFlag::Executable)
    } else if c == 4 {
        Some(SectionFlag::Loaded)
    } else if c == 5 {
        Some(SectionFlag::Initialized)
    } else if c == 6 {
        Some(SectionFlag::ThreadLocal)
    } else {
        None
    }
}

pub fn section_flag_code(f: SectionFlag) -> (r: u64)
    ensures
        r == spec_section_flag_code(f),
{
    match f {
        SectionFlag::Undefined => 0,
        SectionFlag::Readable => 1,
        SectionFlag::Writable => 2,
        SectionFlag::Executable => 3,
        SectionFlag::Loaded => 4,
        SectionFlag::Initialized => 5,
        SectionFlag::ThreadLocal => 6,
    }
}

pub fn section_flag_from_code(c: u64) -> (r: Option<SectionFlag>)
    ensures
        r == spec_section_flag_from_code(c),
{
    if c == 0 {
        Some(SectionFlag::Undefined)
    } else if c == 1 {
        Some(SectionFlag::Readable)
    } else if c == 2 {
        Some(SectionFlag::Writable)
    } else if c == 3 {
        Some(SectionFlag::Executable)
    } else if c == 4 {
        Some(SectionFlag::Loaded)
    } else if c == 5 {
        Some(SectionFlag::Initialized)
    } else if c == 6 {
        Some(SectionFlag::ThreadLocal)
    } else {
        None
    }
}

/// A declared section-flag code maps back to the flag it encodes.
pub proof fn lemma_section_flag_round_trip(f: SectionFlag)
    ensures
        spec_section_flag_from_code(spec_section_flag_code(f)) == Some(f),
{
}

} // verus!
