use gtirb::{
    decode, encode, Addr, ByteInterval, CodeBlock, Context, Error, FileFormat, Module, Payload,
    Section, SectionFlag, SymAddrConst, Symbol, SymbolicExpression, TagKind, Uuid, ByteOrder,
    ISA, IR,
};

/// Build the reference tree: one module with one executable section, one
/// anchored byte interval and one code block.
fn build_reference_tree(ctx: &mut Context) -> gtirb::IRRef {
    let ir = IR::new(ctx);
    let module = Module::new(ctx, "m");
    ir.add_module(ctx, &module).unwrap();
    module.set_file_format(ctx, FileFormat::Elf);
    module.set_isa(ctx, ISA::X64);
    module.set_byte_order(ctx, ByteOrder::LittleEndian);
    module.set_preferred_address(ctx, Addr(0x400000));

    let section = Section::new(ctx, ".text");
    module.add_section(ctx, &section).unwrap();
    section.add_flag(ctx, SectionFlag::Readable);
    section.add_flag(ctx, SectionFlag::Executable);

    let interval = ByteInterval::new(ctx);
    section.add_byte_interval(ctx, &interval).unwrap();
    interval.set_size(ctx, 16);
    interval.set_address(ctx, Some(Addr(0x401000)));
    interval.set_bytes(ctx, &[0x90; 8]);
    interval.set_size(ctx, 16);

    let block = CodeBlock::new(ctx);
    block.set_size(ctx, 8);
    interval.add_code_block(ctx, &block).unwrap();

    let symbol = Symbol::new(ctx, "start");
    module.add_symbol(ctx, &symbol).unwrap();
    symbol.set_payload(ctx, Some(Payload::Referent(block.uuid())));

    ir
}

#[test]
fn round_trip_preserves_structure() {
    let mut ctx = Context::new();
    let ir = build_reference_tree(&mut ctx);
    let bytes = encode(&ctx, &ir);
    let (ctx2, ir2) = decode(&bytes).unwrap();

    assert_eq!(ir2.uuid(), ir.uuid());
    assert_eq!(ir2.version(&ctx2), ir.version(&ctx));

    let m1 = ir.modules(&ctx);
    let m2 = ir2.modules(&ctx2);
    assert_eq!(m1.len(), m2.len());
    let (m1, m2) = (m1[0], m2[0]);
    assert_eq!(m1.uuid(), m2.uuid());
    assert_eq!(m1.name(&ctx), m2.name(&ctx2));
    assert_eq!(m2.name(&ctx2), "m");
    assert_eq!(m2.file_format(&ctx2), FileFormat::Elf);
    assert_eq!(m2.isa(&ctx2), ISA::X64);
    assert_eq!(m2.byte_order(&ctx2), ByteOrder::LittleEndian);
    assert_eq!(m2.preferred_address(&ctx2), Addr(0x400000));

    let s1 = m1.sections(&ctx);
    let s2 = m2.sections(&ctx2);
    assert_eq!(s1.len(), s2.len());
    let (s1, s2) = (s1[0], s2[0]);
    assert_eq!(s1.uuid(), s2.uuid());
    assert_eq!(s2.name(&ctx2), ".text");
    assert_eq!(s1.flags(&ctx), s2.flags(&ctx2));
    assert!(s2.is_flag_set(&ctx2, SectionFlag::Readable));
    assert!(s2.is_flag_set(&ctx2, SectionFlag::Executable));
    assert!(!s2.is_flag_set(&ctx2, SectionFlag::Writable));

    let b1 = s1.byte_intervals(&ctx);
    let b2 = s2.byte_intervals(&ctx2);
    assert_eq!(b1.len(), b2.len());
    let (b1, b2) = (b1[0], b2[0]);
    assert_eq!(b1.uuid(), b2.uuid());
    assert_eq!(b2.size(&ctx2), 16);
    assert_eq!(b2.address(&ctx2), Some(Addr(0x401000)));
    assert_eq!(b1.bytes(&ctx), b2.bytes(&ctx2));
    assert_eq!(b2.bytes(&ctx2), vec![0x90; 8]);

    let c1 = b1.code_blocks(&ctx);
    let c2 = b2.code_blocks(&ctx2);
    assert_eq!(c1.len(), c2.len());
    let (c1, c2) = (c1[0], c2[0]);
    assert_eq!(c1.uuid(), c2.uuid());
    assert_eq!(c2.offset(&ctx2), 0);
    assert_eq!(c2.size(&ctx2), 8);
    assert_eq!(c2.decode_mode(&ctx2), 0);

    let y1 = m1.symbols(&ctx);
    let y2 = m2.symbols(&ctx2);
    assert_eq!(y1.len(), y2.len());
    let (y1, y2) = (y1[0], y2[0]);
    assert_eq!(y1.uuid(), y2.uuid());
    assert_eq!(y2.name(&ctx2), "start");
    assert_eq!(y2.payload(&ctx2), Some(Payload::Referent(c2.uuid())));
}

#[test]
fn round_trip_keeps_symbolic_expressions_and_unicode_names() {
    let mut ctx = Context::new();
    let ir = build_reference_tree(&mut ctx);
    let m = ir.modules(&ctx)[0];
    m.set_name(&mut ctx, "módulo");
    m.set_rebase_delta(&mut ctx, -7);
    let bytes = encode(&ctx, &ir);
    let (ctx2, ir2) = decode(&bytes).unwrap();
    let m2 = ir2.modules(&ctx2)[0];
    assert_eq!(m2.name(&ctx2), "módulo");
    assert_eq!(m2.rebase_delta(&ctx2), -7);
}

#[test]
fn empty_input_is_truncated() {
    match decode(&[]) {
        Err(e) => assert_eq!(e, Error::TruncatedInput),
        Ok(_) => panic!("expected a failure"),
    }
}

#[test]
fn short_identifier_is_malformed() {
    // length prefix 1, then an identifier whose own length prefix is 15
    match decode(&[1, 15]) {
        Err(e) => assert_eq!(e, Error::MalformedIdentifier),
        Ok(_) => panic!("expected a failure"),
    }
}

#[test]
fn trailing_garbage_is_rejected() {
    let mut ctx = Context::new();
    let ir = build_reference_tree(&mut ctx);
    let mut bytes = encode(&ctx, &ir);
    bytes.push(0);
    match decode(&bytes) {
        Err(e) => assert_eq!(e, Error::StructuralDecodeError),
        Ok(_) => panic!("expected a failure"),
    }
}

#[test]
fn unknown_file_format_is_rejected() {
    let msg = gtirb::proto::Ir {
        uuid: 1,
        version: 1,
        modules: vec![gtirb::proto::Module {
            uuid: 2,
            name: String::from("m"),
            binary_path: String::new(),
            preferred_addr: 0,
            rebase_delta: 0,
            file_format: 250,
            isa: 0,
            byte_order: 0,
            entry_point: None,
            symbols: vec![],
            proxies: vec![],
            sections: vec![],
            aux_data: vec![],
        }],
        aux_data: vec![],
    };
    let mut ctx = Context::new();
    let r = Module::load_protobuf(&mut ctx, &msg.modules[0]);
    assert_eq!(r.unwrap_err(), Error::UnknownEnum(TagKind::FileFormatTag));
}

#[test]
fn oversized_contents_are_rejected() {
    let iv = gtirb::proto::ByteInterval {
        uuid: 7,
        blocks: vec![],
        has_address: false,
        address: 0,
        size: 2,
        contents: vec![1, 2, 3],
        symbolic_expressions: vec![],
    };
    let mut ctx = Context::new();
    let msg = gtirb::proto::Section {
        uuid: 6,
        name: String::from(".x"),
        section_flags: vec![],
        byte_intervals: vec![iv],
    };
    let r = gtirb::IR::load_protobuf(
        &mut ctx,
        gtirb::proto::Ir {
            uuid: 1,
            version: 1,
            modules: vec![gtirb::proto::Module {
                uuid: 2,
                name: String::from("m"),
                binary_path: String::new(),
                preferred_addr: 0,
                rebase_delta: 0,
                file_format: 0,
                isa: 0,
                byte_order: 0,
                entry_point: None,
                symbols: vec![],
                proxies: vec![],
                sections: vec![msg],
                aux_data: vec![],
            }],
            aux_data: vec![],
        },
    );
    assert_eq!(r.unwrap_err(), Error::InvalidSizes);
}

#[test]
fn duplicate_identifiers_are_rejected() {
    let msg = gtirb::proto::Ir {
        uuid: 1,
        version: 1,
        modules: vec![gtirb::proto::Module {
            uuid: 1,
            name: String::from("m"),
            binary_path: String::new(),
            preferred_addr: 0,
            rebase_delta: 0,
            file_format: 0,
            isa: 0,
            byte_order: 0,
            entry_point: None,
            symbols: vec![],
            proxies: vec![],
            sections: vec![],
            aux_data: vec![],
        }],
        aux_data: vec![],
    };
    let mut ctx = Context::new();
    let r = gtirb::IR::load_protobuf(&mut ctx, msg);
    assert_eq!(r.unwrap_err(), Error::StructuralDecodeError);
}

#[test]
fn symbolic_expression_offsets_must_fit() {
    let iv = gtirb::proto::ByteInterval {
        uuid: 7,
        blocks: vec![],
        has_address: false,
        address: 0,
        size: 4,
        contents: vec![],
        symbolic_expressions: vec![(
            9,
            SymbolicExpression::SymAddrConst(SymAddrConst { offset: 0, symbol: Uuid(3) }),
        )],
    };
    let mut ctx = Context::new();
    let section = gtirb::proto::Section {
        uuid: 6,
        name: String::from(".x"),
        section_flags: vec![],
        byte_intervals: vec![iv],
    };
    let r = gtirb::Section::load_protobuf(&mut ctx, &section);
    assert_eq!(r.unwrap_err(), Error::InvalidSizes);
}

#[test]
fn interleaved_blocks_load_grouped_code_first() {
    let iv = gtirb::proto::ByteInterval {
        uuid: 7,
        blocks: vec![
            gtirb::proto::Block { offset: 4, body: gtirb::proto::BlockBody::Data { uuid: 8, size: 2 } },
            gtirb::proto::Block {
                offset: 0,
                body: gtirb::proto::BlockBody::Code { uuid: 9, size: 4, decode_mode: 1 },
            },
        ],
        has_address: false,
        address: 0,
        size: 8,
        contents: vec![],
        symbolic_expressions: vec![],
    };
    let mut ctx = Context::new();
    let bref = gtirb::ByteInterval::load_protobuf(&mut ctx, &iv).unwrap();
    let cbs = bref.code_blocks(&ctx);
    let dbs = bref.data_blocks(&ctx);
    assert_eq!(cbs.len(), 1);
    assert_eq!(dbs.len(), 1);
    assert_eq!(cbs[0].uuid(), Uuid(9));
    assert_eq!(cbs[0].offset(&ctx), 0);
    assert_eq!(cbs[0].size(&ctx), 4);
    assert_eq!(cbs[0].decode_mode(&ctx), 1);
    assert_eq!(dbs[0].uuid(), Uuid(8));
    assert_eq!(dbs[0].offset(&ctx), 4);
    assert_eq!(dbs[0].size(&ctx), 2);
}

#[test]
fn repeated_flag_codes_load_deduplicated() {
    let msg = gtirb::proto::Section {
        uuid: 6,
        name: String::from(".x"),
        section_flags: vec![1, 1, 2],
        byte_intervals: vec![],
    };
    let mut ctx = Context::new();
    let sref = gtirb::Section::load_protobuf(&mut ctx, &msg).unwrap();
    assert_eq!(sref.flags(&ctx), vec![SectionFlag::Readable, SectionFlag::Writable]);
}

#[test]
fn unknown_isa_and_byte_order_are_rejected() {
    let mut module = gtirb::proto::Module {
        uuid: 2,
        name: String::from("m"),
        binary_path: String::new(),
        preferred_addr: 0,
        rebase_delta: 0,
        file_format: 0,
        isa: 250,
        byte_order: 0,
        entry_point: None,
        symbols: vec![],
        proxies: vec![],
        sections: vec![],
        aux_data: vec![],
    };
    let mut ctx = Context::new();
    assert_eq!(
        Module::load_protobuf(&mut ctx, &module).unwrap_err(),
        Error::UnknownEnum(TagKind::IsaTag)
    );
    module.isa = 0;
    module.byte_order = 250;
    let mut ctx = Context::new();
    assert_eq!(
        Module::load_protobuf(&mut ctx, &module).unwrap_err(),
        Error::UnknownEnum(TagKind::ByteOrderTag)
    );
}
