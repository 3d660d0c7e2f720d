use gtirb::{Addr, ByteInterval, Context, Module, Section, SectionFlag, IR};

#[test]
fn section_can_set_attributes() {
    let mut ctx = Context::new();
    let ir = IR::new(&mut ctx);
    let module = Module::new(&mut ctx, "dummy");
    ir.add_module(&mut ctx, &module).unwrap();
    let section = Section::new(&mut ctx, ".text");
    module.add_section(&mut ctx, &section).unwrap();
    assert_eq!(section.name(&ctx), ".text");

    section.set_name(&mut ctx, ".data");
    assert_eq!(section.name(&ctx), ".data");
}

#[test]
fn can_set_flags() {
    let mut ctx = Context::new();
    let ir = IR::new(&mut ctx);
    let module = Module::new(&mut ctx, "dummy");
    ir.add_module(&mut ctx, &module).unwrap();
    let section = Section::new(&mut ctx, ".text");
    module.add_section(&mut ctx, &section).unwrap();
    assert_eq!(section.name(&ctx), ".text");

    assert!(section.flags(&ctx).is_empty());
    section.add_flag(&mut ctx, SectionFlag::Readable);
    section.add_flag(&mut ctx, SectionFlag::Writable);
    assert!(section.is_flag_set(&ctx, SectionFlag::Readable));
    assert!(section.is_flag_set(&ctx, SectionFlag::Writable));

    section.remove_flag(&mut ctx, SectionFlag::Writable);
    assert!(!section.is_flag_set(&ctx, SectionFlag::Writable));
}

#[test]
fn can_calculate_size() {
    let mut ctx = Context::new();
    let ir = IR::new(&mut ctx);
    let module = Module::new(&mut ctx, "dummy");
    ir.add_module(&mut ctx, &module).unwrap();

    let section = Section::new(&mut ctx, ".text");
    module.add_section(&mut ctx, &section).unwrap();
    assert_eq!(section.size(&ctx), None);
    assert_eq!(section.address(&ctx), None);

    let byte_interval = ByteInterval::new(&mut ctx);
    section.add_byte_interval(&mut ctx, &byte_interval).unwrap();
    byte_interval.set_address(&mut ctx, Some(Addr(5)));
    byte_interval.set_size(&mut ctx, 10);
    assert_eq!(section.size(&ctx), Some(10));
    assert_eq!(section.address(&ctx), Some(Addr(5)));

    let byte_interval = ByteInterval::new(&mut ctx);
    section.add_byte_interval(&mut ctx, &byte_interval).unwrap();
    byte_interval.set_address(&mut ctx, Some(Addr(15)));
    byte_interval.set_size(&mut ctx, 10);
    assert_eq!(section.size(&ctx), Some(20));
    assert_eq!(section.address(&ctx), Some(Addr(5)));

    let unplaced = ByteInterval::new(&mut ctx);
    section.add_byte_interval(&mut ctx, &unplaced).unwrap();
    assert_eq!(section.size(&ctx), None);
    assert_eq!(section.address(&ctx), None);
}

#[test]
fn module_span_covers_all_sections() {
    let mut ctx = Context::new();
    let ir = IR::new(&mut ctx);
    let module = Module::new(&mut ctx, "dummy");
    ir.add_module(&mut ctx, &module).unwrap();
    assert_eq!(module.size(&ctx), None);
    assert_eq!(module.address(&ctx), None);

    let text = Section::new(&mut ctx, ".text");
    module.add_section(&mut ctx, &text).unwrap();
    let bytes = ByteInterval::new(&mut ctx);
    text.add_byte_interval(&mut ctx, &bytes).unwrap();
    bytes.set_address(&mut ctx, Some(Addr(200)));
    bytes.set_size(&mut ctx, 100);

    assert_eq!(module.size(&ctx), Some(100));
    assert_eq!(module.address(&ctx), Some(Addr(200)));

    let data = Section::new(&mut ctx, ".data");
    module.add_section(&mut ctx, &data).unwrap();
    let bytes = ByteInterval::new(&mut ctx);
    data.add_byte_interval(&mut ctx, &bytes).unwrap();
    bytes.set_address(&mut ctx, Some(Addr(0)));
    bytes.set_size(&mut ctx, 100);
    assert_eq!(module.size(&ctx), Some(300));
    assert_eq!(module.address(&ctx), Some(Addr(0)));
    assert_eq!(module.byte_intervals(&ctx).len(), 2);
}
