use gtirb::{Context, FileFormat, Module, Section, IR};

#[test]
fn new_module_is_unique() {
    let mut ctx = Context::new();
    assert_ne!(Module::new(&mut ctx, "a"), Module::new(&mut ctx, "a"));
}

#[test]
fn new_module_is_empty() {
    let mut ctx = Context::new();
    let ir = IR::new(&mut ctx);
    let module = Module::new(&mut ctx, "dummy");
    ir.add_module(&mut ctx, &module).unwrap();
    assert_eq!(module.symbols(&ctx).len(), 0);
    assert_eq!(module.sections(&ctx).len(), 0);
    assert_eq!(module.proxy_blocks(&ctx).len(), 0);
}

#[test]
fn can_set_binary_path() {
    let mut ctx = Context::new();
    let ir = IR::new(&mut ctx);
    let path = "/home/gt/irb/foo";
    let module = Module::new(&mut ctx, "dummy");
    ir.add_module(&mut ctx, &module).unwrap();
    module.set_binary_path(&mut ctx, path);
    assert_eq!(module.binary_path(&ctx), path);
}

#[test]
fn can_get_file_format_default() {
    let mut ctx = Context::new();
    let ir = IR::new(&mut ctx);
    let module = Module::new(&mut ctx, "dummy");
    ir.add_module(&mut ctx, &module).unwrap();
    assert_eq!(module.file_format(&ctx), FileFormat::FormatUndefined);
}

#[test]
fn can_set_file_format() {
    let mut ctx = Context::new();
    let ir = IR::new(&mut ctx);
    let module = Module::new(&mut ctx, "dummy");
    ir.add_module(&mut ctx, &module).unwrap();
    module.set_file_format(&mut ctx, FileFormat::Coff);
    assert_eq!(module.file_format(&ctx), FileFormat::Coff);

    module.set_file_format(&mut ctx, FileFormat::Macho);
    assert_eq!(module.file_format(&ctx), FileFormat::Macho);
}

#[test]
fn can_set_name() {
    let mut ctx = Context::new();
    let ir = IR::new(&mut ctx);
    let module = Module::new(&mut ctx, "dummy");
    ir.add_module(&mut ctx, &module).unwrap();
    module.set_name(&mut ctx, "example");
    assert_eq!(module.name(&ctx), "example");
}

#[test]
fn can_relocate_module() {
    let mut ctx = Context::new();
    let ir = IR::new(&mut ctx);
    let module = Module::new(&mut ctx, "dummy");
    ir.add_module(&mut ctx, &module).unwrap();
    assert!(!module.is_relocated(&ctx));
    assert_eq!(module.rebase_delta(&ctx), 0);

    module.set_rebase_delta(&mut ctx, 0x1000);
    assert!(module.is_relocated(&ctx));
    assert_eq!(module.rebase_delta(&ctx), 0x1000);
}

#[test]
fn can_add_new_section() {
    let mut ctx = Context::new();
    let ir = IR::new(&mut ctx);
    let module = Module::new(&mut ctx, "dummy");
    ir.add_module(&mut ctx, &module).unwrap();
    let section = Section::new(&mut ctx, "foo");
    module.add_section(&mut ctx, &section).unwrap();
    assert_eq!(module.sections(&ctx).len(), 1);
}

#[test]
fn can_remove_section() {
    let mut ctx = Context::new();
    let ir = IR::new(&mut ctx);
    let module1 = Module::new(&mut ctx, "mod1");
    ir.add_module(&mut ctx, &module1).unwrap();
    let module2 = Module::new(&mut ctx, "mod2");
    ir.add_module(&mut ctx, &module2).unwrap();
    let section = Section::new(&mut ctx, "foo");
    module1.add_section(&mut ctx, &section).unwrap();
    let uuid = section.uuid();
    assert_eq!(module1.sections(&ctx).len(), 1);

    let section = module1.remove_section(&mut ctx, uuid);
    assert_eq!(module1.sections(&ctx).len(), 0);

    let section = section.unwrap();
    module2.add_section(&mut ctx, &section).unwrap();
    assert_eq!(module2.sections(&ctx).len(), 1);
    let removed = module2.remove_section(&mut ctx, section.uuid());
    // Giving up the last handle on the detached section destroys it.
    ctx.release_section(removed.unwrap());
    let node = ctx.find_module(&uuid);
    assert!(node.is_none());
    assert!(ctx.find_section(&uuid).is_none());
}

#[test]
fn can_set_entry_point() {
    let mut ctx = Context::new();
    let module = Module::new(&mut ctx, "dummy");
    assert_eq!(module.entry_point(&ctx), None);
    let block = gtirb::CodeBlock::new(&mut ctx);
    module.set_entry_point(&mut ctx, Some(block.uuid()));
    assert_eq!(module.entry_point(&ctx), Some(block.uuid()));
    module.set_entry_point(&mut ctx, None);
    assert_eq!(module.entry_point(&ctx), None);
}
