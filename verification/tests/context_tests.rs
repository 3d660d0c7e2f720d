use gtirb::{Context, Module, Section, IR};

#[test]
fn can_find_node_by_uuid() {
    let mut ctx = Context::new();
    let ir = IR::new(&mut ctx);
    let module = Module::new(&mut ctx, "foo");
    let uuid = module.uuid();
    ir.add_module(&mut ctx, &module).unwrap();

    let node = ctx.find_module(&uuid);
    assert!(node.is_some());
    assert_eq!(uuid, node.unwrap().uuid());

    let node = ctx.find_module(&uuid).unwrap();
    node.set_name(&mut ctx, "bar");

    let modules = ir.modules(&ctx);
    let module = modules.last().unwrap();
    assert_eq!(module.name(&ctx), "bar");
}

#[test]
fn typed_find_rejects_other_kinds() {
    let mut ctx = Context::new();
    let section = Section::new(&mut ctx, ".text");
    let uuid = section.uuid();
    assert!(ctx.find_section(&uuid).is_some());
    assert!(ctx.find_module(&uuid).is_none());
    assert!(ctx.find_ir(&uuid).is_none());
}
