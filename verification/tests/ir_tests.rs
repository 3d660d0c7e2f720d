use gtirb::{Addr, Context, Error, Module, IR};

#[test]
fn can_create_new_ir() {
    let mut ctx = Context::new();
    let ir = IR::new(&mut ctx);
    assert_eq!(ir.version(&ctx), 1);
    assert_eq!(ir.modules(&ctx).len(), 0);
}

#[test]
fn new_ir_is_unique() {
    let mut ctx = Context::new();
    assert_ne!(IR::new(&mut ctx), IR::new(&mut ctx));
}

#[test]
fn can_set_version() {
    let mut ctx = Context::new();
    let ir = IR::new(&mut ctx);
    ir.set_version(&mut ctx, 42);
    assert_eq!(ir.version(&ctx), 42);
}

#[test]
fn can_add_new_module() {
    let mut ctx = Context::new();
    let ir = IR::new(&mut ctx);
    let module = Module::new(&mut ctx, "dummy");
    ir.add_module(&mut ctx, &module).unwrap();

    let modules = ir.modules(&ctx);
    let module = modules.get(0);
    assert!(module.is_some());
    assert_eq!(module.unwrap().ir(&ctx).unwrap().uuid(), ir.uuid());
}

#[test]
fn can_remove_module() {
    let mut ctx = Context::new();
    let ir = IR::new(&mut ctx);

    let module = Module::new(&mut ctx, "dummy");
    let uuid = module.uuid();
    ir.add_module(&mut ctx, &module).unwrap();

    let removed = ir.remove_module(&mut ctx, uuid);
    assert_eq!(ir.modules(&ctx).len(), 0);
    // Giving up the last handle on a detached module destroys it.
    ctx.release_module(removed.unwrap());
    let node = ctx.find_module(&uuid);
    assert!(node.is_none());
}

#[test]
fn can_modify_modules() {
    let mut ctx = Context::new();
    let ir = IR::new(&mut ctx);
    let foo = Module::new(&mut ctx, "foo");
    ir.add_module(&mut ctx, &foo).unwrap();
    let bar = Module::new(&mut ctx, "bar");
    ir.add_module(&mut ctx, &bar).unwrap();
    for module in ir.modules(&ctx) {
        module.set_preferred_address(&mut ctx, Addr(1));
    }
    assert!(ir.modules(&ctx).iter().all(|m| m.preferred_address(&ctx) == Addr(1)));
}

#[test]
fn cannot_attach_twice() {
    let mut ctx = Context::new();
    let ir1 = IR::new(&mut ctx);
    let ir2 = IR::new(&mut ctx);
    let module = Module::new(&mut ctx, "dummy");
    ir1.add_module(&mut ctx, &module).unwrap();
    assert_eq!(ir2.add_module(&mut ctx, &module), Err(Error::DetachedNode));
    assert_eq!(ir2.modules(&ctx).len(), 0);
}

#[test]
fn releasing_attached_module_keeps_it() {
    let mut ctx = Context::new();
    let ir = IR::new(&mut ctx);
    let module = Module::new(&mut ctx, "dummy");
    let uuid = module.uuid();
    ir.add_module(&mut ctx, &module).unwrap();
    // An attached node is kept alive by its owner.
    ctx.release_module(module);
    assert!(ctx.find_module(&uuid).is_some());
    assert_eq!(ir.modules(&ctx).len(), 1);
}

#[test]
fn detached_module_has_no_owner() {
    let mut ctx = Context::new();
    let ir = IR::new(&mut ctx);
    let module = Module::new(&mut ctx, "dummy");
    assert_eq!(module.ir(&ctx), None);
    ir.add_module(&mut ctx, &module).unwrap();
    assert_eq!(module.ir(&ctx), Some(ir));
    ir.remove_module(&mut ctx, module.uuid());
    assert_eq!(module.ir(&ctx), None);
}

#[test]
fn releasing_root_destroys_tree() {
    let mut ctx = Context::new();
    let ir = IR::new(&mut ctx);
    let module = Module::new(&mut ctx, "dummy");
    let m_uuid = module.uuid();
    ir.add_module(&mut ctx, &module).unwrap();
    let ir_uuid = ir.uuid();
    ctx.release_ir(ir);
    assert!(ctx.find_ir(&ir_uuid).is_none());
    assert!(ctx.find_module(&m_uuid).is_none());
}
