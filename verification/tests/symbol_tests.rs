use gtirb::{Addr, Context, Module, Payload, Symbol, IR};

#[test]
fn symbol_payload_round_trip() {
    let mut ctx = Context::new();
    let ir = IR::new(&mut ctx);
    let module = Module::new(&mut ctx, "m");
    ir.add_module(&mut ctx, &module).unwrap();
    let symbol = Symbol::new(&mut ctx, "sym");
    module.add_symbol(&mut ctx, &symbol).unwrap();
    assert_eq!(symbol.name(&ctx), "sym");
    assert_eq!(symbol.payload(&ctx), None);

    symbol.set_payload(&mut ctx, Some(Payload::Value(Addr(0x10))));
    assert_eq!(symbol.payload(&ctx), Some(Payload::Value(Addr(0x10))));

    symbol.set_name(&mut ctx, "other");
    assert_eq!(symbol.name(&ctx), "other");

    let removed = module.remove_symbol(&mut ctx, symbol.uuid()).unwrap();
    assert_eq!(module.symbols(&ctx).len(), 0);
    let uuid = removed.uuid();
    ctx.release_symbol(removed);
    assert!(ctx.find_symbol(&uuid).is_none());
}
