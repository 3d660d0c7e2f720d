use gtirb::{Addr, ByteInterval, CodeBlock, Context, Module, Section, Uuid, IR};

#[test]
fn byte_interval_can_set_attributes() {
    let mut ctx = Context::new();
    let ir = IR::new(&mut ctx);
    let module = Module::new(&mut ctx, "dummy");
    ir.add_module(&mut ctx, &module).unwrap();
    let section = Section::new(&mut ctx, ".dummy");
    module.add_section(&mut ctx, &section).unwrap();
    let interval = ByteInterval::new(&mut ctx);
    section.add_byte_interval(&mut ctx, &interval).unwrap();
    interval.set_size(&mut ctx, 0xDEAD);
    interval.set_address(&mut ctx, Some(Addr(0xBEEF)));
    assert_eq!(interval.size(&ctx), 0xDEAD);
    assert_eq!(interval.address(&ctx), Some(Addr(0xBEEF)));
}

#[test]
fn can_iterate_code_blocks() {
    let mut ctx = Context::new();
    let bi = ByteInterval::new(&mut ctx);
    let cb1 = CodeBlock::new(&mut ctx);
    let uuid1 = cb1.uuid();
    let cb2 = CodeBlock::new(&mut ctx);
    let uuid2 = cb2.uuid();
    bi.add_code_block(&mut ctx, &cb1).unwrap();
    bi.add_code_block(&mut ctx, &cb2).unwrap();
    assert_eq!(
        bi.code_blocks(&ctx).iter().map(|x| x.uuid()).collect::<Vec<Uuid>>(),
        vec![uuid1, uuid2]
    );
}

#[test]
fn initialized_size_stays_within_size() {
    let mut ctx = Context::new();
    let bi = ByteInterval::new(&mut ctx);
    bi.set_bytes(&mut ctx, &[1, 2, 3, 4]);
    assert_eq!(bi.size(&ctx), 4);
    assert_eq!(bi.initialized_size(&ctx), 4);

    bi.set_initialized_size(&mut ctx, 8);
    assert_eq!(bi.initialized_size(&ctx), 8);
    assert!(bi.size(&ctx) >= 8);
    assert_eq!(bi.bytes(&ctx), vec![1, 2, 3, 4, 0, 0, 0, 0]);

    bi.set_initialized_size(&mut ctx, 2);
    assert_eq!(bi.initialized_size(&ctx), 2);
    assert_eq!(bi.bytes(&ctx), vec![1, 2]);
    assert!(bi.initialized_size(&ctx) <= bi.size(&ctx));

    bi.set_size(&mut ctx, 1);
    assert_eq!(bi.bytes(&ctx), vec![1]);
    assert!(bi.initialized_size(&ctx) <= bi.size(&ctx));
}

#[test]
fn releasing_detached_interval_removes_blocks() {
    let mut ctx = Context::new();
    let bi = ByteInterval::new(&mut ctx);
    let cb = CodeBlock::new(&mut ctx);
    let cb_uuid = cb.uuid();
    bi.add_code_block(&mut ctx, &cb).unwrap();
    let bi_uuid = bi.uuid();
    ctx.release_byte_interval(bi);
    assert!(ctx.find_byte_interval(&bi_uuid).is_none());
    assert!(ctx.find_code_block(&cb_uuid).is_none());
}

#[test]
fn can_manage_data_blocks() {
    let mut ctx = Context::new();
    let bi = ByteInterval::new(&mut ctx);
    let db = gtirb::DataBlock::new(&mut ctx);
    db.set_offset(&mut ctx, 4);
    db.set_size(&mut ctx, 2);
    bi.add_data_block(&mut ctx, &db).unwrap();
    assert_eq!(bi.data_blocks(&ctx).len(), 1);
    assert_eq!(db.offset(&ctx), 4);
    assert_eq!(db.size(&ctx), 2);
    let removed = bi.remove_data_block(&mut ctx, db.uuid()).unwrap();
    assert_eq!(bi.data_blocks(&ctx).len(), 0);
    let uuid = removed.uuid();
    ctx.release_data_block(removed);
    assert!(ctx.find_data_block(&uuid).is_none());
}
