//! A labeled span of data bytes within a byte interval.

use vstd::prelude::*;

use crate::context::{lemma_wf_replace_data_block, Context};
use crate::ident::Uuid;

verus! {

broadcast use vstd::std_specs::hash::group_hash_axioms;

/// A data-block node record: an offset within its interval and a size in
/// bytes.
#[derive(Clone, Copy)]
pub struct DataBlock {
    pub offset: u64,
    pub size: u64,
    pub parent: Option<u128>,
}

impl View for DataBlock {
    type V = DataBlock;

    open spec fn view(&self) -> DataBlock {
        *self
    }
}

/// A handle on a data-block record.  Two handles are equal exactly when
/// they name the same node.
#[derive(Clone, Copy, Debug, PartialEq, Eq, Structural)]
pub struct DataBlockRef {
    pub uuid: Uuid,
}

impl DataBlock {
    /// Create a fresh, detached data block with zero offset and size,
    /// register it, and hand back its handle.
    pub fn new(ctx: &mut Context) -> (r: DataBlockRef)
        requires
            old(ctx).wf(),
        ensures
            final(ctx).wf(),
            !old(ctx).live(r.uuid.0),
            final(ctx).data_block_nodes() == old(ctx).data_block_nodes().insert(
                r.uuid.0,
                DataBlock { offset: 0, size: 0, parent: None },
            ),
            final(ctx).ir_nodes() == old(ctx).ir_nodes(),
            final(ctx).module_nodes() == old(ctx).module_nodes(),
            final(ctx).section_nodes() == old(ctx).section_nodes(),
            final(ctx).interval_nodes() == old(ctx).interval_nodes(),
            final(ctx).code_block_nodes() == old(ctx).code_block_nodes(),
            final(ctx).proxy_block_nodes() == old(ctx).proxy_block_nodes(),
            final(ctx).symbol_nodes() == old(ctx).symbol_nodes(),
    {
        let u = ctx.fresh_uuid();
        ctx.insert_data_block(u, DataBlock { offset: 0, size: 0, parent: None });
        DataBlockRef { uuid: Uuid(u) }
    }
}

impl DataBlockRef {
    /// True when this handle names a live data block in `ctx`.
    pub open spec fn live(self, ctx: Context) -> bool {
        ctx.data_block_live(self.uuid.0)
    }

    /// The node value this handle names in `ctx`.
    pub open spec fn node(self, ctx: Context) -> DataBlock {
        ctx.data_block_nodes()[self.uuid.0]
    }

    /// The identifier of the named node.
    pub fn uuid(&self) -> (r: Uuid)
        ensures
            r == self.uuid,
    {
        self.uuid
    }

    /// The offset within the owning interval.
    pub fn offset(&self, context: &Context) -> (r: u64)
        requires
            self.live(*context),
        ensures
            r == self.node(*context).offset,
    {
        context.data_blocks.get(&self.uuid.0).unwrap().offset
    }

    /// Set the offset within the owning interval.
    pub fn set_offset(&self, context: &mut Context, offset: u64)
        requires
            old(context).wf(),
            self.live(*old(context)),
        ensures
            final(context).wf(),
            final(context).data_block_nodes() == old(context).data_block_nodes().insert(
                self.uuid.0,
                DataBlock { offset: offset, ..self.node(*old(context)) },
            ),
            final(context).ir_nodes() == old(context).ir_nodes(),
            final(context).module_nodes() == old(context).module_nodes(),
            final(context).section_nodes() == old(context).section_nodes(),
            final(context).interval_nodes() == old(context).interval_nodes(),
            final(context).code_block_nodes() == old(context).code_block_nodes(),
            final(context).proxy_block_nodes() == old(context).proxy_block_nodes(),
            final(context).symbol_nodes() == old(context).symbol_nodes(),
    {
        let u = self.uuid.0;
        let mut node = context.data_blocks.remove(&u).unwrap();
        node.offset = offset;
        context.data_blocks.insert(u, node);
        proof {
            let c1 = *old(context);
            let c2 = *context;
            assert(c2.data_block_nodes() =~= c1.data_block_nodes().insert(u, node));
            lemma_wf_replace_data_block(c1, c2, u, node);
        }
    }

    /// The size in bytes.
    pub fn size(&self, context: &Context) -> (r: u64)
        requires
            self.live(*context),
        ensures
            r == self.node(*context).size,
    {
        context.data_blocks.get(&self.uuid.0).unwrap().size
    }

    /// Set the size in bytes.
    pub fn set_size(&self, context: &mut Context, size: u64)
        requires
            old(context).wf(),
            self.live(*old(context)),
        ensures
            final(context).wf(),
            final(context).data_block_nodes() == old(context).data_block_nodes().insert(
                self.uuid.0,
                DataBlock { size: size, ..self.node(*old(context)) },
            ),
            final(context).ir_nodes() == old(context).ir_nodes(),
            final(context).module_nodes() == old(context).module_nodes(),
            final(context).section_nodes() == old(context).section_nodes(),
            final(context).interval_nodes() == old(context).interval_nodes(),
            final(context).code_block_nodes() == old(context).code_block_nodes(),
            final(context).proxy_block_nodes() == old(context).proxy_block_nodes(),
            final(context).symbol_nodes() == old(context).symbol_nodes(),
    {
        let u = self.uuid.0;
        let mut node = context.data_blocks.remove(&u).unwrap();
        node.size = size;
        context.data_blocks.insert(u, node);
        proof {
            let c1 = *old(context);
            let c2 = *context;
            assert(c2.data_block_nodes() =~= c1.data_block_nodes().insert(u, node));
            lemma_wf_replace_data_block(c1, c2, u, node);
        }
    }
}

} // verus!
