//! A labeled span of code bytes within a byte interval.

use vstd::prelude::*;

use crate::context::{lemma_wf_replace_code_block, Context};
use crate::ident::Uuid;

verus! {

broadcast use vstd::std_specs::hash::group_hash_axioms;

/// A code-block node record: an offset within its interval, a size in
/// bytes, and a decode-mode tag.
#[derive(Clone, Copy)]
pub struct CodeBlock {
    pub offset: u64,
    pub size: u64,
    pub decode_mode: u64,
    pub parent: Option<u128>,
}

impl View for CodeBlock {
    type V = CodeBlock;

    open spec fn view(&self) -> CodeBlock {
        *self
    }
}

/// A handle on a code-block record.  Two handles are equal exactly when
/// they name the same node.
#[derive(Clone, Copy, Debug, PartialEq, Eq, Structural)]
pub struct CodeBlockRef {
    pub uuid: Uuid,
}

impl CodeBlock {
    /// Create a fresh, detached code block with zero offset, size and
    /// decode mode, register it, and hand back its handle.
    pub fn new(ctx: &mut Context) -> (r: CodeBlockRef)
        requires
            old(ctx).wf(),
        ensures
            final(ctx).wf(),
            !old(ctx).live(r.uuid.0),
            final(ctx).code_block_nodes() == old(ctx).code_block_nodes().insert(
                r.uuid.0,
                CodeBlock { offset: 0, size: 0, decode_mode: 0, parent: None },
            ),
            final(ctx).ir_nodes() == old(ctx).ir_nodes(),
            final(ctx).module_nodes() == old(ctx).module_nodes(),
            final(ctx).section_nodes() == old(ctx).section_nodes(),
            final(ctx).interval_nodes() == old(ctx).interval_nodes(),
            final(ctx).data_block_nodes() == old(ctx).data_block_nodes(),
            final(ctx).proxy_block_nodes() == old(ctx).proxy_block_nodes(),
            final(ctx).symbol_nodes() == old(ctx).symbol_nodes(),
    {
        let u = ctx.fresh_uuid();
        ctx.insert_code_block(u, CodeBlock { offset: 0, size: 0, decode_mode: 0, parent: None });
        CodeBlockRef { uuid: Uuid(u) }
    }
}

impl CodeBlockRef {
    /// True when this handle names a live code block in `ctx`.
    pub open spec fn live(self, ctx: Context) -> bool {
        ctx.code_block_live(self.uuid.0)
    }

    /// The node value this handle names in `ctx`.
    pub open spec fn node(self, ctx: Context) -> CodeBlock {
        ctx.code_block_nodes()[self.uuid.0]
    }

    /// The identifier of the named node.
    pub fn uuid(&self) -> (r: Uuid)
        ensures
            r == self.uuid,
    {
        self.uuid
    }

    /// The offset within the owning interval.
    pub fn offset(&self, context: &Context) -> (r: u64)
        requires
            self.live(*context),
        ensures
            r == self.node(*context).offset,
    {
        context.code_blocks.get(&self.uuid.0).unwrap().offset
    }

    /// Set the offset within the owning interval.
    pub fn set_offset(&self, context: &mut Context, offset: u64)
        requires
            old(context).wf(),
            self.live(*old(context)),
        ensures
            final(context).wf(),
            final(context).code_block_nodes() == old(context).code_block_nodes().insert(
                self.uuid.0,
                CodeBlock { offset: offset, ..self.node(*old(context)) },
            ),
            final(context).ir_nodes() == old(context).ir_nodes(),
            final(context).module_nodes() == old(context).module_nodes(),
            final(context).section_nodes() == old(context).section_nodes(),
            final(context).interval_nodes() == old(context).interval_nodes(),
            final(context).data_block_nodes() == old(context).data_block_nodes(),
            final(context).proxy_block_nodes() == old(context).proxy_block_nodes(),
            final(context).symbol_nodes() == old(context).symbol_nodes(),
    {
        let u = self.uuid.0;
        let mut node = context.code_blocks.remove(&u).unwrap();
        node.offset = offset;
        context.code_blocks.insert(u, node);
        proof {
            let c1 = *old(context);
            let c2 = *context;
            assert(c2.code_block_nodes() =~= c1.code_block_nodes().insert(u, node));
            lemma_wf_replace_code_block(c1, c2, u, node);
        }
    }

    /// The size in bytes.
    pub fn size(&self, context: &Context) -> (r: u64)
        requires
            self.live(*context),
        ensures
            r == self.node(*context).size,
    {
        context.code_blocks.get(&self.uuid.0).unwrap().size
    }

    /// Set the size in bytes.
    pub fn set_size(&self, context: &mut Context, size: u64)
        requires
            old(context).wf(),
            self.live(*old(context)),
        ensures
            final(context).wf(),
            final(context).code_block_nodes() == old(context).code_block_nodes().insert(
                self.uuid.0,
                CodeBlock { size: size, ..self.node(*old(context)) },
            ),
            final(context).ir_nodes() == old(context).ir_nodes(),
            final(context).module_nodes() == old(context).module_nodes(),
            final(context).section_nodes() == old(context).section_nodes(),
            final(context).interval_nodes() == old(context).interval_nodes(),
            final(context).data_block_nodes() == old(context).data_block_nodes(),
            final(context).proxy_block_nodes() == old(context).proxy_block_nodes(),
            final(context).symbol_nodes() == old(context).symbol_nodes(),
    {
        let u = self.uuid.0;
        let mut node = context.code_blocks.remove(&u).unwrap();
        node.size = size;
        context.code_blocks.insert(u, node);
        proof {
            let c1 = *old(context);
            let c2 = *context;
            assert(c2.code_block_nodes() =~= c1.code_block_nodes().insert(u, node));
            lemma_wf_replace_code_block(c1, c2, u, node);
        }
    }

    /// The decode-mode tag.
    pub fn decode_mode(&self, context: &Context) -> (r: u64)
        requires
            self.live(*context),
        ensures
            r == self.node(*context).decode_mode,
    {
        context.code_blocks.get(&self.uuid.0).unwrap().decode_mode
    }

    /// Set the decode-mode tag.
    pub fn set_decode_mode(&self, context: &mut Context, decode_mode: u64)
        requires
            old(context).wf(),
            self.live(*old(context)),
        ensures
            final(context).wf(),
            final(context).code_block_nodes() == old(context).code_block_nodes().insert(
                self.uuid.0,
                CodeBlock { decode_mode: decode_mode, ..self.node(*old(context)) },
            ),
            final(context).ir_nodes() == old(context).ir_nodes(),
            final(context).module_nodes() == old(context).module_nodes(),
            final(context).section_nodes() == old(context).section_nodes(),
            final(context).interval_nodes() == old(context).interval_nodes(),
            final(context).data_block_nodes() == old(context).data_block_nodes(),
            final(context).proxy_block_nodes() == old(context).proxy_block_nodes(),
            final(context).symbol_nodes() == old(context).symbol_nodes(),
    {
        let u = self.uuid.0;
        let mut node = context.code_blocks.remove(&u).unwrap();
        node.decode_mode = decode_mode;
        context.code_blocks.insert(u, node);
        proof {
            let c1 = *old(context);
            let c2 = *context;
            assert(c2.code_block_nodes() =~= c1.code_block_nodes().insert(u, node));
            lemma_wf_replace_code_block(c1, c2, u, node);
        }
    }
}

} // verus!
