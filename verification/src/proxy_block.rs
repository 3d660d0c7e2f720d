//! A placeholder for a referent external to a module.

use vstd::prelude::*;

use crate::context::Context;
use crate::ident::Uuid;

verus! {

broadcast use vstd::std_specs::hash::group_hash_axioms;

/// A proxy-block node record: it carries nothing but its identifier and
/// its attachment to a module.
#[derive(Clone, Copy)]
pub struct ProxyBlock {
    pub parent: Option<u128>,
}

impl View for ProxyBlock {
    type V = ProxyBlock;

    open spec fn view(&self) -> ProxyBlock {
        *self
    }
}

/// A handle on a proxy-block record.  Two handles are equal exactly when
/// they name the same node.
#[derive(Clone, Copy, Debug, PartialEq, Eq, Structural)]
pub struct ProxyBlockRef {
    pub uuid: Uuid,
}

impl ProxyBlock {
    /// Create a fresh, detached proxy block, register it, and hand back
    /// its handle.
    pub fn new(context: &mut Context) -> (r: ProxyBlockRef)
        requires
            old(context).wf(),
        ensures
            final(context).wf(),
            !old(context).live(r.uuid.0),
            final(context).proxy_block_nodes() == old(context).proxy_block_nodes().insert(
                r.uuid.0,
                ProxyBlock { parent: None },
            ),
            final(context).ir_nodes() == old(context).ir_nodes(),
            final(context).module_nodes() == old(context).module_nodes(),
            final(context).section_nodes() == old(context).section_nodes(),
            final(context).interval_nodes() == old(context).interval_nodes(),
            final(context).code_block_nodes() == old(context).code_block_nodes(),
            final(context).data_block_nodes() == old(context).data_block_nodes(),
            final(context).symbol_nodes() == old(context).symbol_nodes(),
    {
        let u = context.fresh_uuid();
        context.insert_proxy_block(u, ProxyBlock { parent: None });
        ProxyBlockRef { uuid: Uuid(u) }
    }
}

impl ProxyBlockRef {
    /// True when this handle names a live proxy block in `ctx`.
    pub open spec fn live(self, ctx: Context) -> bool {
        ctx.proxy_block_live(self.uuid.0)
    }

    /// The identifier of the named node.
    pub fn uuid(&self) -> (r: Uuid)
        ensures
            r == self.uuid,
    {
        self.uuid
    }
}

} // verus!
