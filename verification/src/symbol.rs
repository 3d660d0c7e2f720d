//! A named reference, optionally carrying an absolute value or a referent
//! identifier.

use vstd::prelude::*;

use crate::addr::Addr;
use crate::context::{lemma_wf_replace_symbol, Context};
use crate::ident::Uuid;

verus! {

broadcast use vstd::std_specs::hash::group_hash_axioms;

/// The payload of a symbol: either an inline absolute value or a reference
/// to another node by identifier.  The two are mutually exclusive.
#[derive(Clone, Copy, Debug, PartialEq, Eq, Structural)]
pub enum Payload {
    Value(Addr),
    Referent(Uuid),
}

/// A symbol node record.
pub struct Symbol {
    pub name: String,
    pub payload: Option<Payload>,
    pub parent: Option<u128>,
}

/// The mathematical value of one symbol record.
pub struct SymbolNodeV {
    pub name: Seq<char>,
    pub payload: Option<Payload>,
    pub parent: Option<u128>,
}

impl View for Symbol {
    type V = SymbolNodeV;

    open spec fn view(&self) -> SymbolNodeV {
        SymbolNodeV { name: self.name@, payload: self.payload, parent: self.parent }
    }
}

/// A handle on a symbol record.  Two handles are equal exactly when they
/// name the same node.
#[derive(Clone, Copy, Debug, PartialEq, Eq, Structural)]
pub struct SymbolRef {
    pub uuid: Uuid,
}

impl Symbol {
    /// Create a fresh, detached symbol with the given name and no payload,
    /// register it, and hand back its handle.
    pub fn new(context: &mut Context, name: &str) -> (r: SymbolRef)
        requires
            old(context).wf(),
        ensures
            final(context).wf(),
            !old(context).live(r.uuid.0),
            final(context).symbol_nodes() == old(context).symbol_nodes().insert(
                r.uuid.0,
                SymbolNodeV { name: name@, payload: None, parent: None },
            ),
            final(context).ir_nodes() == old(context).ir_nodes(),
            final(context).module_nodes() == old(context).module_nodes(),
            final(context).section_nodes() == old(context).section_nodes(),
            final(context).interval_nodes() == old(context).interval_nodes(),
            final(context).code_block_nodes() == old(context).code_block_nodes(),
            final(context).data_block_nodes() == old(context).data_block_nodes(),
            final(context).proxy_block_nodes() == old(context).proxy_block_nodes(),
    {
        let u = context.fresh_uuid();
        context.insert_symbol(u, Symbol { name: name.to_owned(), payload: None, parent: None });
        SymbolRef { uuid: Uuid(u) }
    }
}

impl SymbolRef {
    /// True when this handle names a live symbol in `ctx`.
    pub open spec fn live(self, ctx: Context) -> bool {
        ctx.symbol_live(self.uuid.0)
    }

    /// The node value this handle names in `ctx`.
    pub open spec fn node(self, ctx: Context) -> SymbolNodeV {
        ctx.symbol_nodes()[self.uuid.0]
    }

    /// The identifier of the named node.
    pub fn uuid(&self) -> (r: Uuid)
        ensures
            r == self.uuid,
    {
        self.uuid
    }

    /// The symbol name.
    pub fn name(&self, context: &Context) -> (r: String)
        requires
            self.live(*context),
        ensures
            r@ == self.node(*context).name,
    {
        context.symbols.get(&self.uuid.0).unwrap().name.clone()
    }

    /// Set the symbol name.
    pub fn set_name(&self, context: &mut Context, name: &str)
        requires
            old(context).wf(),
            self.live(*old(context)),
        ensures
            final(context).wf(),
            final(context).symbol_nodes() == old(context).symbol_nodes().insert(
                self.uuid.0,
                SymbolNodeV { name: name@, ..self.node(*old(context)) },
            ),
            final(context).ir_nodes() == old(context).ir_nodes(),
            final(context).module_nodes() == old(context).module_nodes(),
            final(context).section_nodes() == old(context).section_nodes(),
            final(context).interval_nodes() == old(context).interval_nodes(),
            final(context).code_block_nodes() == old(context).code_block_nodes(),
            final(context).data_block_nodes() == old(context).data_block_nodes(),
            final(context).proxy_block_nodes() == old(context).proxy_block_nodes(),
    {
        let u = self.uuid.0;
        let mut node = context.symbols.remove(&u).unwrap();
        node.name = name.to_owned();
        context.symbols.insert(u, node);
        proof {
            let c1 = *old(context);
            let c2 = *context;
            assert(c2.symbol_nodes() =~= c1.symbol_nodes().insert(u, node@));
            lemma_wf_replace_symbol(c1, c2, u, node@);
        }
    }

    /// The payload, if any: an inline value or a referent identifier.
    pub fn payload(&self, context: &Context) -> (r: Option<Payload>)
        requires
            self.live(*context),
        ensures
            r == self.node(*context).payload,
    {
        context.symbols.get(&self.uuid.0).unwrap().payload
    }

    /// Set or clear the payload.
    pub fn set_payload(&self, context: &mut Context, payload: Option<Payload>)
        requires
            old(context).wf(),
            self.live(*old(context)),
        ensures
            final(context).wf(),
            final(context).symbol_nodes() == old(context).symbol_nodes().insert(
                self.uuid.0,
                SymbolNodeV { payload: payload, ..self.node(*old(context)) },
            ),
            final(context).ir_nodes() == old(context).ir_nodes(),
            final(context).module_nodes() == old(context).module_nodes(),
            final(context).section_nodes() == old(context).section_nodes(),
            final(context).interval_nodes() == old(context).interval_nodes(),
            final(context).code_block_nodes() == old(context).code_block_nodes(),
            final(context).data_block_nodes() == old(context).data_block_nodes(),
            final(context).proxy_block_nodes() == old(context).proxy_block_nodes(),
    {
        let u = self.uuid.0;
        let mut node = context.symbols.remove(&u).unwrap();
        node.payload = payload;
        context.symbols.insert(u, node);
        proof {
            let c1 = *old(context);
            let c2 = *context;
            assert(c2.symbol_nodes() =~= c1.symbol_nodes().insert(u, node@));
            lemma_wf_replace_symbol(c1, c2, u, node@);
        }
    }
}

} // verus!
