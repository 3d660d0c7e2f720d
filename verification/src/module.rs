//! One analyzed binary image within a tree: scalar attributes plus owned
//! sections, symbols and proxy blocks.

use vstd::prelude::*;

use crate::addr::Addr;
use crate::aux_data::{aux_view, AuxEntry, AuxEntryV};
use crate::context::{
    lemma_wf_attach_proxy_block, lemma_wf_attach_section, lemma_wf_attach_symbol,
    lemma_wf_detach_proxy_block, lemma_wf_detach_section, lemma_wf_detach_symbol,
    lemma_wf_replace_module, Context,
};
use crate::error::Error;
use crate::ident::Uuid;
use crate::ir::IRRef;
use crate::byte_interval::ByteIntervalRef;
use crate::proxy_block::{ProxyBlock, ProxyBlockRef};
use crate::section::{
    span_of, spec_span_address, spec_span_size, SectionNodeV, SectionRef,
};
use crate::symbol::{SymbolNodeV, SymbolRef};
use crate::tags::{ByteOrder, FileFormat, ISA};

verus! {

broadcast use vstd::std_specs::hash::group_hash_axioms;

/// A module node record.  The child lists hold identifiers of owned nodes
/// in insertion order; `parent` names the owning root record, if attached.
pub struct Module {
    pub name: String,
    pub binary_path: String,
    pub entry_point: Option<u128>,
    pub byte_order: ByteOrder,
    pub isa: ISA,
    pub rebase_delta: i64,
    pub preferred_address: Addr,
    pub file_format: FileFormat,
    pub sections: Vec<u128>,
    pub symbols: Vec<u128>,
    pub proxy_blocks: Vec<u128>,
    pub aux_data: Vec<AuxEntry>,
    pub parent: Option<u128>,
}

/// The mathematical value of one module record.
pub struct ModuleNodeV {
    pub name: Seq<char>,
    pub binary_path: Seq<char>,
    pub entry_point: Option<u128>,
    pub byte_order: ByteOrder,
    pub isa: ISA,
    pub rebase_delta: i64,
    pub preferred_address: Addr,
    pub file_format: FileFormat,
    pub sections: Seq<u128>,
    pub symbols: Seq<u128>,
    pub proxy_blocks: Seq<u128>,
    pub aux_data: Seq<AuxEntryV>,
    pub parent: Option<u128>,
}

impl View for Module {
    type V = ModuleNodeV;

    open spec fn view(&self) -> ModuleNodeV {
        ModuleNodeV {
            name: self.name@,
            binary_path: self.binary_path@,
            entry_point: self.entry_point,
            byte_order: self.byte_order,
            isa: self.isa,
            rebase_delta: self.rebase_delta,
            preferred_address: self.preferred_address,
            file_format: self.file_format,
            sections: self.sections@,
            symbols: self.symbols@,
            proxy_blocks: self.proxy_blocks@,
            aux_data: aux_view(self.aux_data@),
            parent: self.parent,
        }
    }
}

/// The value of a freshly created module with the given name: every other
/// attribute at its default, detached, childless.
pub open spec fn fresh_module_node(name: Seq<char>) -> ModuleNodeV {
    ModuleNodeV {
        name: name,
        binary_path: Seq::empty(),
        entry_point: None,
        byte_order: ByteOrder::Undefined,
        isa: ISA::Undefined,
        rebase_delta: 0,
        preferred_address: Addr(0),
        file_format: FileFormat::FormatUndefined,
        sections: Seq::empty(),
        symbols: Seq::empty(),
        proxy_blocks: Seq::empty(),
        aux_data: Seq::empty(),
        parent: None,
    }
}

/// A handle on a module record.  Two handles are equal exactly when they
/// name the same node.
#[derive(Clone, Copy, Debug, PartialEq, Eq, Structural)]
pub struct ModuleRef {
    pub uuid: Uuid,
}

/// The byte intervals of the listed sections, concatenated in section
/// order, each section's intervals in insertion order.
pub open spec fn spec_module_intervals(ctx: Context, sections: Seq<u128>) -> Seq<u128>
    decreases sections.len(),
{
    if sections.len() == 0 {
        Seq::empty()
    } else {
        spec_module_intervals(ctx, sections.drop_last()) + ctx.section_nodes()[
            sections.last()
        ].byte_intervals
    }
}

impl Module {
    /// Create a fresh, detached module with the given name and default
    /// attributes, register it, and hand back its handle.
    pub fn new(context: &mut Context, name: &str) -> (r: ModuleRef)
        requires
            old(context).wf(),
        ensures
            final(context).wf(),
            !old(context).live(r.uuid.0),
            final(context).module_nodes() == old(context).module_nodes().insert(
                r.uuid.0,
                fresh_module_node(name@),
            ),
            final(context).ir_nodes() == old(context).ir_nodes(),
            final(context).section_nodes() == old(context).section_nodes(),
            final(context).interval_nodes() == old(context).interval_nodes(),
            final(context).code_block_nodes() == old(context).code_block_nodes(),
            final(context).data_block_nodes() == old(context).data_block_nodes(),
            final(context).proxy_block_nodes() == old(context).proxy_block_nodes(),
            final(context).symbol_nodes() == old(context).symbol_nodes(),
    {
        let u = context.fresh_uuid();
        let node = Module {
            name: name.to_owned(),
            binary_path: String::new(),
            entry_point: None,
            byte_order: ByteOrder::Undefined,
            isa: ISA::Undefined,
            rebase_delta: 0,
            preferred_address: Addr(0),
            file_format: FileFormat::FormatUndefined,
            sections: Vec::new(),
            symbols: Vec::new(),
            proxy_blocks: Vec::new(),
            aux_data: Vec::new(),
            parent: None,
        };
        proof {
            assert(node@.sections =~= Seq::<u128>::empty());
            assert(node@.symbols =~= Seq::<u128>::empty());
            assert(node@.proxy_blocks =~= Seq::<u128>::empty());
            assert(node@.aux_data =~= Seq::<AuxEntryV>::empty());
            assert(node@ == fresh_module_node(name@));
        }
        context.insert_module(u, node);
        ModuleRef { uuid: Uuid(u) }
    }
}

impl ModuleRef {
    /// True when this handle names a live module in `ctx`.
    pub open spec fn live(self, ctx: Context) -> bool {
        ctx.module_live(self.uuid.0)
    }

    /// The node value this handle names in `ctx`.
    pub open spec fn node(self, ctx: Context) -> ModuleNodeV {
        ctx.module_nodes()[self.uuid.0]
    }

    /// The identifier of the named node.
    pub fn uuid(&self) -> (r: Uuid)
        ensures
            r == self.uuid,
    {
        self.uuid
    }

    /// The human-readable name.
    pub fn name(&self, context: &Context) -> (r: String)
        requires
            self.live(*context),
        ensures
            r@ == self.node(*context).name,
    {
        context.modules.get(&self.uuid.0).unwrap().name.clone()
    }

    /// Set the human-readable name.
    pub fn set_name(&self, context: &mut Context, name: &str)
        requires
            old(context).wf(),
            self.live(*old(context)),
        ensures
            final(context).wf(),
            final(context).module_nodes() == old(context).module_nodes().insert(
                self.uuid.0,
                ModuleNodeV { name: name@, ..self.node(*old(context)) },
            ),
            final(context).ir_nodes() == old(context).ir_nodes(),
            final(context).section_nodes() == old(context).section_nodes(),
            final(context).interval_nodes() == old(context).interval_nodes(),
            final(context).code_block_nodes() == old(context).code_block_nodes(),
            final(context).data_block_nodes() == old(context).data_block_nodes(),
            final(context).proxy_block_nodes() == old(context).proxy_block_nodes(),
            final(context).symbol_nodes() == old(context).symbol_nodes(),
    {
        let u = self.uuid.0;
        let mut node = context.modules.remove(&u).unwrap();
        node.name = name.to_owned();
        context.modules.insert(u, node);
        proof {
            let c1 = *old(context);
            let c2 = *context;
            assert(c2.module_nodes() =~= c1.module_nodes().insert(u, node@));
            lemma_wf_replace_module(c1, c2, u, node@);
        }
    }

    /// The path of the binary image this module was loaded from.
    pub fn binary_path(&self, context: &Context) -> (r: String)
        requires
            self.live(*context),
        ensures
            r@ == self.node(*context).binary_path,
    {
        context.modules.get(&self.uuid.0).unwrap().binary_path.clone()
    }

    /// Set the binary path.
    pub fn set_binary_path(&self, context: &mut Context, path: &str)
        requires
            old(context).wf(),
            self.live(*old(context)),
        ensures
            final(context).wf(),
            final(context).module_nodes() == old(context).module_nodes().insert(
                self.uuid.0,
                ModuleNodeV { binary_path: path@, ..self.node(*old(context)) },
            ),
            final(context).ir_nodes() == old(context).ir_nodes(),
            final(context).section_nodes() == old(context).section_nodes(),
            final(context).interval_nodes() == old(context).interval_nodes(),
            final(context).code_block_nodes() == old(context).code_block_nodes(),
            final(context).data_block_nodes() == old(context).data_block_nodes(),
            final(context).proxy_block_nodes() == old(context).proxy_block_nodes(),
            final(context).symbol_nodes() == old(context).symbol_nodes(),
    {
        let u = self.uuid.0;
        let mut node = context.modules.remove(&u).unwrap();
        node.binary_path = path.to_owned();
        context.modules.insert(u, node);
        proof {
            let c1 = *old(context);
            let c2 = *context;
            assert(c2.module_nodes() =~= c1.module_nodes().insert(u, node@));
            lemma_wf_replace_module(c1, c2, u, node@);
        }
    }

    /// The file-format tag.
    pub fn file_format(&self, context: &Context) -> (r: FileFormat)
        requires
            self.live(*context),
        ensures
            r == self.node(*context).file_format,
    {
        context.modules.get(&self.uuid.0).unwrap().file_format
    }

    /// Set the file-format tag.
    pub fn set_file_format(&self, context: &mut Context, file_format: FileFormat)
        requires
            old(context).wf(),
            self.live(*old(context)),
        ensures
            final(context).wf(),
            final(context).module_nodes() == old(context).module_nodes().insert(
                self.uuid.0,
                ModuleNodeV { file_format: file_format, ..self.node(*old(context)) },
            ),
            final(context).ir_nodes() == old(context).ir_nodes(),
            final(context).section_nodes() == old(context).section_nodes(),
            final(context).interval_nodes() == old(context).interval_nodes(),
            final(context).code_block_nodes() == old(context).code_block_nodes(),
            final(context).data_block_nodes() == old(context).data_block_nodes(),
            final(context).proxy_block_nodes() == old(context).proxy_block_nodes(),
            final(context).symbol_nodes() == old(context).symbol_nodes(),
    {
        let u = self.uuid.0;
        let mut node = context.modules.remove(&u).unwrap();
        node.file_format = file_format;
        context.modules.insert(u, node);
        proof {
            let c1 = *old(context);
            let c2 = *context;
            assert(c2.module_nodes() =~= c1.module_nodes().insert(u, node@));
            lemma_wf_replace_module(c1, c2, u, node@);
        }
    }

    /// The instruction-set-architecture tag.
    pub fn isa(&self, context: &Context) -> (r: ISA)
        requires
            self.live(*context),
        ensures
            r == self.node(*context).isa,
    {
        context.modules.get(&self.uuid.0).unwrap().isa
    }

    /// Set the instruction-set-architecture tag.
    pub fn set_isa(&self, context: &mut Context, isa: ISA)
        requires
            old(context).wf(),
            self.live(*old(context)),
        ensures
            final(context).wf(),
            final(context).module_nodes() == old(context).module_nodes().insert(
                self.uuid.0,
                ModuleNodeV { isa: isa, ..self.node(*old(context)) },
            ),
            final(context).ir_nodes() == old(context).ir_nodes(),
            final(context).section_nodes() == old(context).section_nodes(),
            final(context).interval_nodes() == old(context).interval_nodes(),
            final(context).code_block_nodes() == old(context).code_block_nodes(),
            final(context).data_block_nodes() == old(context).data_block_nodes(),
            final(context).proxy_block_nodes() == old(context).proxy_block_nodes(),
            final(context).symbol_nodes() == old(context).symbol_nodes(),
    {
        let u = self.uuid.0;
        let mut node = context.modules.remove(&u).unwrap();
        node.isa = isa;
        context.modules.insert(u, node);
        proof {
            let c1 = *old(context);
            let c2 = *context;
            assert(c2.module_nodes() =~= c1.module_nodes().insert(u, node@));
            lemma_wf_replace_module(c1, c2, u, node@);
        }
    }

    /// The byte-order tag.
    pub fn byte_order(&self, context: &Context) -> (r: ByteOrder)
        requires
            self.live(*context),
        ensures
            r == self.node(*context).byte_order,
    {
        context.modules.get(&self.uuid.0).unwrap().byte_order
    }

    /// Set the byte-order tag.
    pub fn set_byte_order(&self, context: &mut Context, byte_order: ByteOrder)
        requires
            old(context).wf(),
            self.live(*old(context)),
        ensures
            final(context).wf(),
            final(context).module_nodes() == old(context).module_nodes().insert(
                self.uuid.0,
                ModuleNodeV { byte_order: byte_order, ..self.node(*old(context)) },
            ),
            final(context).ir_nodes() == old(context).ir_nodes(),
            final(context).section_nodes() == old(context).section_nodes(),
            final(context).interval_nodes() == old(context).interval_nodes(),
            final(context).code_block_nodes() == old(context).code_block_nodes(),
            final(context).data_block_nodes() == old(context).data_block_nodes(),
            final(context).proxy_block_nodes() == old(context).proxy_block_nodes(),
            final(context).symbol_nodes() == old(context).symbol_nodes(),
    {
        let u = self.uuid.0;
        let mut node = context.modules.remove(&u).unwrap();
        node.byte_order = byte_order;
        context.modules.insert(u, node);
        proof {
            let c1 = *old(context);
            let c2 = *context;
            assert(c2.module_nodes() =~= c1.module_nodes().insert(u, node@));
            lemma_wf_replace_module(c1, c2, u, node@);
        }
    }

    /// The preferred load address.
    pub fn preferred_address(&self, context: &Context) -> (r: Addr)
        requires
            self.live(*context),
        ensures
            r == self.node(*context).preferred_address,
    {
        context.modules.get(&self.uuid.0).unwrap().preferred_address
    }

    /// Set the preferred load address.
    pub fn set_preferred_address(&self, context: &mut Context, address: Addr)
        requires
            old(context).wf(),
            self.live(*old(context)),
        ensures
            final(context).wf(),
            final(context).module_nodes() == old(context).module_nodes().insert(
                self.uuid.0,
                ModuleNodeV { preferred_address: address, ..self.node(*old(context)) },
            ),
            final(context).ir_nodes() == old(context).ir_nodes(),
            final(context).section_nodes() == old(context).section_nodes(),
            final(context).interval_nodes() == old(context).interval_nodes(),
            final(context).code_block_nodes() == old(context).code_block_nodes(),
            final(context).data_block_nodes() == old(context).data_block_nodes(),
            final(context).proxy_block_nodes() == old(context).proxy_block_nodes(),
            final(context).symbol_nodes() == old(context).symbol_nodes(),
    {
        let u = self.uuid.0;
        let mut node = context.modules.remove(&u).unwrap();
        node.preferred_address = address;
        context.modules.insert(u, node);
        proof {
            let c1 = *old(context);
            let c2 = *context;
            assert(c2.module_nodes() =~= c1.module_nodes().insert(u, node@));
            lemma_wf_replace_module(c1, c2, u, node@);
        }
    }

    /// The rebase delta.
    pub fn rebase_delta(&self, context: &Context) -> (r: i64)
        requires
            self.live(*context),
        ensures
            r == self.node(*context).rebase_delta,
    {
        context.modules.get(&self.uuid.0).unwrap().rebase_delta
    }

    /// Set the rebase delta.
    pub fn set_rebase_delta(&self, context: &mut Context, rebase_delta: i64)
        requires
            old(context).wf(),
            self.live(*old(context)),
        ensures
            final(context).wf(),
            final(context).module_nodes() == old(context).module_nodes().insert(
                self.uuid.0,
                ModuleNodeV { rebase_delta: rebase_delta, ..self.node(*old(context)) },
            ),
            final(context).ir_nodes() == old(context).ir_nodes(),
            final(context).section_nodes() == old(context).section_nodes(),
            final(context).interval_nodes() == old(context).interval_nodes(),
            final(context).code_block_nodes() == old(context).code_block_nodes(),
            final(context).data_block_nodes() == old(context).data_block_nodes(),
            final(context).proxy_block_nodes() == old(context).proxy_block_nodes(),
            final(context).symbol_nodes() == old(context).symbol_nodes(),
    {
        let u = self.uuid.0;
        let mut node = context.modules.remove(&u).unwrap();
        node.rebase_delta = rebase_delta;
        context.modules.insert(u, node);
        proof {
            let c1 = *old(context);
            let c2 = *context;
            assert(c2.module_nodes() =~= c1.module_nodes().insert(u, node@));
            lemma_wf_replace_module(c1, c2, u, node@);
        }
    }

    /// True exactly when the rebase delta is non-zero.
    pub fn is_relocated(&self, context: &Context) -> (r: bool)
        requires
            self.live(*context),
        ensures
            r == (self.node(*context).rebase_delta != 0),
    {
        context.modules.get(&self.uuid.0).unwrap().rebase_delta != 0
    }

    /// The identifier of the entry-point code block, if one is set.
    pub fn entry_point(&self, context: &Context) -> (r: Option<Uuid>)
        requires
            self.live(*context),
        ensures
            r == match self.node(*context).entry_point {
                Some(u) => Some(Uuid(u)),
                None => None::<Uuid>,
            },
    {
        match context.modules.get(&self.uuid.0).unwrap().entry_point {
            Some(u) => Some(Uuid(u)),
            None => None,
        }
    }

    /// Set or clear the entry-point referent.
    pub fn set_entry_point(&self, context: &mut Context, entry: Option<Uuid>)
        requires
            old(context).wf(),
            self.live(*old(context)),
        ensures
            final(context).wf(),
            final(context).module_nodes() == old(context).module_nodes().insert(
                self.uuid.0,
                ModuleNodeV {
                    entry_point: match entry {
                        Some(u) => Some(u.0),
                        None => None,
                    },
                    ..self.node(*old(context))
                },
            ),
            final(context).ir_nodes() == old(context).ir_nodes(),
            final(context).section_nodes() == old(context).section_nodes(),
            final(context).interval_nodes() == old(context).interval_nodes(),
            final(context).code_block_nodes() == old(context).code_block_nodes(),
            final(context).data_block_nodes() == old(context).data_block_nodes(),
            final(context).proxy_block_nodes() == old(context).proxy_block_nodes(),
            final(context).symbol_nodes() == old(context).symbol_nodes(),
    {
        let u = self.uuid.0;
        let mut node = context.modules.remove(&u).unwrap();
        node.entry_point = match entry {
            Some(e) => Some(e.0),
            None => None,
        };
        context.modules.insert(u, node);
        proof {
            let c1 = *old(context);
            let c2 = *context;
            assert(c2.module_nodes() =~= c1.module_nodes().insert(u, node@));
            lemma_wf_replace_module(c1, c2, u, node@);
        }
    }

    /// The handle of the owning root record, or `None` when detached.
    pub fn ir(&self, context: &Context) -> (r: Option<IRRef>)
        requires
            self.live(*context),
        ensures
            r == match self.node(*context).parent {
                Some(p) => Some(IRRef { uuid: Uuid(p) }),
                None => None::<IRRef>,
            },
    {
        match context.modules.get(&self.uuid.0).unwrap().parent {
            Some(p) => Some(IRRef { uuid: Uuid(p) }),
            None => None,
        }
    }

    /// The handles of this module's symbols, in insertion order.
    pub fn symbols(&self, context: &Context) -> (r: Vec<SymbolRef>)
        requires
            self.live(*context),
        ensures
            r@.len() == self.node(*context).symbols.len(),
            forall|i: int|
                0 <= i < r@.len() ==> r@[i] == (SymbolRef {
                    uuid: Uuid(self.node(*context).symbols[i]),
                }),
    {
        let node = context.modules.get(&self.uuid.0).unwrap();
        let n = node.symbols.len();
        let mut out: Vec<SymbolRef> = Vec::new();
        let mut k: usize = 0;
        while k < n
            invariant
                k <= n,
                n == node.symbols@.len(),
                node.symbols@ == self.node(*context).symbols,
                out@.len() == k,
                forall|i: int|
                    0 <= i < k ==> out@[i] == (SymbolRef {
                        uuid: Uuid(self.node(*context).symbols[i]),
                    }),
            decreases n - k,
        {
            out.push(SymbolRef { uuid: Uuid(node.symbols[k]) });
            k = k + 1;
        }
        out
    }

    /// Append a detached symbol to this module and point its up-reference
    /// here.  Fails with [`Error::DetachedNode`] when the symbol is already
    /// attached.
    pub fn add_symbol(&self, context: &mut Context, symbol: &SymbolRef) -> (r: Result<(), Error>)
        requires
            old(context).wf(),
            self.live(*old(context)),
            symbol.live(*old(context)),
        ensures
            final(context).wf(),
            match r {
                Ok(()) => {
                    &&& old(context).symbol_nodes()[symbol.uuid.0].parent == None::<u128>
                    &&& final(context).module_nodes() == old(context).module_nodes().insert(
                        self.uuid.0,
                        ModuleNodeV {
                            symbols: self.node(*old(context)).symbols.push(symbol.uuid.0),
                            ..self.node(*old(context))
                        },
                    )
                    &&& final(context).symbol_nodes() == old(context).symbol_nodes().insert(
                        symbol.uuid.0,
                        SymbolNodeV {
                            parent: Some(self.uuid.0),
                            ..old(context).symbol_nodes()[symbol.uuid.0]
                        },
                    )
                    &&& final(context).ir_nodes() == old(context).ir_nodes()
                    &&& final(context).section_nodes() == old(context).section_nodes()
                    &&& final(context).interval_nodes() == old(context).interval_nodes()
                    &&& final(context).code_block_nodes() == old(context).code_block_nodes()
                    &&& final(context).data_block_nodes() == old(context).data_block_nodes()
                    &&& final(context).proxy_block_nodes() == old(context).proxy_block_nodes()
                },
                Err(e) => {
                    &&& e == Error::DetachedNode
                    &&& old(context).symbol_nodes()[symbol.uuid.0].parent is Some
                    &&& *final(context) == *old(context)
                },
            },
    {
        let su = symbol.uuid.0;
        if context.symbols.get(&su).unwrap().parent.is_some() {
            return Err(Error::DetachedNode);
        }
        let mut snode = context.symbols.remove(&su).unwrap();
        snode.parent = Some(self.uuid.0);
        context.symbols.insert(su, snode);
        let mut mnode = context.modules.remove(&self.uuid.0).unwrap();
        mnode.symbols.push(su);
        context.modules.insert(self.uuid.0, mnode);
        proof {
            let c1 = *old(context);
            let c2 = *context;
            assert(c2.module_nodes() =~= c1.module_nodes().insert(
                self.uuid.0,
                ModuleNodeV {
                    symbols: c1.module_nodes()[self.uuid.0].symbols.push(su),
                    ..c1.module_nodes()[self.uuid.0]
                },
            ));
            assert(c2.symbol_nodes() =~= c1.symbol_nodes().insert(
                su,
                SymbolNodeV { parent: Some(self.uuid.0), ..c1.symbol_nodes()[su] },
            ));
            lemma_wf_attach_symbol(c1, c2, self.uuid.0, su);
        }
        Ok(())
    }

    /// Detach the symbol with the given identifier from this module; `None`
    /// when no such symbol is listed here.
    pub fn remove_symbol(&self, context: &mut Context, uuid: Uuid) -> (r: Option<SymbolRef>)
        requires
            old(context).wf(),
            self.live(*old(context)),
        ensures
            final(context).wf(),
            match r {
                Some(s) => {
                    &&& s == (SymbolRef { uuid })
                    &&& self.node(*old(context)).symbols.contains(uuid.0)
                    &&& final(context).module_nodes() == old(context).module_nodes().insert(
                        self.uuid.0,
                        ModuleNodeV {
                            symbols: self.node(*old(context)).symbols.remove_value(uuid.0),
                            ..self.node(*old(context))
                        },
                    )
                    &&& final(context).symbol_nodes() == old(context).symbol_nodes().insert(
                        uuid.0,
                        SymbolNodeV { parent: None, ..old(context).symbol_nodes()[uuid.0] },
                    )
                    &&& final(context).ir_nodes() == old(context).ir_nodes()
                    &&& final(context).section_nodes() == old(context).section_nodes()
                    &&& final(context).interval_nodes() == old(context).interval_nodes()
                    &&& final(context).code_block_nodes() == old(context).code_block_nodes()
                    &&& final(context).data_block_nodes() == old(context).data_block_nodes()
                    &&& final(context).proxy_block_nodes() == old(context).proxy_block_nodes()
                },
                None => {
                    &&& !self.node(*old(context)).symbols.contains(uuid.0)
                    &&& *final(context) == *old(context)
                },
            },
    {
        let u = self.uuid.0;
        let ghost list = context.module_nodes()[u].symbols;
        let node = context.modules.get(&u).unwrap();
        let n = node.symbols.len();
        let mut k: usize = 0;
        let mut pos: Option<usize> = None;
        while k < n
            invariant
                n == list.len(),
                k <= n,
                context.modules@.contains_key(u),
                node.symbols@ == list,
                match pos {
                    Some(p) => p < k && list[p as int] == uuid.0,
                    None => forall|j: int| 0 <= j < k ==> list[j] != uuid.0,
                },
            decreases n - k,
        {
            if pos.is_none() && node.symbols[k] == uuid.0 {
                pos = Some(k);
            }
            k = k + 1;
        }
        match pos {
            None => {
                proof {
                    if list.contains(uuid.0) {
                        let j = choose|j: int| 0 <= j < list.len() && list[j] == uuid.0;
                        assert(list[j] != uuid.0);
                    }
                }
                None
            },
            Some(p) => {
                let mut mnode = context.modules.remove(&u).unwrap();
                mnode.symbols.remove(p);
                context.modules.insert(u, mnode);
                proof {
                    let c1 = *old(context);
                    assert(c1.module_node_ok(u));
                    assert(c1.symbol_child_ok(list[p as int], u));
                }
                let mut snode = context.symbols.remove(&uuid.0).unwrap();
                snode.parent = None;
                context.symbols.insert(uuid.0, snode);
                proof {
                    let c1 = *old(context);
                    let c2 = *context;
                    assert(list.contains(uuid.0));
                    assert(c1.module_node_ok(u));
                    assert(c1.symbol_child_ok(list[p as int], u));
                    assert(c2.module_nodes() =~= c1.module_nodes().insert(
                        u,
                        ModuleNodeV { symbols: list.remove(p as int), ..c1.module_nodes()[u] },
                    ));
                    assert(c2.symbol_nodes() =~= c1.symbol_nodes().insert(
                        uuid.0,
                        SymbolNodeV { parent: None, ..c1.symbol_nodes()[uuid.0] },
                    ));
                    lemma_wf_detach_symbol(c1, c2, u, uuid.0, p as int);
                    list.index_of_first_ensures(uuid.0);
                    assert(list.no_duplicates());
                    assert(list.index_of_first(uuid.0) == Some(p as int));
                    assert(list.remove_value(uuid.0) == list.remove(p as int));
                }
                Some(SymbolRef { uuid })
            },
        }
    }

    /// Append a detached section to this module and point its up-reference
    /// here.  Fails with [`Error::DetachedNode`] when the section is
    /// already attached.
    pub fn add_section(&self, context: &mut Context, section: &SectionRef) -> (r: Result<
        (),
        Error,
    >)
        requires
            old(context).wf(),
            self.live(*old(context)),
            section.live(*old(context)),
        ensures
            final(context).wf(),
            match r {
                Ok(()) => {
                    &&& old(context).section_nodes()[section.uuid.0].parent == None::<u128>
                    &&& final(context).module_nodes() == old(context).module_nodes().insert(
                        self.uuid.0,
                        ModuleNodeV {
                            sections: self.node(*old(context)).sections.push(section.uuid.0),
                            ..self.node(*old(context))
                        },
                    )
                    &&& final(context).section_nodes() == old(context).section_nodes().insert(
                        section.uuid.0,
                        SectionNodeV {
                            parent: Some(self.uuid.0),
                            ..old(context).section_nodes()[section.uuid.0]
                        },
                    )
                    &&& final(context).ir_nodes() == old(context).ir_nodes()
                    &&& final(context).interval_nodes() == old(context).interval_nodes()
                    &&& final(context).code_block_nodes() == old(context).code_block_nodes()
                    &&& final(context).data_block_nodes() == old(context).data_block_nodes()
                    &&& final(context).proxy_block_nodes() == old(context).proxy_block_nodes()
                    &&& final(context).symbol_nodes() == old(context).symbol_nodes()
                },
                Err(e) => {
                    &&& e == Error::DetachedNode
                    &&& old(context).section_nodes()[section.uuid.0].parent is Some
                    &&& *final(context) == *old(context)
                },
            },
    {
        let su = section.uuid.0;
        if context.sections.get(&su).unwrap().parent.is_some() {
            return Err(Error::DetachedNode);
        }
        let mut snode = context.sections.remove(&su).unwrap();
        snode.parent = Some(self.uuid.0);
        context.sections.insert(su, snode);
        let mut mnode = context.modules.remove(&self.uuid.0).unwrap();
        mnode.sections.push(su);
        context.modules.insert(self.uuid.0, mnode);
        proof {
            let c1 = *old(context);
            let c2 = *context;
            assert(c2.module_nodes() =~= c1.module_nodes().insert(
                self.uuid.0,
                ModuleNodeV {
                    sections: c1.module_nodes()[self.uuid.0].sections.push(su),
                    ..c1.module_nodes()[self.uuid.0]
                },
            ));
            assert(c2.section_nodes() =~= c1.section_nodes().insert(
                su,
                SectionNodeV { parent: Some(self.uuid.0), ..c1.section_nodes()[su] },
            ));
            lemma_wf_attach_section(c1, c2, self.uuid.0, su);
        }
        Ok(())
    }

    /// Detach the section with the given identifier from this module;
    /// `None` when no such section is listed here.
    pub fn remove_section(&self, context: &mut Context, uuid: Uuid) -> (r: Option<SectionRef>)
        requires
            old(context).wf(),
            self.live(*old(context)),
        ensures
            final(context).wf(),
            match r {
                Some(s) => {
                    &&& s == (SectionRef { uuid })
                    &&& self.node(*old(context)).sections.contains(uuid.0)
                    &&& final(context).module_nodes() == old(context).module_nodes().insert(
                        self.uuid.0,
                        ModuleNodeV {
                            sections: self.node(*old(context)).sections.remove_value(uuid.0),
                            ..self.node(*old(context))
                        },
                    )
                    &&& final(context).section_nodes() == old(context).section_nodes().insert(
                        uuid.0,
                        SectionNodeV { parent: None, ..old(context).section_nodes()[uuid.0] },
                    )
                    &&& final(context).ir_nodes() == old(context).ir_nodes()
                    &&& final(context).interval_nodes() == old(context).interval_nodes()
                    &&& final(context).code_block_nodes() == old(context).code_block_nodes()
                    &&& final(context).data_block_nodes() == old(context).data_block_nodes()
                    &&& final(context).proxy_block_nodes() == old(context).proxy_block_nodes()
                    &&& final(context).symbol_nodes() == old(context).symbol_nodes()
                },
                None => {
                    &&& !self.node(*old(context)).sections.contains(uuid.0)
                    &&& *final(context) == *old(context)
                },
            },
    {
        let u = self.uuid.0;
        let ghost list = context.module_nodes()[u].sections;
        let node = context.modules.get(&u).unwrap();
        let n = node.sections.len();
        let mut k: usize = 0;
        let mut pos: Option<usize> = None;
        while k < n
            invariant
                n == list.len(),
                k <= n,
                context.modules@.contains_key(u),
                node.sections@ == list,
                match pos {
                    Some(p) => p < k && list[p as int] == uuid.0,
                    None => forall|j: int| 0 <= j < k ==> list[j] != uuid.0,
                },
            decreases n - k,
        {
            if pos.is_none() && node.sections[k] == uuid.0 {
                pos = Some(k);
            }
            k = k + 1;
        }
        match pos {
            None => {
                proof {
                    if list.contains(uuid.0) {
                        let j = choose|j: int| 0 <= j < list.len() && list[j] == uuid.0;
                        assert(list[j] != uuid.0);
                    }
                }
                None
            },
            Some(p) => {
                let mut mnode = context.modules.remove(&u).unwrap();
                mnode.sections.remove(p);
                context.modules.insert(u, mnode);
                proof {
                    let c1 = *old(context);
                    assert(c1.module_node_ok(u));
                    assert(c1.section_child_ok(list[p as int], u));
                }
                let mut snode = context.sections.remove(&uuid.0).unwrap();
                snode.parent = None;
                context.sections.insert(uuid.0, snode);
                proof {
                    let c1 = *old(context);
                    let c2 = *context;
                    assert(list.contains(uuid.0));
                    assert(c1.module_node_ok(u));
                    assert(c1.section_child_ok(list[p as int], u));
                    assert(c2.module_nodes() =~= c1.module_nodes().insert(
                        u,
                        ModuleNodeV { sections: list.remove(p as int), ..c1.module_nodes()[u] },
                    ));
                    assert(c2.section_nodes() =~= c1.section_nodes().insert(
                        uuid.0,
                        SectionNodeV { parent: None, ..c1.section_nodes()[uuid.0] },
                    ));
                    lemma_wf_detach_section(c1, c2, u, uuid.0, p as int);
                    list.index_of_first_ensures(uuid.0);
                    assert(list.no_duplicates());
                    assert(list.index_of_first(uuid.0) == Some(p as int));
                    assert(list.remove_value(uuid.0) == list.remove(p as int));
                }
                Some(SectionRef { uuid })
            },
        }
    }

    /// The handles of this module's sections, in insertion order.
    pub fn sections(&self, context: &Context) -> (r: Vec<SectionRef>)
        requires
            self.live(*context),
        ensures
            r@.len() == self.node(*context).sections.len(),
            forall|i: int|
                0 <= i < r@.len() ==> r@[i] == (SectionRef {
                    uuid: Uuid(self.node(*context).sections[i]),
                }),
    {
        let node = context.modules.get(&self.uuid.0).unwrap();
        let n = node.sections.len();
        let mut out: Vec<SectionRef> = Vec::new();
        let mut k: usize = 0;
        while k < n
            invariant
                k <= n,
                n == node.sections@.len(),
                node.sections@ == self.node(*context).sections,
                out@.len() == k,
                forall|i: int|
                    0 <= i < k ==> out@[i] == (SectionRef {
                        uuid: Uuid(self.node(*context).sections[i]),
                    }),
            decreases n - k,
        {
            out.push(SectionRef { uuid: Uuid(node.sections[k]) });
            k = k + 1;
        }
        out
    }

    /// Append a detached proxy block to this module and point its
    /// up-reference here.  Fails with [`Error::DetachedNode`] when the
    /// proxy block is already attached.
    pub fn add_proxy_block(&self, context: &mut Context, proxy_block: &ProxyBlockRef) -> (r: Result<
        (),
        Error,
    >)
        requires
            old(context).wf(),
            self.live(*old(context)),
            proxy_block.live(*old(context)),
        ensures
            final(context).wf(),
            match r {
                Ok(()) => {
                    &&& old(context).proxy_block_nodes()[proxy_block.uuid.0].parent
                        == None::<u128>
                    &&& final(context).module_nodes() == old(context).module_nodes().insert(
                        self.uuid.0,
                        ModuleNodeV {
                            proxy_blocks: self.node(*old(context)).proxy_blocks.push(
                                proxy_block.uuid.0,
                            ),
                            ..self.node(*old(context))
                        },
                    )
                    &&& final(context).proxy_block_nodes() == old(
                        context,
                    ).proxy_block_nodes().insert(
                        proxy_block.uuid.0,
                        ProxyBlock { parent: Some(self.uuid.0) },
                    )
                    &&& final(context).ir_nodes() == old(context).ir_nodes()
                    &&& final(context).section_nodes() == old(context).section_nodes()
                    &&& final(context).interval_nodes() == old(context).interval_nodes()
                    &&& final(context).code_block_nodes() == old(context).code_block_nodes()
                    &&& final(context).data_block_nodes() == old(context).data_block_nodes()
                    &&& final(context).symbol_nodes() == old(context).symbol_nodes()
                },
                Err(e) => {
                    &&& e == Error::DetachedNode
                    &&& old(context).proxy_block_nodes()[proxy_block.uuid.0].parent is Some
                    &&& *final(context) == *old(context)
                },
            },
    {
        let pu = proxy_block.uuid.0;
        if context.proxy_blocks.get(&pu).unwrap().parent.is_some() {
            return Err(Error::DetachedNode);
        }
        let mut pnode = context.proxy_blocks.remove(&pu).unwrap();
        pnode.parent = Some(self.uuid.0);
        context.proxy_blocks.insert(pu, pnode);
        let mut mnode = context.modules.remove(&self.uuid.0).unwrap();
        mnode.proxy_blocks.push(pu);
        context.modules.insert(self.uuid.0, mnode);
        proof {
            let c1 = *old(context);
            let c2 = *context;
            assert(c2.module_nodes() =~= c1.module_nodes().insert(
                self.uuid.0,
                ModuleNodeV {
                    proxy_blocks: c1.module_nodes()[self.uuid.0].proxy_blocks.push(pu),
                    ..c1.module_nodes()[self.uuid.0]
                },
            ));
            assert(c2.proxy_block_nodes() =~= c1.proxy_block_nodes().insert(
                pu,
                ProxyBlock { parent: Some(self.uuid.0) },
            ));
            lemma_wf_attach_proxy_block(c1, c2, self.uuid.0, pu);
        }
        Ok(())
    }

    /// Detach the proxy block with the given identifier from this module;
    /// `None` when no such proxy block is listed here.
    pub fn remove_proxy_block(&self, context: &mut Context, uuid: Uuid) -> (r: Option<
        ProxyBlockRef,
    >)
        requires
            old(context).wf(),
            self.live(*old(context)),
        ensures
            final(context).wf(),
            match r {
                Some(s) => {
                    &&& s == (ProxyBlockRef { uuid })
                    &&& self.node(*old(context)).proxy_blocks.contains(uuid.0)
                    &&& final(context).module_nodes() == old(context).module_nodes().insert(
                        self.uuid.0,
                        ModuleNodeV {
                            proxy_blocks: self.node(*old(context)).proxy_blocks.remove_value(
                                uuid.0,
                            ),
                            ..self.node(*old(context))
                        },
                    )
                    &&& final(context).proxy_block_nodes() == old(
                        context,
                    ).proxy_block_nodes().insert(uuid.0, ProxyBlock { parent: None })
                    &&& final(context).ir_nodes() == old(context).ir_nodes()
                    &&& final(context).section_nodes() == old(context).section_nodes()
                    &&& final(context).interval_nodes() == old(context).interval_nodes()
                    &&& final(context).code_block_nodes() == old(context).code_block_nodes()
                    &&& final(context).data_block_nodes() == old(context).data_block_nodes()
                    &&& final(context).symbol_nodes() == old(context).symbol_nodes()
                },
                None => {
                    &&& !self.node(*old(context)).proxy_blocks.contains(uuid.0)
                    &&& *final(context) == *old(context)
                },
            },
    {
        let u = self.uuid.0;
        let ghost list = context.module_nodes()[u].proxy_blocks;
        let node = context.modules.get(&u).unwrap();
        let n = node.proxy_blocks.len();
        let mut k: usize = 0;
        let mut pos: Option<usize> = None;
        while k < n
            invariant
                n == list.len(),
                k <= n,
                context.modules@.contains_key(u),
                node.proxy_blocks@ == list,
                match pos {
                    Some(p) => p < k && list[p as int] == uuid.0,
                    None => forall|j: int| 0 <= j < k ==> list[j] != uuid.0,
                },
            decreases n - k,
        {
            if pos.is_none() && node.proxy_blocks[k] == uuid.0 {
                pos = Some(k);
            }
            k = k + 1;
        }
        match pos {
            None => {
                proof {
                    if list.contains(uuid.0) {
                        let j = choose|j: int| 0 <= j < list.len() && list[j] == uuid.0;
                        assert(list[j] != uuid.0);
                    }
                }
                None
            },
            Some(p) => {
                let mut mnode = context.modules.remove(&u).unwrap();
                mnode.proxy_blocks.remove(p);
                context.modules.insert(u, mnode);
                proof {
                    let c1 = *old(context);
                    assert(c1.module_node_ok(u));
                    assert(c1.proxy_block_child_ok(list[p as int], u));
                }
                let mut pnode = context.proxy_blocks.remove(&uuid.0).unwrap();
                pnode.parent = None;
                context.proxy_blocks.insert(uuid.0, pnode);
                proof {
                    let c1 = *old(context);
                    let c2 = *context;
                    assert(list.contains(uuid.0));
                    assert(c1.module_node_ok(u));
                    assert(c1.proxy_block_child_ok(list[p as int], u));
                    assert(c2.module_nodes() =~= c1.module_nodes().insert(
                        u,
                        ModuleNodeV {
                            proxy_blocks: list.remove(p as int),
                            ..c1.module_nodes()[u]
                        },
                    ));
                    assert(c2.proxy_block_nodes() =~= c1.proxy_block_nodes().insert(
                        uuid.0,
                        ProxyBlock { parent: None },
                    ));
                    lemma_wf_detach_proxy_block(c1, c2, u, uuid.0, p as int);
                    list.index_of_first_ensures(uuid.0);
                    assert(list.no_duplicates());
                    assert(list.index_of_first(uuid.0) == Some(p as int));
                    assert(list.remove_value(uuid.0) == list.remove(p as int));
                }
                Some(ProxyBlockRef { uuid })
            },
        }
    }

    /// The identifiers of all byte intervals across this module's
    /// sections, in section order; each interval is live.
    fn flat_intervals(&self, context: &Context) -> (r: Vec<u128>)
        requires
            context.wf(),
            self.live(*context),
        ensures
            r@ == spec_module_intervals(*context, self.node(*context).sections),
            forall|i: int| 0 <= i < r@.len() ==> context.interval_live(#[trigger] r@[i]),
    {
        let node = context.modules.get(&self.uuid.0).unwrap();
        let ghost secs = self.node(*context).sections;
        let n = node.sections.len();
        let mut out: Vec<u128> = Vec::new();
        let mut k: usize = 0;
        proof {
            assert(out@ =~= spec_module_intervals(*context, secs.take(0)));
        }
        while k < n
            invariant
                context.wf(),
                self.live(*context),
                k <= n,
                n == node.sections@.len(),
                node.sections@ == secs,
                secs == self.node(*context).sections,
                out@ == spec_module_intervals(*context, secs.take(k as int)),
                forall|i: int| 0 <= i < out@.len() ==> context.interval_live(#[trigger] out@[i]),
            decreases n - k,
        {
            let su = node.sections[k];
            proof {
                let c = *context;
                assert(c.module_node_ok(self.uuid.0));
                assert(c.section_child_ok(secs[k as int], self.uuid.0));
            }
            let snode = context.sections.get(&su).unwrap();
            let m = snode.byte_intervals.len();
            let ghost ivs = context.section_nodes()[su as u128].byte_intervals;
            let mut j: usize = 0;
            while j < m
                invariant
                    context.wf(),
                    self.live(*context),
                    context.section_live(su as u128),
                    k < n,
                    n == node.sections@.len(),
                    node.sections@ == secs,
                    secs == self.node(*context).sections,
                    secs[k as int] == su,
                    j <= m,
                    m == snode.byte_intervals@.len(),
                    snode.byte_intervals@ == ivs,
                    ivs == context.section_nodes()[su as u128].byte_intervals,
                    out@ == spec_module_intervals(*context, secs.take(k as int)) + ivs.take(
                        j as int,
                    ),
                    forall|i: int|
                        0 <= i < out@.len() ==> context.interval_live(#[trigger] out@[i]),
                decreases m - j,
            {
                proof {
                    let c = *context;
                    assert(c.section_node_ok(su));
                    assert(c.interval_child_ok(ivs[j as int], su));
                }
                out.push(snode.byte_intervals[j]);
                proof {
                    assert(out@ =~= spec_module_intervals(*context, secs.take(k as int))
                        + ivs.take(j as int + 1));
                }
                j = j + 1;
            }
            proof {
                assert(secs.take(k as int + 1).drop_last() =~= secs.take(k as int));
                assert(secs.take(k as int + 1).last() == secs[k as int]);
                assert(ivs.take(m as int) =~= ivs);
                assert(out@ =~= spec_module_intervals(*context, secs.take(k as int + 1)));
                assert(out@ =~= spec_module_intervals(*context, secs.take(k as int + 1)) + ivs.take(
                    0,
                ));
            }
            k = k + 1;
            proof {
                assert(out@ =~= spec_module_intervals(*context, secs.take(k as int)));
            }
        }
        proof {
            assert(secs.take(n as int) =~= secs);
        }
        out
    }

    /// The handles of all byte intervals across this module's sections, in
    /// section order.
    pub fn byte_intervals(&self, context: &Context) -> (r: Vec<ByteIntervalRef>)
        requires
            context.wf(),
            self.live(*context),
        ensures
            ({
                let flat = spec_module_intervals(*context, self.node(*context).sections);
                &&& r@.len() == flat.len()
                &&& forall|i: int|
                    0 <= i < r@.len() ==> r@[i] == (ByteIntervalRef { uuid: Uuid(flat[i]) })
            }),
    {
        let raw = self.flat_intervals(context);
        let n = raw.len();
        let mut out: Vec<ByteIntervalRef> = Vec::new();
        let mut k: usize = 0;
        while k < n
            invariant
                k <= n,
                n == raw@.len(),
                raw@ == spec_module_intervals(*context, self.node(*context).sections),
                out@.len() == k,
                forall|i: int|
                    0 <= i < k ==> out@[i] == (ByteIntervalRef { uuid: Uuid(raw@[i]) }),
            decreases n - k,
        {
            out.push(ByteIntervalRef { uuid: Uuid(raw[k]) });
            k = k + 1;
        }
        out
    }

    /// The derived address: the least interval address over every section,
    /// defined only when the module has intervals and every one is
    /// addressed.
    pub fn address(&self, context: &Context) -> (r: Option<Addr>)
        requires
            context.wf(),
            self.live(*context),
        ensures
            r == spec_span_address(
                *context,
                spec_module_intervals(*context, self.node(*context).sections),
            ),
    {
        let raw = self.flat_intervals(context);
        match span_of(context, &raw) {
            Some((mina, _)) => Some(Addr(mina)),
            None => None,
        }
    }

    /// The derived size: greatest interval end minus least interval
    /// address (wrapping) over every section, defined only when the module
    /// has intervals and every one is addressed.
    pub fn size(&self, context: &Context) -> (r: Option<u64>)
        requires
            context.wf(),
            self.live(*context),
        ensures
            r == spec_span_size(
                *context,
                spec_module_intervals(*context, self.node(*context).sections),
            ),
    {
        let raw = self.flat_intervals(context);
        match span_of(context, &raw) {
            Some((mina, maxe)) => Some(maxe.wrapping_sub(mina)),
            None => None,
        }
    }

    /// The handles of this module's proxy blocks, in insertion order.
    pub fn proxy_blocks(&self, context: &Context) -> (r: Vec<ProxyBlockRef>)
        requires
            self.live(*context),
        ensures
            r@.len() == self.node(*context).proxy_blocks.len(),
            forall|i: int|
                0 <= i < r@.len() ==> r@[i] == (ProxyBlockRef {
                    uuid: Uuid(self.node(*context).proxy_blocks[i]),
                }),
    {
        let node = context.modules.get(&self.uuid.0).unwrap();
        let n = node.proxy_blocks.len();
        let mut out: Vec<ProxyBlockRef> = Vec::new();
        let mut k: usize = 0;
        while k < n
            invariant
                k <= n,
                n == node.proxy_blocks@.len(),
                node.proxy_blocks@ == self.node(*context).proxy_blocks,
                out@.len() == k,
                forall|i: int|
                    0 <= i < k ==> out@[i] == (ProxyBlockRef {
                        uuid: Uuid(self.node(*context).proxy_blocks[i]),
                    }),
            decreases n - k,
        {
            out.push(ProxyBlockRef { uuid: Uuid(node.proxy_blocks[k]) });
            k = k + 1;
        }
        out
    }
}

} // verus!
