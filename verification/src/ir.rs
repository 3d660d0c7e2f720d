//! The top-level container of one IR tree: a schema version and an ordered
//! list of modules.

use vstd::prelude::*;

use crate::aux_data::{aux_view, AuxEntry, AuxEntryV};
use crate::context::{
    lemma_wf_attach_module, lemma_wf_detach_module, lemma_wf_replace_ir, Context,
};
use crate::error::Error;
use crate::ident::Uuid;
use crate::module::{ModuleNodeV, ModuleRef};

verus! {

broadcast use vstd::std_specs::hash::group_hash_axioms;

/// The root node record of one tree.  Stored inside a [`Context`], keyed by
/// its identifier; the `modules` list holds the identifiers of the owned
/// module nodes in insertion order.
pub struct IR {
    pub version: u32,
    pub modules: Vec<u128>,
    pub aux_data: Vec<AuxEntry>,
}

/// The mathematical value of one root record.
pub struct IrNodeV {
    pub version: u32,
    pub modules: Seq<u128>,
    pub aux_data: Seq<AuxEntryV>,
}

impl View for IR {
    type V = IrNodeV;

    open spec fn view(&self) -> IrNodeV {
        IrNodeV {
            version: self.version,
            modules: self.modules@,
            aux_data: aux_view(self.aux_data@),
        }
    }
}

/// A handle on a root record: a copyable token carrying its identifier.
/// Two handles are equal exactly when they name the same node.
#[derive(Clone, Copy, Debug, PartialEq, Eq, Structural)]
pub struct IRRef {
    pub uuid: Uuid,
}

impl IR {
    /// Create a fresh root record with schema version 1 and no modules,
    /// register it, and hand back its handle.
    pub fn new(context: &mut Context) -> (r: IRRef)
        requires
            old(context).wf(),
        ensures
            final(context).wf(),
            !old(context).live(r.uuid.0),
            final(context).ir_nodes() == old(context).ir_nodes().insert(
                r.uuid.0,
                IrNodeV { version: 1, modules: Seq::empty(), aux_data: Seq::empty() },
            ),
            final(context).module_nodes() == old(context).module_nodes(),
            final(context).section_nodes() == old(context).section_nodes(),
            final(context).interval_nodes() == old(context).interval_nodes(),
            final(context).code_block_nodes() == old(context).code_block_nodes(),
            final(context).data_block_nodes() == old(context).data_block_nodes(),
            final(context).proxy_block_nodes() == old(context).proxy_block_nodes(),
            final(context).symbol_nodes() == old(context).symbol_nodes(),
    {
        let u = context.fresh_uuid();
        let node = IR { version: 1, modules: Vec::new(), aux_data: Vec::new() };
        proof {
            assert(node@.modules =~= Seq::<u128>::empty());
            assert(node@.aux_data =~= Seq::<AuxEntryV>::empty());
        }
        context.insert_ir(u, node);
        IRRef { uuid: Uuid(u) }
    }
}

impl IRRef {
    /// True when this handle names a live root record in `ctx`.
    pub open spec fn live(self, ctx: Context) -> bool {
        ctx.ir_live(self.uuid.0)
    }

    /// The identifier of the named node.
    pub fn uuid(&self) -> (r: Uuid)
        ensures
            r == self.uuid,
    {
        self.uuid
    }

    /// The schema version.
    pub fn version(&self, context: &Context) -> (r: u32)
        requires
            self.live(*context),
        ensures
            r == context.ir_nodes()[self.uuid.0].version,
    {
        context.irs.get(&self.uuid.0).unwrap().version
    }

    /// Set the schema version.
    pub fn set_version(&self, context: &mut Context, version: u32)
        requires
            old(context).wf(),
            self.live(*old(context)),
        ensures
            final(context).wf(),
            final(context).ir_nodes() == old(context).ir_nodes().insert(
                self.uuid.0,
                IrNodeV { version: version, ..old(context).ir_nodes()[self.uuid.0] },
            ),
            final(context).module_nodes() == old(context).module_nodes(),
            final(context).section_nodes() == old(context).section_nodes(),
            final(context).interval_nodes() == old(context).interval_nodes(),
            final(context).code_block_nodes() == old(context).code_block_nodes(),
            final(context).data_block_nodes() == old(context).data_block_nodes(),
            final(context).proxy_block_nodes() == old(context).proxy_block_nodes(),
            final(context).symbol_nodes() == old(context).symbol_nodes(),
    {
        let u = self.uuid.0;
        let mut node = context.irs.remove(&u).unwrap();
        node.version = version;
        context.irs.insert(u, node);
        proof {
            let c1 = *old(context);
            let c2 = *context;
            assert(c2.ir_nodes() =~= c1.ir_nodes().insert(u, node@));
            lemma_wf_replace_ir(c1, c2, u, node@);
        }
    }

    /// Append a detached module to this root's module list and point its
    /// up-reference here.  Fails with [`Error::DetachedNode`] when the
    /// module is already attached.
    pub fn add_module(&self, context: &mut Context, module: &ModuleRef) -> (r: Result<(), Error>)
        requires
            old(context).wf(),
            self.live(*old(context)),
            module.live(*old(context)),
        ensures
            final(context).wf(),
            match r {
                Ok(()) => {
                    &&& old(context).module_nodes()[module.uuid.0].parent == None::<u128>
                    &&& final(context).ir_nodes() == old(context).ir_nodes().insert(
                        self.uuid.0,
                        IrNodeV {
                            modules: old(context).ir_nodes()[self.uuid.0].modules.push(
                                module.uuid.0,
                            ),
                            ..old(context).ir_nodes()[self.uuid.0]
                        },
                    )
                    &&& final(context).module_nodes() == old(context).module_nodes().insert(
                        module.uuid.0,
                        ModuleNodeV {
                            parent: Some(self.uuid.0),
                            ..old(context).module_nodes()[module.uuid.0]
                        },
                    )
                    &&& final(context).section_nodes() == old(context).section_nodes()
                    &&& final(context).interval_nodes() == old(context).interval_nodes()
                    &&& final(context).code_block_nodes() == old(context).code_block_nodes()
                    &&& final(context).data_block_nodes() == old(context).data_block_nodes()
                    &&& final(context).proxy_block_nodes() == old(context).proxy_block_nodes()
                    &&& final(context).symbol_nodes() == old(context).symbol_nodes()
                },
                Err(e) => {
                    &&& e == Error::DetachedNode
                    &&& old(context).module_nodes()[module.uuid.0].parent is Some
                    &&& *final(context) == *old(context)
                },
            },
    {
        let mu = module.uuid.0;
        if context.modules.get(&mu).unwrap().parent.is_some() {
            return Err(Error::DetachedNode);
        }
        let mut mnode = context.modules.remove(&mu).unwrap();
        mnode.parent = Some(self.uuid.0);
        context.modules.insert(mu, mnode);
        let mut inode = context.irs.remove(&self.uuid.0).unwrap();
        inode.modules.push(mu);
        context.irs.insert(self.uuid.0, inode);
        proof {
            let c1 = *old(context);
            let c2 = *context;
            assert(c2.ir_nodes() =~= c1.ir_nodes().insert(
                self.uuid.0,
                IrNodeV {
                    modules: c1.ir_nodes()[self.uuid.0].modules.push(mu),
                    ..c1.ir_nodes()[self.uuid.0]
                },
            ));
            assert(c2.module_nodes() =~= c1.module_nodes().insert(
                mu,
                ModuleNodeV { parent: Some(self.uuid.0), ..c1.module_nodes()[mu] },
            ));
            lemma_wf_attach_module(c1, c2, self.uuid.0, mu);
        }
        Ok(())
    }

    /// Detach the module with the given identifier from this root, clear
    /// its up-reference, and hand back its handle; `None` when no such
    /// module is listed here.  Other modules keep their relative order.
    pub fn remove_module(&self, context: &mut Context, uuid: Uuid) -> (r: Option<ModuleRef>)
        requires
            old(context).wf(),
            self.live(*old(context)),
        ensures
            final(context).wf(),
            match r {
                Some(m) => {
                    &&& m == (ModuleRef { uuid })
                    &&& old(context).ir_nodes()[self.uuid.0].modules.contains(uuid.0)
                    &&& final(context).ir_nodes() == old(context).ir_nodes().insert(
                        self.uuid.0,
                        IrNodeV {
                            modules: old(context).ir_nodes()[self.uuid.0].modules.remove_value(
                                uuid.0,
                            ),
                            ..old(context).ir_nodes()[self.uuid.0]
                        },
                    )
                    &&& final(context).module_nodes() == old(context).module_nodes().insert(
                        uuid.0,
                        ModuleNodeV {
                            parent: None,
                            ..old(context).module_nodes()[uuid.0]
                        },
                    )
                    &&& final(context).section_nodes() == old(context).section_nodes()
                    &&& final(context).interval_nodes() == old(context).interval_nodes()
                    &&& final(context).code_block_nodes() == old(context).code_block_nodes()
                    &&& final(context).data_block_nodes() == old(context).data_block_nodes()
                    &&& final(context).proxy_block_nodes() == old(context).proxy_block_nodes()
                    &&& final(context).symbol_nodes() == old(context).symbol_nodes()
                },
                None => {
                    &&& !old(context).ir_nodes()[self.uuid.0].modules.contains(uuid.0)
                    &&& *final(context) == *old(context)
                },
            },
    {
        let u = self.uuid.0;
        let ghost list = context.ir_nodes()[u].modules;
        let node = context.irs.get(&u).unwrap();
        let n = node.modules.len();
        let mut k: usize = 0;
        let mut pos: Option<usize> = None;
        while k < n
            invariant
                n == list.len(),
                k <= n,
                context.irs@.contains_key(u),
                node.modules@ == list,
                match pos {
                    Some(p) => p < k && list[p as int] == uuid.0,
                    None => forall|j: int| 0 <= j < k ==> list[j] != uuid.0,
                },
            decreases n - k,
        {
            if pos.is_none() && node.modules[k] == uuid.0 {
                pos = Some(k);
            }
            k = k + 1;
        }
        match pos {
            None => {
                proof {
                    if list.contains(uuid.0) {
                        let j = choose|j: int| 0 <= j < list.len() && list[j] == uuid.0;
                        assert(list[j] != uuid.0);
                    }
                }
                None
            },
            Some(p) => {
                let mut inode = context.irs.remove(&u).unwrap();
                inode.modules.remove(p);
                context.irs.insert(u, inode);
                let mut mnode = context.modules.remove(&uuid.0).unwrap();
                proof {
                    // the listed child is a live module
                    let c1 = *old(context);
                    assert(c1.ir_node_ok(u));
                    assert(c1.module_child_ok(list[p as int], u));
                }
                mnode.parent = None;
                context.modules.insert(uuid.0, mnode);
                proof {
                    let c1 = *old(context);
                    let c2 = *context;
                    assert(list.contains(uuid.0));
                    assert(c1.ir_node_ok(u));
                    assert(c1.module_child_ok(list[p as int], u));
                    assert(c2.ir_nodes() =~= c1.ir_nodes().insert(
                        u,
                        IrNodeV { modules: list.remove(p as int), ..c1.ir_nodes()[u] },
                    ));
                    assert(c2.module_nodes() =~= c1.module_nodes().insert(
                        uuid.0,
                        ModuleNodeV { parent: None, ..c1.module_nodes()[uuid.0] },
                    ));
                    lemma_wf_detach_module(c1, c2, u, uuid.0, p as int);
                    // the scanned position is the unique occurrence
                    list.index_of_first_ensures(uuid.0);
                    assert(list.no_duplicates());
                    assert(list.index_of_first(uuid.0) == Some(p as int));
                    assert(list.remove_value(uuid.0) == list.remove(p as int));
                }
                Some(ModuleRef { uuid })
            },
        }
    }

    /// The handles of this root's modules, in insertion order.
    pub fn modules(&self, context: &Context) -> (r: Vec<ModuleRef>)
        requires
            self.live(*context),
        ensures
            r@.len() == context.ir_nodes()[self.uuid.0].modules.len(),
            forall|i: int|
                0 <= i < r@.len() ==> r@[i] == (ModuleRef {
                    uuid: Uuid(context.ir_nodes()[self.uuid.0].modules[i]),
                }),
    {
        let node = context.irs.get(&self.uuid.0).unwrap();
        let n = node.modules.len();
        let mut out: Vec<ModuleRef> = Vec::new();
        let mut k: usize = 0;
        while k < n
            invariant
                k <= n,
                n == node.modules@.len(),
                node.modules@ == context.ir_nodes()[self.uuid.0].modules,
                context.irs@.contains_key(self.uuid.0),
                out@.len() == k,
                forall|i: int|
                    0 <= i < k ==> out@[i] == (ModuleRef {
                        uuid: Uuid(context.ir_nodes()[self.uuid.0].modules[i]),
                    }),
            decreases n - k,
        {
            out.push(ModuleRef { uuid: Uuid(node.modules[k]) });
            k = k + 1;
        }
        out
    }
}

} // verus!
