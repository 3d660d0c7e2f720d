//! A contiguous run of bytes within a section, optionally anchored at an
//! absolute address, holding code blocks, data blocks and a map of
//! symbolic expressions keyed by byte offset.

use vstd::prelude::*;

use crate::addr::Addr;
use crate::code_block::{CodeBlock, CodeBlockRef};
use crate::context::{
    lemma_wf_attach_code_block, lemma_wf_attach_data_block, lemma_wf_detach_code_block,
    lemma_wf_detach_data_block, lemma_wf_replace_interval, Context,
};
use crate::data_block::{DataBlock, DataBlockRef};
use crate::error::Error;
use crate::ident::Uuid;
use crate::symbolic_expression::SymbolicExpression;

verus! {

broadcast use vstd::std_specs::hash::group_hash_axioms;

/// A byte-interval node record.
///
/// `bytes` holds the initialized contents; trailing bytes up to `size` are
/// implicitly zero.  `symbolic_expressions` is kept sorted by strictly
/// ascending byte offset, every offset below `size`.
pub struct ByteInterval {
    pub size: u64,
    pub address: Option<Addr>,
    pub bytes: Vec<u8>,
    pub code_blocks: Vec<u128>,
    pub data_blocks: Vec<u128>,
    pub symbolic_expressions: Vec<(u64, SymbolicExpression)>,
    pub parent: Option<u128>,
}

/// The mathematical value of one byte-interval record.
pub struct ByteIntervalNodeV {
    pub size: u64,
    pub address: Option<Addr>,
    pub bytes: Seq<u8>,
    pub code_blocks: Seq<u128>,
    pub data_blocks: Seq<u128>,
    pub symbolic_expressions: Seq<(u64, SymbolicExpression)>,
    pub parent: Option<u128>,
}

impl View for ByteInterval {
    type V = ByteIntervalNodeV;

    open spec fn view(&self) -> ByteIntervalNodeV {
        ByteIntervalNodeV {
            size: self.size,
            address: self.address,
            bytes: self.bytes@,
            code_blocks: self.code_blocks@,
            data_blocks: self.data_blocks@,
            symbolic_expressions: self.symbolic_expressions@,
            parent: self.parent,
        }
    }
}

/// Symbolic-expression entries are sorted by strictly ascending offset
/// (hence offsets are unique), and every offset lies below `size`.
pub open spec fn sym_exprs_ok(s: Seq<(u64, SymbolicExpression)>, size: u64) -> bool {
    &&& (forall|i: int| 0 <= i < s.len() ==> (#[trigger] s[i]).0 < size)
    &&& (forall|i: int, j: int| 0 <= i < j < s.len() ==> s[i].0 < s[j].0)
}

impl ByteIntervalNodeV {
    /// Initialized contents never exceed the declared size, and the
    /// symbolic-expression entries are sorted with offsets below `size`.
    pub open spec fn inv(self) -> bool {
        &&& self.bytes.len() <= self.size
        &&& sym_exprs_ok(self.symbolic_expressions, self.size)
    }
}

/// A handle on a byte-interval record.  Two handles are equal exactly when
/// they name the same node.
#[derive(Clone, Copy, Debug, PartialEq, Eq, Structural)]
pub struct ByteIntervalRef {
    pub uuid: Uuid,
}

impl ByteInterval {
    /// Create a fresh, detached, empty byte interval (size 0, no address,
    /// no contents), register it, and hand back its handle.
    pub fn new(context: &mut Context) -> (r: ByteIntervalRef)
        requires
            old(context).wf(),
        ensures
            final(context).wf(),
            !old(context).live(r.uuid.0),
            final(context).interval_nodes() == old(context).interval_nodes().insert(
                r.uuid.0,
                ByteIntervalNodeV {
                    size: 0,
                    address: None,
                    bytes: Seq::empty(),
                    code_blocks: Seq::empty(),
                    data_blocks: Seq::empty(),
                    symbolic_expressions: Seq::empty(),
                    parent: None,
                },
            ),
            final(context).ir_nodes() == old(context).ir_nodes(),
            final(context).module_nodes() == old(context).module_nodes(),
            final(context).section_nodes() == old(context).section_nodes(),
            final(context).code_block_nodes() == old(context).code_block_nodes(),
            final(context).data_block_nodes() == old(context).data_block_nodes(),
            final(context).proxy_block_nodes() == old(context).proxy_block_nodes(),
            final(context).symbol_nodes() == old(context).symbol_nodes(),
    {
        let u = context.fresh_uuid();
        let node = ByteInterval {
            size: 0,
            address: None,
            bytes: Vec::new(),
            code_blocks: Vec::new(),
            data_blocks: Vec::new(),
            symbolic_expressions: Vec::new(),
            parent: None,
        };
        proof {
            assert(node@.bytes =~= Seq::<u8>::empty());
            assert(node@.code_blocks =~= Seq::<u128>::empty());
            assert(node@.data_blocks =~= Seq::<u128>::empty());
            assert(node@.symbolic_expressions =~= Seq::<(u64, SymbolicExpression)>::empty());
        }
        context.insert_byte_interval(u, node);
        ByteIntervalRef { uuid: Uuid(u) }
    }
}

impl ByteIntervalRef {
    /// True when this handle names a live byte interval in `ctx`.
    pub open spec fn live(self, ctx: Context) -> bool {
        ctx.interval_live(self.uuid.0)
    }

    /// The node value this handle names in `ctx`.
    pub open spec fn node(self, ctx: Context) -> ByteIntervalNodeV {
        ctx.interval_nodes()[self.uuid.0]
    }

    /// The identifier of the named node.
    pub fn uuid(&self) -> (r: Uuid)
        ensures
            r == self.uuid,
    {
        self.uuid
    }

    /// The total size in bytes.
    pub fn size(&self, context: &Context) -> (r: u64)
        requires
            self.live(*context),
        ensures
            r == self.node(*context).size,
    {
        context.byte_intervals.get(&self.uuid.0).unwrap().size
    }

    /// Set the total size.  Shrinking truncates the initialized contents
    /// and drops symbolic expressions at offsets no longer inside the
    /// interval, so the interval's invariant is kept.
    pub fn set_size(&self, context: &mut Context, n: u64)
        requires
            old(context).wf(),
            self.live(*old(context)),
        ensures
            final(context).wf(),
            ({
                let old_n = self.node(*old(context));
                let new_n = self.node(*final(context));
                &&& final(context).interval_nodes() == old(context).interval_nodes().insert(
                    self.uuid.0,
                    new_n,
                )
                &&& new_n.size == n
                &&& new_n.address == old_n.address
                &&& new_n.code_blocks == old_n.code_blocks
                &&& new_n.data_blocks == old_n.data_blocks
                &&& new_n.parent == old_n.parent
                &&& new_n.bytes == if n < old_n.bytes.len() {
                    old_n.bytes.take(n as int)
                } else {
                    old_n.bytes
                }
                &&& new_n.symbolic_expressions == old_n.symbolic_expressions.take(
                    new_n.symbolic_expressions.len() as int,
                )
                &&& (forall|i: int|
                    0 <= i < new_n.symbolic_expressions.len()
                        ==> (#[trigger] old_n.symbolic_expressions[i]).0 < n)
                &&& (new_n.symbolic_expressions.len() < old_n.symbolic_expressions.len()
                    ==> old_n.symbolic_expressions[new_n.symbolic_expressions.len() as int].0
                    >= n)
            }),
            final(context).ir_nodes() == old(context).ir_nodes(),
            final(context).module_nodes() == old(context).module_nodes(),
            final(context).section_nodes() == old(context).section_nodes(),
            final(context).code_block_nodes() == old(context).code_block_nodes(),
            final(context).data_block_nodes() == old(context).data_block_nodes(),
            final(context).proxy_block_nodes() == old(context).proxy_block_nodes(),
            final(context).symbol_nodes() == old(context).symbol_nodes(),
    {
        let u = self.uuid.0;
        let mut node = context.byte_intervals.remove(&u).unwrap();
        let ghost old_nv = node@;
        proof {
            assert(old(context).interval_nodes()[u].inv());
        }
        node.size = n;
        if (node.bytes.len() as u64) > n {
            node.bytes.truncate(n as usize);
        }
        // symbolic expressions with offsets below `n` form a prefix of the
        // sorted list
        let m = node.symbolic_expressions.len();
        let mut cut: usize = 0;
        while cut < m && node.symbolic_expressions[cut].0 < n
            invariant
                cut <= m,
                m == node.symbolic_expressions@.len(),
                node.symbolic_expressions@ == old_nv.symbolic_expressions,
                forall|i: int| 0 <= i < cut ==> (#[trigger] old_nv.symbolic_expressions[i]).0 < n,
            decreases m - cut,
        {
            cut = cut + 1;
        }
        node.symbolic_expressions.truncate(cut);
        context.byte_intervals.insert(u, node);
        proof {
            let c1 = *old(context);
            let c2 = *context;
            assert(node@.symbolic_expressions =~= old_nv.symbolic_expressions.take(cut as int));
            assert(c2.interval_nodes() =~= c1.interval_nodes().insert(u, node@));
            assert(node@.inv());
            lemma_wf_replace_interval(c1, c2, u, node@);
        }
    }

    /// The absolute address, if anchored.
    pub fn address(&self, context: &Context) -> (r: Option<Addr>)
        requires
            self.live(*context),
        ensures
            r == self.node(*context).address,
    {
        context.byte_intervals.get(&self.uuid.0).unwrap().address
    }

    /// Anchor the interval at an absolute address, or unanchor it.
    pub fn set_address(&self, context: &mut Context, address: Option<Addr>)
        requires
            old(context).wf(),
            self.live(*old(context)),
        ensures
            final(context).wf(),
            final(context).interval_nodes() == old(context).interval_nodes().insert(
                self.uuid.0,
                ByteIntervalNodeV { address: address, ..self.node(*old(context)) },
            ),
            final(context).ir_nodes() == old(context).ir_nodes(),
            final(context).module_nodes() == old(context).module_nodes(),
            final(context).section_nodes() == old(context).section_nodes(),
            final(context).code_block_nodes() == old(context).code_block_nodes(),
            final(context).data_block_nodes() == old(context).data_block_nodes(),
            final(context).proxy_block_nodes() == old(context).proxy_block_nodes(),
            final(context).symbol_nodes() == old(context).symbol_nodes(),
    {
        let u = self.uuid.0;
        let mut node = context.byte_intervals.remove(&u).unwrap();
        node.address = address;
        context.byte_intervals.insert(u, node);
        proof {
            let c1 = *old(context);
            let c2 = *context;
            assert(c1.interval_nodes()[u].inv());
            assert(c2.interval_nodes() =~= c1.interval_nodes().insert(u, node@));
            lemma_wf_replace_interval(c1, c2, u, node@);
        }
    }

    /// The number of initialized bytes.
    pub fn initialized_size(&self, context: &Context) -> (r: u64)
        requires
            self.live(*context),
        ensures
            r == self.node(*context).bytes.len(),
    {
        context.byte_intervals.get(&self.uuid.0).unwrap().bytes.len() as u64
    }

    /// Truncate or zero-extend the initialized contents to `n` bytes; when
    /// `n` exceeds the total size, the total size is raised to match.
    pub fn set_initialized_size(&self, context: &mut Context, n: u64)
        requires
            old(context).wf(),
            self.live(*old(context)),
            n <= usize::MAX as u64,
        ensures
            final(context).wf(),
            ({
                let old_n = self.node(*old(context));
                let new_n = self.node(*final(context));
                &&& final(context).interval_nodes() == old(context).interval_nodes().insert(
                    self.uuid.0,
                    new_n,
                )
                &&& new_n.bytes.len() == n
                &&& new_n.size == if n > old_n.size {
                    n
                } else {
                    old_n.size
                }
                &&& (n <= old_n.bytes.len() ==> new_n.bytes == old_n.bytes.take(n as int))
                &&& (n > old_n.bytes.len() ==> new_n.bytes.take(old_n.bytes.len() as int)
                    == old_n.bytes && (forall|i: int|
                    old_n.bytes.len() <= i < n ==> new_n.bytes[i] == 0))
                &&& new_n.address == old_n.address
                &&& new_n.code_blocks == old_n.code_blocks
                &&& new_n.data_blocks == old_n.data_blocks
                &&& new_n.symbolic_expressions == old_n.symbolic_expressions
                &&& new_n.parent == old_n.parent
            }),
            final(context).ir_nodes() == old(context).ir_nodes(),
            final(context).module_nodes() == old(context).module_nodes(),
            final(context).section_nodes() == old(context).section_nodes(),
            final(context).code_block_nodes() == old(context).code_block_nodes(),
            final(context).data_block_nodes() == old(context).data_block_nodes(),
            final(context).proxy_block_nodes() == old(context).proxy_block_nodes(),
            final(context).symbol_nodes() == old(context).symbol_nodes(),
    {
        let u = self.uuid.0;
        let mut node = context.byte_intervals.remove(&u).unwrap();
        let ghost old_nv = node@;
        proof {
            assert(old(context).interval_nodes()[u].inv());
        }
        let oldlen = node.bytes.len();
        if (n as usize) <= oldlen {
            node.bytes.truncate(n as usize);
        } else {
            let mut k = oldlen;
            while k < n as usize
                invariant
                    oldlen <= k <= n as usize,
                    node.bytes@.len() == k,
                    node.bytes@.take(oldlen as int) == old_nv.bytes,
                    forall|i: int| oldlen <= i < k ==> node.bytes@[i] == 0,
                    n <= usize::MAX as u64,
                    node.size == old_nv.size,
                    node.address == old_nv.address,
                    node.parent == old_nv.parent,
                    node.code_blocks@ == old_nv.code_blocks,
                    node.data_blocks@ == old_nv.data_blocks,
                    node.symbolic_expressions@ == old_nv.symbolic_expressions,
                decreases n as usize - k,
            {
                node.bytes.push(0);
                proof {
                    assert(node.bytes@.take(oldlen as int) =~= old_nv.bytes);
                }
                k = k + 1;
            }
        }
        if n > node.size {
            node.size = n;
        }
        context.byte_intervals.insert(u, node);
        proof {
            let c1 = *old(context);
            let c2 = *context;
            assert(c2.interval_nodes() =~= c1.interval_nodes().insert(u, node@));
            assert(node@.inv());
            lemma_wf_replace_interval(c1, c2, u, node@);
        }
    }

    /// A copy of the initialized contents.
    pub fn bytes(&self, context: &Context) -> (r: Vec<u8>)
        requires
            self.live(*context),
        ensures
            r@ == self.node(*context).bytes,
    {
        vstd::slice::slice_to_vec(context.byte_intervals.get(&self.uuid.0).unwrap().bytes.as_slice())
    }

    /// Replace the initialized contents wholesale; when the new contents
    /// are longer than the total size, the total size is raised to match.
    pub fn set_bytes(&self, context: &mut Context, bytes: &[u8])
        requires
            old(context).wf(),
            self.live(*old(context)),
        ensures
            final(context).wf(),
            ({
                let old_n = self.node(*old(context));
                let new_n = self.node(*final(context));
                &&& final(context).interval_nodes() == old(context).interval_nodes().insert(
                    self.uuid.0,
                    new_n,
                )
                &&& new_n.bytes == bytes@
                &&& new_n.size == if bytes@.len() > old_n.size {
                    bytes@.len() as u64
                } else {
                    old_n.size
                }
                &&& new_n.address == old_n.address
                &&& new_n.code_blocks == old_n.code_blocks
                &&& new_n.data_blocks == old_n.data_blocks
                &&& new_n.symbolic_expressions == old_n.symbolic_expressions
                &&& new_n.parent == old_n.parent
            }),
            final(context).ir_nodes() == old(context).ir_nodes(),
            final(context).module_nodes() == old(context).module_nodes(),
            final(context).section_nodes() == old(context).section_nodes(),
            final(context).code_block_nodes() == old(context).code_block_nodes(),
            final(context).data_block_nodes() == old(context).data_block_nodes(),
            final(context).proxy_block_nodes() == old(context).proxy_block_nodes(),
            final(context).symbol_nodes() == old(context).symbol_nodes(),
    {
        let u = self.uuid.0;
        let mut node = context.byte_intervals.remove(&u).unwrap();
        proof {
            assert(old(context).interval_nodes()[u].inv());
        }
        node.bytes = vstd::slice::slice_to_vec(bytes);
        if (node.bytes.len() as u64) > node.size {
            node.size = node.bytes.len() as u64;
        }
        context.byte_intervals.insert(u, node);
        proof {
            let c1 = *old(context);
            let c2 = *context;
            assert(c2.interval_nodes() =~= c1.interval_nodes().insert(u, node@));
            assert forall|i: int, j: int|
                0 <= i < j < node@.symbolic_expressions.len() implies node@.symbolic_expressions[i].0
                < node@.symbolic_expressions[j].0 by {
                assert(c1.interval_nodes()[u].inv());
            }
            assert(node@.inv());
            lemma_wf_replace_interval(c1, c2, u, node@);
        }
    }

    /// The symbolic-expression entries, sorted by ascending byte offset.
    pub fn symbolic_expressions(&self, context: &Context) -> (r: Vec<(u64, SymbolicExpression)>)
        requires
            self.live(*context),
        ensures
            r@ == self.node(*context).symbolic_expressions,
    {
        let node = context.byte_intervals.get(&self.uuid.0).unwrap();
        let n = node.symbolic_expressions.len();
        let mut out: Vec<(u64, SymbolicExpression)> = Vec::new();
        let mut k: usize = 0;
        while k < n
            invariant
                k <= n,
                n == node.symbolic_expressions@.len(),
                node.symbolic_expressions@ == self.node(*context).symbolic_expressions,
                out@ == self.node(*context).symbolic_expressions.take(k as int),
            decreases n - k,
        {
            out.push(node.symbolic_expressions[k]);
            proof {
                assert(out@ =~= self.node(*context).symbolic_expressions.take(k as int + 1));
            }
            k = k + 1;
        }
        proof {
            assert(self.node(*context).symbolic_expressions.take(n as int) =~= self.node(
                *context,
            ).symbolic_expressions);
        }
        out
    }

    /// Append a detached code block to this interval and point its
    /// up-reference here.  Fails with [`Error::DetachedNode`] when the
    /// block is already attached.
    pub fn add_code_block(&self, context: &mut Context, code_block: &CodeBlockRef) -> (r: Result<
        (),
        Error,
    >)
        requires
            old(context).wf(),
            self.live(*old(context)),
            code_block.live(*old(context)),
        ensures
            final(context).wf(),
            match r {
                Ok(()) => {
                    &&& old(context).code_block_nodes()[code_block.uuid.0].parent
                        == None::<u128>
                    &&& final(context).interval_nodes() == old(context).interval_nodes().insert(
                        self.uuid.0,
                        ByteIntervalNodeV {
                            code_blocks: self.node(*old(context)).code_blocks.push(
                                code_block.uuid.0,
                            ),
                            ..self.node(*old(context))
                        },
                    )
                    &&& final(context).code_block_nodes() == old(
                        context,
                    ).code_block_nodes().insert(
                        code_block.uuid.0,
                        CodeBlock {
                            parent: Some(self.uuid.0),
                            ..old(context).code_block_nodes()[code_block.uuid.0]
                        },
                    )
                    &&& final(context).ir_nodes() == old(context).ir_nodes()
                    &&& final(context).module_nodes() == old(context).module_nodes()
                    &&& final(context).section_nodes() == old(context).section_nodes()
                    &&& final(context).data_block_nodes() == old(context).data_block_nodes()
                    &&& final(context).proxy_block_nodes() == old(context).proxy_block_nodes()
                    &&& final(context).symbol_nodes() == old(context).symbol_nodes()
                },
                Err(e) => {
                    &&& e == Error::DetachedNode
                    &&& old(context).code_block_nodes()[code_block.uuid.0].parent is Some
                    &&& *final(context) == *old(context)
                },
            },
    {
        let cu = code_block.uuid.0;
        if context.code_blocks.get(&cu).unwrap().parent.is_some() {
            return Err(Error::DetachedNode);
        }
        let mut cnode = context.code_blocks.remove(&cu).unwrap();
        cnode.parent = Some(self.uuid.0);
        context.code_blocks.insert(cu, cnode);
        let mut bnode = context.byte_intervals.remove(&self.uuid.0).unwrap();
        bnode.code_blocks.push(cu);
        context.byte_intervals.insert(self.uuid.0, bnode);
        proof {
            let c1 = *old(context);
            let c2 = *context;
            assert(c2.interval_nodes() =~= c1.interval_nodes().insert(
                self.uuid.0,
                ByteIntervalNodeV {
                    code_blocks: c1.interval_nodes()[self.uuid.0].code_blocks.push(cu),
                    ..c1.interval_nodes()[self.uuid.0]
                },
            ));
            assert(c2.code_block_nodes() =~= c1.code_block_nodes().insert(
                cu,
                CodeBlock { parent: Some(self.uuid.0), ..c1.code_block_nodes()[cu] },
            ));
            lemma_wf_attach_code_block(c1, c2, self.uuid.0, cu);
        }
        Ok(())
    }

    /// Detach the code block with the given identifier from this interval;
    /// `None` when no such block is listed here.
    pub fn remove_code_block(&self, context: &mut Context, uuid: Uuid) -> (r: Option<CodeBlockRef>)
        requires
            old(context).wf(),
            self.live(*old(context)),
        ensures
            final(context).wf(),
            match r {
                Some(b) => {
                    &&& b == (CodeBlockRef { uuid })
                    &&& self.node(*old(context)).code_blocks.contains(uuid.0)
                    &&& final(context).interval_nodes() == old(context).interval_nodes().insert(
                        self.uuid.0,
                        ByteIntervalNodeV {
                            code_blocks: self.node(*old(context)).code_blocks.remove_value(
                                uuid.0,
                            ),
                            ..self.node(*old(context))
                        },
                    )
                    &&& final(context).code_block_nodes() == old(
                        context,
                    ).code_block_nodes().insert(
                        uuid.0,
                        CodeBlock { parent: None, ..old(context).code_block_nodes()[uuid.0] },
                    )
                    &&& final(context).ir_nodes() == old(context).ir_nodes()
                    &&& final(context).module_nodes() == old(context).module_nodes()
                    &&& final(context).section_nodes() == old(context).section_nodes()
                    &&& final(context).data_block_nodes() == old(context).data_block_nodes()
                    &&& final(context).proxy_block_nodes() == old(context).proxy_block_nodes()
                    &&& final(context).symbol_nodes() == old(context).symbol_nodes()
                },
                None => {
                    &&& !self.node(*old(context)).code_blocks.contains(uuid.0)
                    &&& *final(context) == *old(context)
                },
            },
    {
        let u = self.uuid.0;
        let ghost list = context.interval_nodes()[u].code_blocks;
        let node = context.byte_intervals.get(&u).unwrap();
        let n = node.code_blocks.len();
        let mut k: usize = 0;
        let mut pos: Option<usize> = None;
        while k < n
            invariant
                n == list.len(),
                k <= n,
                context.byte_intervals@.contains_key(u),
                node.code_blocks@ == list,
                match pos {
                    Some(p) => p < k && list[p as int] == uuid.0,
                    None => forall|j: int| 0 <= j < k ==> list[j] != uuid.0,
                },
            decreases n - k,
        {
            if pos.is_none() && node.code_blocks[k] == uuid.0 {
                pos = Some(k);
            }
            k = k + 1;
        }
        match pos {
            None => {
                proof {
                    if list.contains(uuid.0) {
                        let j = choose|j: int| 0 <= j < list.len() && list[j] == uuid.0;
                        assert(list[j] != uuid.0);
                    }
                }
                None
            },
            Some(p) => {
                let mut bnode = context.byte_intervals.remove(&u).unwrap();
                bnode.code_blocks.remove(p);
                context.byte_intervals.insert(u, bnode);
                proof {
                    let c1 = *old(context);
                    assert(c1.interval_node_ok(u));
                    assert(c1.code_block_child_ok(list[p as int], u));
                }
                let mut cnode = context.code_blocks.remove(&uuid.0).unwrap();
                cnode.parent = None;
                context.code_blocks.insert(uuid.0, cnode);
                proof {
                    let c1 = *old(context);
                    let c2 = *context;
                    assert(list.contains(uuid.0));
                    assert(c1.interval_node_ok(u));
                    assert(c1.code_block_child_ok(list[p as int], u));
                    assert(c2.interval_nodes() =~= c1.interval_nodes().insert(
                        u,
                        ByteIntervalNodeV {
                            code_blocks: list.remove(p as int),
                            ..c1.interval_nodes()[u]
                        },
                    ));
                    assert(c2.code_block_nodes() =~= c1.code_block_nodes().insert(
                        uuid.0,
                        CodeBlock { parent: None, ..c1.code_block_nodes()[uuid.0] },
                    ));
                    lemma_wf_detach_code_block(c1, c2, u, uuid.0, p as int);
                    list.index_of_first_ensures(uuid.0);
                    assert(list.no_duplicates());
                    assert(list.index_of_first(uuid.0) == Some(p as int));
                    assert(list.remove_value(uuid.0) == list.remove(p as int));
                }
                Some(CodeBlockRef { uuid })
            },
        }
    }

    /// The handles of this interval's code blocks, in insertion order.
    pub fn code_blocks(&self, context: &Context) -> (r: Vec<CodeBlockRef>)
        requires
            self.live(*context),
        ensures
            r@.len() == self.node(*context).code_blocks.len(),
            forall|i: int|
                0 <= i < r@.len() ==> r@[i] == (CodeBlockRef {
                    uuid: Uuid(self.node(*context).code_blocks[i]),
                }),
    {
        let node = context.byte_intervals.get(&self.uuid.0).unwrap();
        let n = node.code_blocks.len();
        let mut out: Vec<CodeBlockRef> = Vec::new();
        let mut k: usize = 0;
        while k < n
            invariant
                k <= n,
                n == node.code_blocks@.len(),
                node.code_blocks@ == self.node(*context).code_blocks,
                out@.len() == k,
                forall|i: int|
                    0 <= i < k ==> out@[i] == (CodeBlockRef {
                        uuid: Uuid(self.node(*context).code_blocks[i]),
                    }),
            decreases n - k,
        {
            out.push(CodeBlockRef { uuid: Uuid(node.code_blocks[k]) });
            k = k + 1;
        }
        out
    }

    /// Append a detached data block to this interval and point its
    /// up-reference here.  Fails with [`Error::DetachedNode`] when the
    /// block is already attached.
    pub fn add_data_block(&self, context: &mut Context, data_block: &DataBlockRef) -> (r: Result<
        (),
        Error,
    >)
        requires
            old(context).wf(),
            self.live(*old(context)),
            data_block.live(*old(context)),
        ensures
            final(context).wf(),
            match r {
                Ok(()) => {
                    &&& old(context).data_block_nodes()[data_block.uuid.0].parent
                        == None::<u128>
                    &&& final(context).interval_nodes() == old(context).interval_nodes().insert(
                        self.uuid.0,
                        ByteIntervalNodeV {
                            data_blocks: self.node(*old(context)).data_blocks.push(
                                data_block.uuid.0,
                            ),
                            ..self.node(*old(context))
                        },
                    )
                    &&& final(context).data_block_nodes() == old(
                        context,
                    ).data_block_nodes().insert(
                        data_block.uuid.0,
                        DataBlock {
                            parent: Some(self.uuid.0),
                            ..old(context).data_block_nodes()[data_block.uuid.0]
                        },
                    )
                    &&& final(context).ir_nodes() == old(context).ir_nodes()
                    &&& final(context).module_nodes() == old(context).module_nodes()
                    &&& final(context).section_nodes() == old(context).section_nodes()
                    &&& final(context).code_block_nodes() == old(context).code_block_nodes()
                    &&& final(context).proxy_block_nodes() == old(context).proxy_block_nodes()
                    &&& final(context).symbol_nodes() == old(context).symbol_nodes()
                },
                Err(e) => {
                    &&& e == Error::DetachedNode
                    &&& old(context).data_block_nodes()[data_block.uuid.0].parent is Some
                    &&& *final(context) == *old(context)
                },
            },
    {
        let du = data_block.uuid.0;
        if context.data_blocks.get(&du).unwrap().parent.is_some() {
            return Err(Error::DetachedNode);
        }
        let mut dnode = context.data_blocks.remove(&du).unwrap();
        dnode.parent = Some(self.uuid.0);
        context.data_blocks.insert(du, dnode);
        let mut bnode = context.byte_intervals.remove(&self.uuid.0).unwrap();
        bnode.data_blocks.push(du);
        context.byte_intervals.insert(self.uuid.0, bnode);
        proof {
            let c1 = *old(context);
            let c2 = *context;
            assert(c2.interval_nodes() =~= c1.interval_nodes().insert(
                self.uuid.0,
                ByteIntervalNodeV {
                    data_blocks: c1.interval_nodes()[self.uuid.0].data_blocks.push(du),
                    ..c1.interval_nodes()[self.uuid.0]
                },
            ));
            assert(c2.data_block_nodes() =~= c1.data_block_nodes().insert(
                du,
                DataBlock { parent: Some(self.uuid.0), ..c1.data_block_nodes()[du] },
            ));
            lemma_wf_attach_data_block(c1, c2, self.uuid.0, du);
        }
        Ok(())
    }

    /// Detach the data block with the given identifier from this interval;
    /// `None` when no such block is listed here.
    pub fn remove_data_block(&self, context: &mut Context, uuid: Uuid) -> (r: Option<DataBlockRef>)
        requires
            old(context).wf(),
            self.live(*old(context)),
        ensures
            final(context).wf(),
            match r {
                Some(b) => {
                    &&& b == (DataBlockRef { uuid })
                    &&& self.node(*old(context)).data_blocks.contains(uuid.0)
                    &&& final(context).interval_nodes() == old(context).interval_nodes().insert(
                        self.uuid.0,
                        ByteIntervalNodeV {
                            data_blocks: self.node(*old(context)).data_blocks.remove_value(
                                uuid.0,
                            ),
                            ..self.node(*old(context))
                        },
                    )
                    &&& final(context).data_block_nodes() == old(
                        context,
                    ).data_block_nodes().insert(
                        uuid.0,
                        DataBlock { parent: None, ..old(context).data_block_nodes()[uuid.0] },
                    )
                    &&& final(context).ir_nodes() == old(context).ir_nodes()
                    &&& final(context).module_nodes() == old(context).module_nodes()
                    &&& final(context).section_nodes() == old(context).section_nodes()
                    &&& final(context).code_block_nodes() == old(context).code_block_nodes()
                    &&& final(context).proxy_block_nodes() == old(context).proxy_block_nodes()
                    &&& final(context).symbol_nodes() == old(context).symbol_nodes()
                },
                None => {
                    &&& !self.node(*old(context)).data_blocks.contains(uuid.0)
                    &&& *final(context) == *old(context)
                },
            },
    {
        let u = self.uuid.0;
        let ghost list = context.interval_nodes()[u].data_blocks;
        let node = context.byte_intervals.get(&u).unwrap();
        let n = node.data_blocks.len();
        let mut k: usize = 0;
        let mut pos: Option<usize> = None;
        while k < n
            invariant
                n == list.len(),
                k <= n,
                context.byte_intervals@.contains_key(u),
                node.data_blocks@ == list,
                match pos {
                    Some(p) => p < k && list[p as int] == uuid.0,
                    None => forall|j: int| 0 <= j < k ==> list[j] != uuid.0,
                },
            decreases n - k,
        {
            if pos.is_none() && node.data_blocks[k] == uuid.0 {
                pos = Some(k);
            }
            k = k + 1;
        }
        match pos {
            None => {
                proof {
                    if list.contains(uuid.0) {
                        let j = choose|j: int| 0 <= j < list.len() && list[j] == uuid.0;
                        assert(list[j] != uuid.0);
                    }
                }
                None
            },
            Some(p) => {
                let mut bnode = context.byte_intervals.remove(&u).unwrap();
                bnode.data_blocks.remove(p);
                context.byte_intervals.insert(u, bnode);
                proof {
                    let c1 = *old(context);
                    assert(c1.interval_node_ok(u));
                    assert(c1.data_block_child_ok(list[p as int], u));
                }
                let mut dnode = context.data_blocks.remove(&uuid.0).unwrap();
                dnode.parent = None;
                context.data_blocks.insert(uuid.0, dnode);
                proof {
                    let c1 = *old(context);
                    let c2 = *context;
                    assert(list.contains(uuid.0));
                    assert(c1.interval_node_ok(u));
                    assert(c1.data_block_child_ok(list[p as int], u));
                    assert(c2.interval_nodes() =~= c1.interval_nodes().insert(
                        u,
                        ByteIntervalNodeV {
                            data_blocks: list.remove(p as int),
                            ..c1.interval_nodes()[u]
                        },
                    ));
                    assert(c2.data_block_nodes() =~= c1.data_block_nodes().insert(
                        uuid.0,
                        DataBlock { parent: None, ..c1.data_block_nodes()[uuid.0] },
                    ));
                    lemma_wf_detach_data_block(c1, c2, u, uuid.0, p as int);
                    list.index_of_first_ensures(uuid.0);
                    assert(list.no_duplicates());
                    assert(list.index_of_first(uuid.0) == Some(p as int));
                    assert(list.remove_value(uuid.0) == list.remove(p as int));
                }
                Some(DataBlockRef { uuid })
            },
        }
    }

    /// The handles of this interval's data blocks, in insertion order.
    pub fn data_blocks(&self, context: &Context) -> (r: Vec<DataBlockRef>)
        requires
            self.live(*context),
        ensures
            r@.len() == self.node(*context).data_blocks.len(),
            forall|i: int|
                0 <= i < r@.len() ==> r@[i] == (DataBlockRef {
                    uuid: Uuid(self.node(*context).data_blocks[i]),
                }),
    {
        let node = context.byte_intervals.get(&self.uuid.0).unwrap();
        let n = node.data_blocks.len();
        let mut out: Vec<DataBlockRef> = Vec::new();
        let mut k: usize = 0;
        while k < n
            invariant
                k <= n,
                n == node.data_blocks@.len(),
                node.data_blocks@ == self.node(*context).data_blocks,
                out@.len() == k,
                forall|i: int|
                    0 <= i < k ==> out@[i] == (DataBlockRef {
                        uuid: Uuid(self.node(*context).data_blocks[i]),
                    }),
            decreases n - k,
        {
            out.push(DataBlockRef { uuid: Uuid(node.data_blocks[k]) });
            k = k + 1;
        }
        out
    }
}

} // verus!
