//! The context: one process-local registry owning every node record of a
//! tree, with one typed mapping per node kind.
//!
//! Every operation preserves the registry's well-formedness [`Context::wf`]:
//! identifiers are unique across all kinds, every child list names live
//! nodes of the right kind whose up-reference points back at the listing
//! parent, a detached node's up-reference is empty, and each node's local
//! invariant holds.

use std::collections::HashMap;

use vstd::prelude::*;

use crate::byte_interval::{ByteInterval, ByteIntervalNodeV, ByteIntervalRef};
use crate::code_block::{CodeBlock, CodeBlockRef};
use crate::data_block::{DataBlock, DataBlockRef};
use crate::ident::{random_uuid_bits, Uuid};
use crate::ir::{IrNodeV, IRRef, IR};
use crate::module::{Module, ModuleNodeV, ModuleRef};
use crate::proxy_block::{ProxyBlock, ProxyBlockRef};
use crate::section::{Section, SectionNodeV, SectionRef};
use crate::symbol::{Symbol, SymbolNodeV, SymbolRef};

verus! {

broadcast use vstd::std_specs::hash::group_hash_axioms;

/// Membership in a sequence with one element prepended.
pub(crate) proof fn lemma_contains_cons(c: u128, s: Seq<u128>, t: Seq<u128>, v: u128)
    requires
        t.len() == s.len() + 1,
        t[0] == c,
        forall|i: int| 0 <= i < s.len() ==> t[i + 1] == s[i],
    ensures
        t.contains(v) <==> (v == c || s.contains(v)),
{
    if t.contains(v) {
        let i = choose|i: int| 0 <= i < t.len() && t[i] == v;
        if i > 0 {
            assert(s[i - 1] == v);
        }
    }
    if v == c {
        assert(t[0] == v);
    }
    if s.contains(v) {
        let i = choose|i: int| 0 <= i < s.len() && s[i] == v;
        assert(t[i + 1] == v);
    }
}

/// Cardinality of the set of identifiers strictly below `n`.
proof fn lemma_u128_range_len(n: int)
    requires
        0 <= n <= u128::MAX as int + 1,
    ensures
        Set::new(|x: u128| (x as int) < n).finite(),
        Set::new(|x: u128| (x as int) < n).len() == n,
    decreases n,
{
    let s = Set::new(|x: u128| (x as int) < n);
    if n == 0 {
        assert(s =~= Set::empty());
    } else {
        let s0 = Set::new(|x: u128| (x as int) < n - 1);
        lemma_u128_range_len(n - 1);
        assert(s =~= s0.insert((n - 1) as u128));
    }
}

/// The identifier registry and node store.  One context owns at most one
/// tree; handles into it are plain identifier tokens.
///
/// The registries are public so that contracts can speak about them
/// directly; mutation is meant to go through the operations below, every
/// one of which preserves [`Context::wf`].
pub struct Context {
    pub irs: HashMap<u128, IR>,
    pub modules: HashMap<u128, Module>,
    pub sections: HashMap<u128, Section>,
    pub byte_intervals: HashMap<u128, ByteInterval>,
    pub code_blocks: HashMap<u128, CodeBlock>,
    pub data_blocks: HashMap<u128, DataBlock>,
    pub proxy_blocks: HashMap<u128, ProxyBlock>,
    pub symbols: HashMap<u128, Symbol>,
}

impl Context {
    /// The root records, as a mathematical map.
    pub open spec fn ir_nodes(self) -> Map<u128, IrNodeV> {
        self.irs@.map_values(|n: IR| n@)
    }

    /// The module records, as a mathematical map.
    pub open spec fn module_nodes(self) -> Map<u128, ModuleNodeV> {
        self.modules@.map_values(|n: Module| n@)
    }

    /// The section records, as a mathematical map.
    pub open spec fn section_nodes(self) -> Map<u128, SectionNodeV> {
        self.sections@.map_values(|n: Section| n@)
    }

    /// The byte-interval records, as a mathematical map.
    pub open spec fn interval_nodes(self) -> Map<u128, ByteIntervalNodeV> {
        self.byte_intervals@.map_values(|n: ByteInterval| n@)
    }

    /// The code-block records, as a mathematical map.
    pub open spec fn code_block_nodes(self) -> Map<u128, CodeBlock> {
        self.code_blocks@.map_values(|n: CodeBlock| n@)
    }

    /// The data-block records, as a mathematical map.
    pub open spec fn data_block_nodes(self) -> Map<u128, DataBlock> {
        self.data_blocks@.map_values(|n: DataBlock| n@)
    }

    /// The proxy-block records, as a mathematical map.
    pub open spec fn proxy_block_nodes(self) -> Map<u128, ProxyBlock> {
        self.proxy_blocks@.map_values(|n: ProxyBlock| n@)
    }

    /// The symbol records, as a mathematical map.
    pub open spec fn symbol_nodes(self) -> Map<u128, SymbolNodeV> {
        self.symbols@.map_values(|n: Symbol| n@)
    }

    pub open spec fn ir_live(self, u: u128) -> bool {
        self.ir_nodes().contains_key(u)
    }

    pub open spec fn module_live(self, u: u128) -> bool {
        self.module_nodes().contains_key(u)
    }

    pub open spec fn section_live(self, u: u128) -> bool {
        self.section_nodes().contains_key(u)
    }

    pub open spec fn interval_live(self, u: u128) -> bool {
        self.interval_nodes().contains_key(u)
    }

    pub open spec fn code_block_live(self, u: u128) -> bool {
        self.code_block_nodes().contains_key(u)
    }

    pub open spec fn data_block_live(self, u: u128) -> bool {
        self.data_block_nodes().contains_key(u)
    }

    pub open spec fn proxy_block_live(self, u: u128) -> bool {
        self.proxy_block_nodes().contains_key(u)
    }

    pub open spec fn symbol_live(self, u: u128) -> bool {
        self.symbol_nodes().contains_key(u)
    }

    /// How many of the eight typed registries hold this identifier.
    pub open spec fn kind_count(self, u: u128) -> int {
        (if self.ir_live(u) { 1int } else { 0int })
        + (if self.module_live(u) { 1int } else { 0int })
        + (if self.section_live(u) { 1int } else { 0int })
        + (if self.interval_live(u) { 1int } else { 0int })
        + (if self.code_block_live(u) { 1int } else { 0int })
        + (if self.data_block_live(u) { 1int } else { 0int })
        + (if self.proxy_block_live(u) { 1int } else { 0int })
        + (if self.symbol_live(u) { 1int } else { 0int })
    }

    /// True when the identifier names a live node of any kind.
    pub open spec fn live(self, u: u128) -> bool {
        ||| self.ir_live(u)
        ||| self.module_live(u)
        ||| self.section_live(u)
        ||| self.interval_live(u)
        ||| self.code_block_live(u)
        ||| self.data_block_live(u)
        ||| self.proxy_block_live(u)
        ||| self.symbol_live(u)
    }

    /// An identifier names a node of at most one kind.
    pub open spec fn kinds_disjoint(self) -> bool {
        forall|u: u128| #[trigger] self.kind_count(u) <= 1
    }

    pub open spec fn module_child_ok(self, c: u128, p: u128) -> bool {
        &&& self.module_live(c)
        &&& self.module_nodes()[c].parent == Some(p)
    }

    pub open spec fn section_child_ok(self, c: u128, p: u128) -> bool {
        &&& self.section_live(c)
        &&& self.section_nodes()[c].parent == Some(p)
    }

    pub open spec fn symbol_child_ok(self, c: u128, p: u128) -> bool {
        &&& self.symbol_live(c)
        &&& self.symbol_nodes()[c].parent == Some(p)
    }

    pub open spec fn proxy_block_child_ok(self, c: u128, p: u128) -> bool {
        &&& self.proxy_block_live(c)
        &&& self.proxy_block_nodes()[c].parent == Some(p)
    }

    pub open spec fn interval_child_ok(self, c: u128, p: u128) -> bool {
        &&& self.interval_live(c)
        &&& self.interval_nodes()[c].parent == Some(p)
    }

    pub open spec fn code_block_child_ok(self, c: u128, p: u128) -> bool {
        &&& self.code_block_live(c)
        &&& self.code_block_nodes()[c].parent == Some(p)
    }

    pub open spec fn data_block_child_ok(self, c: u128, p: u128) -> bool {
        &&& self.data_block_live(c)
        &&& self.data_block_nodes()[c].parent == Some(p)
    }

    /// One root record lists distinct, live modules, each of which points
    /// back at it.
    pub open spec fn ir_node_ok(self, p: u128) -> bool {
        let ch = self.ir_nodes()[p].modules;
        &&& ch.no_duplicates()
        &&& forall|i: int| 0 <= i < ch.len() ==> self.module_child_ok(#[trigger] ch[i], p)
    }

    pub open spec fn ir_children_ok(self) -> bool {
        forall|p: u128| #[trigger] self.ir_live(p) ==> self.ir_node_ok(p)
    }

    /// One module lists distinct, live sections, symbols and proxy blocks,
    /// each of which points back at it.
    pub open spec fn module_node_ok(self, p: u128) -> bool {
        let n = self.module_nodes()[p];
        &&& n.sections.no_duplicates()
        &&& (forall|i: int|
            0 <= i < n.sections.len() ==> self.section_child_ok(#[trigger] n.sections[i], p))
        &&& n.symbols.no_duplicates()
        &&& (forall|i: int|
            0 <= i < n.symbols.len() ==> self.symbol_child_ok(#[trigger] n.symbols[i], p))
        &&& n.proxy_blocks.no_duplicates()
        &&& (forall|i: int|
            0 <= i < n.proxy_blocks.len() ==> self.proxy_block_child_ok(
                #[trigger] n.proxy_blocks[i],
                p,
            ))
    }

    pub open spec fn module_children_ok(self) -> bool {
        forall|p: u128| #[trigger] self.module_live(p) ==> self.module_node_ok(p)
    }

    /// One section lists distinct, live byte intervals, each of which
    /// points back at it.
    pub open spec fn section_node_ok(self, p: u128) -> bool {
        let ch = self.section_nodes()[p].byte_intervals;
        &&& ch.no_duplicates()
        &&& forall|i: int| 0 <= i < ch.len() ==> self.interval_child_ok(#[trigger] ch[i], p)
    }

    pub open spec fn section_children_ok(self) -> bool {
        forall|p: u128| #[trigger] self.section_live(p) ==> self.section_node_ok(p)
    }

    /// One byte interval lists distinct, live code and data blocks, each of
    /// which points back at it.
    pub open spec fn interval_node_ok(self, p: u128) -> bool {
        let n = self.interval_nodes()[p];
        &&& n.code_blocks.no_duplicates()
        &&& (forall|i: int|
            0 <= i < n.code_blocks.len() ==> self.code_block_child_ok(
                #[trigger] n.code_blocks[i],
                p,
            ))
        &&& n.data_blocks.no_duplicates()
        &&& (forall|i: int|
            0 <= i < n.data_blocks.len() ==> self.data_block_child_ok(
                #[trigger] n.data_blocks[i],
                p,
            ))
    }

    pub open spec fn interval_children_ok(self) -> bool {
        forall|p: u128| #[trigger] self.interval_live(p) ==> self.interval_node_ok(p)
    }

    /// A module's up-reference, when set, names a live root record whose
    /// module list contains the module.
    pub open spec fn module_parents_ok(self) -> bool {
        forall|c: u128| #[trigger] self.module_live(c) ==> match self.module_nodes()[c].parent {
            Some(p) => self.ir_live(p) && self.ir_nodes()[p].modules.contains(c),
            None => true,
        }
    }

    pub open spec fn section_parents_ok(self) -> bool {
        forall|c: u128| #[trigger] self.section_live(c) ==> match self.section_nodes()[c].parent {
            Some(p) => self.module_live(p) && self.module_nodes()[p].sections.contains(c),
            None => true,
        }
    }

    pub open spec fn symbol_parents_ok(self) -> bool {
        forall|c: u128| #[trigger] self.symbol_live(c) ==> match self.symbol_nodes()[c].parent {
            Some(p) => self.module_live(p) && self.module_nodes()[p].symbols.contains(c),
            None => true,
        }
    }

    pub open spec fn proxy_block_parents_ok(self) -> bool {
        forall|c: u128| #[trigger] self.proxy_block_live(c) ==> match self.proxy_block_nodes()[c].parent {
            Some(p) => self.module_live(p) && self.module_nodes()[p].proxy_blocks.contains(c),
            None => true,
        }
    }

    pub open spec fn interval_parents_ok(self) -> bool {
        forall|c: u128| #[trigger] self.interval_live(c) ==> match self.interval_nodes()[c].parent {
            Some(p) => self.section_live(p) && self.section_nodes()[p].byte_intervals.contains(c),
            None => true,
        }
    }

    pub open spec fn code_block_parents_ok(self) -> bool {
        forall|c: u128| #[trigger] self.code_block_live(c) ==> match self.code_block_nodes()[c].parent {
            Some(p) => self.interval_live(p) && self.interval_nodes()[p].code_blocks.contains(c),
            None => true,
        }
    }

    pub open spec fn data_block_parents_ok(self) -> bool {
        forall|c: u128| #[trigger] self.data_block_live(c) ==> match self.data_block_nodes()[c].parent {
            Some(p) => self.interval_live(p) && self.interval_nodes()[p].data_blocks.contains(c),
            None => true,
        }
    }

    /// Local invariants of individual nodes.
    pub open spec fn nodes_ok(self) -> bool {
        &&& (forall|u: u128| #[trigger] self.section_live(u) ==> self.section_nodes()[u].inv())
        &&& (forall|u: u128| #[trigger] self.interval_live(u) ==> self.interval_nodes()[u].inv())
    }

    /// Well-formedness of the whole registry.
    pub open spec fn wf(self) -> bool {
        &&& self.kinds_disjoint()
        &&& self.ir_children_ok()
        &&& self.module_children_ok()
        &&& self.section_children_ok()
        &&& self.interval_children_ok()
        &&& self.module_parents_ok()
        &&& self.section_parents_ok()
        &&& self.symbol_parents_ok()
        &&& self.proxy_block_parents_ok()
        &&& self.interval_parents_ok()
        &&& self.code_block_parents_ok()
        &&& self.data_block_parents_ok()
        &&& self.nodes_ok()
    }

    /// The registries of `self` and `other` agree on every key except
    /// possibly `u`.
    pub open spec fn agrees_except(self, other: Context, u: u128) -> bool {
        &&& (forall|v: u128| v != u ==> self.ir_live(v) == other.ir_live(v))
        &&& (forall|v: u128| v != u ==> self.module_live(v) == other.module_live(v))
        &&& (forall|v: u128| v != u ==> self.section_live(v) == other.section_live(v))
        &&& (forall|v: u128| v != u ==> self.interval_live(v) == other.interval_live(v))
        &&& (forall|v: u128| v != u ==> self.code_block_live(v) == other.code_block_live(v))
        &&& (forall|v: u128| v != u ==> self.data_block_live(v) == other.data_block_live(v))
        &&& (forall|v: u128| v != u ==> self.proxy_block_live(v) == other.proxy_block_live(v))
        &&& (forall|v: u128| v != u ==> self.symbol_live(v) == other.symbol_live(v))
    }

    /// A fresh, empty context: no tree, an empty registry.
    pub fn new() -> (r: Context)
        ensures
            r.wf(),
            r.ir_nodes() == Map::<u128, IrNodeV>::empty(),
            r.module_nodes() == Map::<u128, ModuleNodeV>::empty(),
            r.section_nodes() == Map::<u128, SectionNodeV>::empty(),
            r.interval_nodes() == Map::<u128, ByteIntervalNodeV>::empty(),
            r.code_block_nodes() == Map::<u128, CodeBlock>::empty(),
            r.data_block_nodes() == Map::<u128, DataBlock>::empty(),
            r.proxy_block_nodes() == Map::<u128, ProxyBlock>::empty(),
            r.symbol_nodes() == Map::<u128, SymbolNodeV>::empty(),
    {
        let r = Context {
            irs: HashMap::new(),
            modules: HashMap::new(),
            sections: HashMap::new(),
            byte_intervals: HashMap::new(),
            code_blocks: HashMap::new(),
            data_blocks: HashMap::new(),
            proxy_blocks: HashMap::new(),
            symbols: HashMap::new(),
        };
        proof {
            assert(r.ir_nodes() =~= Map::<u128, IrNodeV>::empty());
            assert(r.module_nodes() =~= Map::<u128, ModuleNodeV>::empty());
            assert(r.section_nodes() =~= Map::<u128, SectionNodeV>::empty());
            assert(r.interval_nodes() =~= Map::<u128, ByteIntervalNodeV>::empty());
            assert(r.code_block_nodes() =~= Map::<u128, CodeBlock>::empty());
            assert(r.data_block_nodes() =~= Map::<u128, DataBlock>::empty());
            assert(r.proxy_block_nodes() =~= Map::<u128, ProxyBlock>::empty());
            assert(r.symbol_nodes() =~= Map::<u128, SymbolNodeV>::empty());
        }
        r
    }

    /// True when the identifier is registered under any of the eight kinds.
    pub(crate) fn contains_any(&self, u: u128) -> (r: bool)
        ensures
            r == self.live(u),
    {
        self.irs.contains_key(&u) || self.modules.contains_key(&u) || self.sections.contains_key(
            &u,
        ) || self.byte_intervals.contains_key(&u) || self.code_blocks.contains_key(&u)
            || self.data_blocks.contains_key(&u) || self.proxy_blocks.contains_key(&u)
            || self.symbols.contains_key(&u)
    }

    /// Draw a random identifier that is unused in this registry.
    ///
    /// A few random draws suffice in practice; a sequential scan bounded by
    /// the registry's size serves as a provably terminating fallback, since
    /// among any `n + 1` distinct candidates at least one is not among the
    /// `n` live identifiers.
    pub(crate) fn fresh_uuid(&self) -> (u: u128)
        ensures
            !self.live(u),
    {
        let mut tries: u64 = 16;
        while tries > 0
            decreases tries,
        {
            let u = random_uuid_bits();
            if !self.contains_any(u) {
                return u;
            }
            tries = tries - 1;
        }
        let total: u128 = self.irs.len() as u128 + self.modules.len() as u128
            + self.sections.len() as u128 + self.byte_intervals.len() as u128
            + self.code_blocks.len() as u128 + self.data_blocks.len() as u128
            + self.proxy_blocks.len() as u128 + self.symbols.len() as u128;
        let mut i: u128 = 0;
        while i <= total
            invariant
                i <= total + 1,
                total <= 8 * (u64::MAX as u128),
                total == self.irs@.len() + self.modules@.len() + self.sections@.len()
                    + self.byte_intervals@.len() + self.code_blocks@.len()
                    + self.data_blocks@.len() + self.proxy_blocks@.len() + self.symbols@.len(),
                forall|j: u128| j < i ==> self.live(j),
            decreases total + 1 - i,
        {
            if !self.contains_any(i) {
                return i;
            }
            i = i + 1;
        }
        // If every identifier in `0 ..= total` were live, the registry
        // would hold more than `total` entries: the loop cannot run out.
        proof {
            let d = self.irs@.dom().union(self.modules@.dom()).union(self.sections@.dom()).union(
            self.byte_intervals@.dom(),
        ).union(self.code_blocks@.dom()).union(self.data_blocks@.dom()).union(
            self.proxy_blocks@.dom(),
        ).union(self.symbols@.dom());
        let s = Set::new(|x: u128| (x as int) < total as int + 1);
        assert forall|x: u128| s.contains(x) implies d.contains(x) by {
            assert(self.live(x));
            assert(self.ir_live(x) ==> self.irs@.dom().contains(x));
            assert(self.module_live(x) ==> self.modules@.dom().contains(x));
            assert(self.section_live(x) ==> self.sections@.dom().contains(x));
            assert(self.interval_live(x) ==> self.byte_intervals@.dom().contains(x));
            assert(self.code_block_live(x) ==> self.code_blocks@.dom().contains(x));
            assert(self.data_block_live(x) ==> self.data_blocks@.dom().contains(x));
            assert(self.proxy_block_live(x) ==> self.proxy_blocks@.dom().contains(x));
            assert(self.symbol_live(x) ==> self.symbols@.dom().contains(x));
        }
        vstd::set_lib::lemma_len_union(self.irs@.dom(), self.modules@.dom());
        vstd::set_lib::lemma_len_union(self.irs@.dom().union(self.modules@.dom()), self.sections@.dom());
        vstd::set_lib::lemma_len_union(
            self.irs@.dom().union(self.modules@.dom()).union(self.sections@.dom()),
            self.byte_intervals@.dom(),
        );
        vstd::set_lib::lemma_len_union(
            self.irs@.dom().union(self.modules@.dom()).union(self.sections@.dom()).union(
                self.byte_intervals@.dom(),
            ),
            self.code_blocks@.dom(),
        );
        vstd::set_lib::lemma_len_union(
            self.irs@.dom().union(self.modules@.dom()).union(self.sections@.dom()).union(
                self.byte_intervals@.dom(),
            ).union(self.code_blocks@.dom()),
            self.data_blocks@.dom(),
        );
        vstd::set_lib::lemma_len_union(
            self.irs@.dom().union(self.modules@.dom()).union(self.sections@.dom()).union(
                self.byte_intervals@.dom(),
            ).union(self.code_blocks@.dom()).union(self.data_blocks@.dom()),
            self.proxy_blocks@.dom(),
        );
        vstd::set_lib::lemma_len_union(
            self.irs@.dom().union(self.modules@.dom()).union(self.sections@.dom()).union(
                self.byte_intervals@.dom(),
            ).union(self.code_blocks@.dom()).union(self.data_blocks@.dom()).union(
                self.proxy_blocks@.dom(),
            ),
            self.symbols@.dom(),
        );
        assert(d.finite());
        assert(d.len() <= total);
            lemma_u128_range_len(total as int + 1);
            vstd::set_lib::lemma_len_subset(s, d);
            assert(total as int + 1 <= total as int);
        }
        vstd::pervasive::unreached()
    }

    /// Register a fresh, childless root record under `u`.
    pub(crate) fn insert_ir(&mut self, u: u128, node: IR)
        requires
            old(self).wf(),
            !old(self).live(u),
            node@.modules.len() == 0,
        ensures
            final(self).wf(),
            final(self).ir_nodes() == old(self).ir_nodes().insert(u, node@),
            final(self).module_nodes() == old(self).module_nodes(),
            final(self).section_nodes() == old(self).section_nodes(),
            final(self).interval_nodes() == old(self).interval_nodes(),
            final(self).code_block_nodes() == old(self).code_block_nodes(),
            final(self).data_block_nodes() == old(self).data_block_nodes(),
            final(self).proxy_block_nodes() == old(self).proxy_block_nodes(),
            final(self).symbol_nodes() == old(self).symbol_nodes(),
    {
        let ghost nv = node@;
        self.irs.insert(u, node);
        proof {
            let c1 = *old(self);
            let c2 = *self;
            assert(c2.ir_nodes() =~= c1.ir_nodes().insert(u, nv));
            lemma_wf_insert_ir(c1, c2, u, nv);
        }
    }

    /// Register a fresh, detached, childless section record under `u`.
    pub(crate) fn insert_section(&mut self, u: u128, node: Section)
        requires
            old(self).wf(),
            !old(self).live(u),
            node@.parent == None::<u128>,
            node@.byte_intervals.len() == 0,
            node@.inv(),
        ensures
            final(self).wf(),
            final(self).section_nodes() == old(self).section_nodes().insert(u, node@),
            final(self).ir_nodes() == old(self).ir_nodes(),
            final(self).module_nodes() == old(self).module_nodes(),
            final(self).interval_nodes() == old(self).interval_nodes(),
            final(self).code_block_nodes() == old(self).code_block_nodes(),
            final(self).data_block_nodes() == old(self).data_block_nodes(),
            final(self).proxy_block_nodes() == old(self).proxy_block_nodes(),
            final(self).symbol_nodes() == old(self).symbol_nodes(),
    {
        let ghost nv = node@;
        self.sections.insert(u, node);
        proof {
            let c1 = *old(self);
            let c2 = *self;
            assert(c2.section_nodes() =~= c1.section_nodes().insert(u, nv));
            lemma_wf_insert_section(c1, c2, u, nv);
        }
    }

    /// Register a fresh, detached, childless byte-interval record under
    /// `u`.
    pub(crate) fn insert_byte_interval(&mut self, u: u128, node: ByteInterval)
        requires
            old(self).wf(),
            !old(self).live(u),
            node@.parent == None::<u128>,
            node@.code_blocks.len() == 0,
            node@.data_blocks.len() == 0,
            node@.inv(),
        ensures
            final(self).wf(),
            final(self).interval_nodes() == old(self).interval_nodes().insert(u, node@),
            final(self).ir_nodes() == old(self).ir_nodes(),
            final(self).module_nodes() == old(self).module_nodes(),
            final(self).section_nodes() == old(self).section_nodes(),
            final(self).code_block_nodes() == old(self).code_block_nodes(),
            final(self).data_block_nodes() == old(self).data_block_nodes(),
            final(self).proxy_block_nodes() == old(self).proxy_block_nodes(),
            final(self).symbol_nodes() == old(self).symbol_nodes(),
    {
        let ghost nv = node@;
        self.byte_intervals.insert(u, node);
        proof {
            let c1 = *old(self);
            let c2 = *self;
            assert(c2.interval_nodes() =~= c1.interval_nodes().insert(u, nv));
            lemma_wf_insert_byte_interval(c1, c2, u, nv);
        }
    }

    /// Register a fresh, detached code-block record under `u`.
    pub(crate) fn insert_code_block(&mut self, u: u128, node: CodeBlock)
        requires
            old(self).wf(),
            !old(self).live(u),
            node.parent == None::<u128>,
        ensures
            final(self).wf(),
            final(self).code_block_nodes() == old(self).code_block_nodes().insert(u, node),
            final(self).ir_nodes() == old(self).ir_nodes(),
            final(self).module_nodes() == old(self).module_nodes(),
            final(self).section_nodes() == old(self).section_nodes(),
            final(self).interval_nodes() == old(self).interval_nodes(),
            final(self).data_block_nodes() == old(self).data_block_nodes(),
            final(self).proxy_block_nodes() == old(self).proxy_block_nodes(),
            final(self).symbol_nodes() == old(self).symbol_nodes(),
    {
        self.code_blocks.insert(u, node);
        proof {
            let c1 = *old(self);
            let c2 = *self;
            assert(c2.code_block_nodes() =~= c1.code_block_nodes().insert(u, node));
            lemma_wf_insert_code_block(c1, c2, u, node);
        }
    }

    /// Register a fresh, detached data-block record under `u`.
    pub(crate) fn insert_data_block(&mut self, u: u128, node: DataBlock)
        requires
            old(self).wf(),
            !old(self).live(u),
            node.parent == None::<u128>,
        ensures
            final(self).wf(),
            final(self).data_block_nodes() == old(self).data_block_nodes().insert(u, node),
            final(self).ir_nodes() == old(self).ir_nodes(),
            final(self).module_nodes() == old(self).module_nodes(),
            final(self).section_nodes() == old(self).section_nodes(),
            final(self).interval_nodes() == old(self).interval_nodes(),
            final(self).code_block_nodes() == old(self).code_block_nodes(),
            final(self).proxy_block_nodes() == old(self).proxy_block_nodes(),
            final(self).symbol_nodes() == old(self).symbol_nodes(),
    {
        self.data_blocks.insert(u, node);
        proof {
            let c1 = *old(self);
            let c2 = *self;
            assert(c2.data_block_nodes() =~= c1.data_block_nodes().insert(u, node));
            lemma_wf_insert_data_block(c1, c2, u, node);
        }
    }

    /// Register a fresh, detached proxy-block record under `u`.
    pub(crate) fn insert_proxy_block(&mut self, u: u128, node: ProxyBlock)
        requires
            old(self).wf(),
            !old(self).live(u),
            node.parent == None::<u128>,
        ensures
            final(self).wf(),
            final(self).proxy_block_nodes() == old(self).proxy_block_nodes().insert(u, node),
            final(self).ir_nodes() == old(self).ir_nodes(),
            final(self).module_nodes() == old(self).module_nodes(),
            final(self).section_nodes() == old(self).section_nodes(),
            final(self).interval_nodes() == old(self).interval_nodes(),
            final(self).code_block_nodes() == old(self).code_block_nodes(),
            final(self).data_block_nodes() == old(self).data_block_nodes(),
            final(self).symbol_nodes() == old(self).symbol_nodes(),
    {
        self.proxy_blocks.insert(u, node);
        proof {
            let c1 = *old(self);
            let c2 = *self;
            assert(c2.proxy_block_nodes() =~= c1.proxy_block_nodes().insert(u, node));
            lemma_wf_insert_proxy_block(c1, c2, u, node);
        }
    }

    /// Register a fresh, detached symbol record under `u`.
    pub(crate) fn insert_symbol(&mut self, u: u128, node: Symbol)
        requires
            old(self).wf(),
            !old(self).live(u),
            node@.parent == None::<u128>,
        ensures
            final(self).wf(),
            final(self).symbol_nodes() == old(self).symbol_nodes().insert(u, node@),
            final(self).ir_nodes() == old(self).ir_nodes(),
            final(self).module_nodes() == old(self).module_nodes(),
            final(self).section_nodes() == old(self).section_nodes(),
            final(self).interval_nodes() == old(self).interval_nodes(),
            final(self).code_block_nodes() == old(self).code_block_nodes(),
            final(self).data_block_nodes() == old(self).data_block_nodes(),
            final(self).proxy_block_nodes() == old(self).proxy_block_nodes(),
    {
        let ghost nv = node@;
        self.symbols.insert(u, node);
        proof {
            let c1 = *old(self);
            let c2 = *self;
            assert(c2.symbol_nodes() =~= c1.symbol_nodes().insert(u, nv));
            lemma_wf_insert_symbol(c1, c2, u, nv);
        }
    }

    /// Register a fresh, detached, childless module record under `u`.
    pub(crate) fn insert_module(&mut self, u: u128, node: Module)
        requires
            old(self).wf(),
            !old(self).live(u),
            node@.parent == None::<u128>,
            node@.sections.len() == 0,
            node@.symbols.len() == 0,
            node@.proxy_blocks.len() == 0,
        ensures
            final(self).wf(),
            final(self).module_nodes() == old(self).module_nodes().insert(u, node@),
            final(self).ir_nodes() == old(self).ir_nodes(),
            final(self).section_nodes() == old(self).section_nodes(),
            final(self).interval_nodes() == old(self).interval_nodes(),
            final(self).code_block_nodes() == old(self).code_block_nodes(),
            final(self).data_block_nodes() == old(self).data_block_nodes(),
            final(self).proxy_block_nodes() == old(self).proxy_block_nodes(),
            final(self).symbol_nodes() == old(self).symbol_nodes(),
    {
        let ghost nv = node@;
        self.modules.insert(u, node);
        proof {
            let c1 = *old(self);
            let c2 = *self;
            assert(c2.module_nodes() =~= c1.module_nodes().insert(u, nv));
            lemma_wf_insert_module(c1, c2, u, nv);
        }
    }

    /// Destroy a root record together with its whole tree, removing every
    /// identifier of the tree from the registry.  An unknown identifier
    /// leaves the context unchanged.
    pub fn release_ir(&mut self, ir: IRRef)
        requires
            old(self).wf(),
        ensures
            final(self).wf(),
            ({
                let u = ir.uuid.0;
                if old(self).ir_live(u) {
                    &&& final(self).ir_nodes() == old(self).ir_nodes().remove(u)
                    &&& (forall|v: u128|
                        final(self).module_live(v) <==> (old(self).module_live(v) && old(
                            self,
                        ).module_nodes()[v].parent != Some(u)))
                    &&& (forall|v: u128|
                        final(self).module_live(v) ==> final(self).module_nodes()[v] == old(
                            self,
                        ).module_nodes()[v])
                    &&& (forall|v: u128|
                        final(self).section_live(v) <==> (old(self).section_live(v)
                            && match old(self).section_nodes()[v].parent {
                            Some(m) => old(self).module_nodes()[m].parent != Some(u),
                            None => true,
                        }))
                    &&& (forall|v: u128|
                        final(self).section_live(v) ==> final(self).section_nodes()[v] == old(
                            self,
                        ).section_nodes()[v])
                    &&& (forall|v: u128|
                        final(self).symbol_live(v) <==> (old(self).symbol_live(v)
                            && match old(self).symbol_nodes()[v].parent {
                            Some(m) => old(self).module_nodes()[m].parent != Some(u),
                            None => true,
                        }))
                    &&& (forall|v: u128|
                        final(self).symbol_live(v) ==> final(self).symbol_nodes()[v] == old(
                            self,
                        ).symbol_nodes()[v])
                    &&& (forall|v: u128|
                        final(self).proxy_block_live(v) <==> (old(self).proxy_block_live(v)
                            && match old(self).proxy_block_nodes()[v].parent {
                            Some(m) => old(self).module_nodes()[m].parent != Some(u),
                            None => true,
                        }))
                    &&& (forall|v: u128|
                        final(self).proxy_block_live(v) ==> final(self).proxy_block_nodes()[v]
                            == old(self).proxy_block_nodes()[v])
                    &&& (forall|v: u128|
                        final(self).interval_live(v) <==> (old(self).interval_live(v)
                            && match old(self).interval_nodes()[v].parent {
                            Some(s) => match old(self).section_nodes()[s].parent {
                                Some(m) => old(self).module_nodes()[m].parent != Some(u),
                                None => true,
                            },
                            None => true,
                        }))
                    &&& (forall|v: u128|
                        final(self).interval_live(v) ==> final(self).interval_nodes()[v] == old(
                            self,
                        ).interval_nodes()[v])
                    &&& (forall|v: u128|
                        final(self).code_block_live(v) <==> (old(self).code_block_live(v)
                            && match old(self).code_block_nodes()[v].parent {
                            Some(p) => match old(self).interval_nodes()[p].parent {
                                Some(s) => match old(self).section_nodes()[s].parent {
                                    Some(m) => old(self).module_nodes()[m].parent != Some(u),
                                    None => true,
                                },
                                None => true,
                            },
                            None => true,
                        }))
                    &&& (forall|v: u128|
                        final(self).code_block_live(v) ==> final(self).code_block_nodes()[v]
                            == old(self).code_block_nodes()[v])
                    &&& (forall|v: u128|
                        final(self).data_block_live(v) <==> (old(self).data_block_live(v)
                            && match old(self).data_block_nodes()[v].parent {
                            Some(p) => match old(self).interval_nodes()[p].parent {
                                Some(s) => match old(self).section_nodes()[s].parent {
                                    Some(m) => old(self).module_nodes()[m].parent != Some(u),
                                    None => true,
                                },
                                None => true,
                            },
                            None => true,
                        }))
                    &&& (forall|v: u128|
                        final(self).data_block_live(v) ==> final(self).data_block_nodes()[v]
                            == old(self).data_block_nodes()[v])
                } else {
                    *final(self) == *old(self)
                }
            }),
    {
        let u = ir.uuid.0;
        if !self.irs.contains_key(&u) {
            return ;
        }
        let ghost c0 = *self;
        let iref = IRRef { uuid: ir.uuid };
        let ghost mods0 = c0.ir_nodes()[u].modules;
        proof {
            assert(c0.ir_live(u));
            assert(c0.ir_node_ok(u));
            assert(mods0.take(mods0.len() as int) =~= mods0);
            assert(self.ir_nodes() =~= c0.ir_nodes().insert(
                u,
                IrNodeV { modules: mods0.take(mods0.len() as int), ..c0.ir_nodes()[u] },
            ));
            assert(mods0.skip(mods0.len() as int) =~= Seq::<u128>::empty());
        }
        let mut t: usize = self.irs.get(&u).unwrap().modules.len();
        while t > 0
            invariant
                iref.uuid.0 == u,
                self.wf(),
                self.ir_live(u),
                t <= mods0.len(),
                self.ir_nodes() == c0.ir_nodes().insert(
                    u,
                    IrNodeV { modules: mods0.take(t as int), ..c0.ir_nodes()[u] },
                ),
                forall|v: u128|
                    self.module_live(v) <==> (c0.module_live(v) && !mods0.skip(t as int).contains(
                        v,
                    )),
                forall|v: u128|
                    self.module_live(v) ==> self.module_nodes()[v] == c0.module_nodes()[v],
                forall|v: u128|
                    self.section_live(v) <==> (c0.section_live(v) && match c0.section_nodes()[
                        v
                    ].parent {
                        Some(m) => !mods0.skip(t as int).contains(m),
                        None => true,
                    }),
                forall|v: u128|
                    self.section_live(v) ==> self.section_nodes()[v] == c0.section_nodes()[v],
                forall|v: u128|
                    self.symbol_live(v) <==> (c0.symbol_live(v) && match c0.symbol_nodes()[
                        v
                    ].parent {
                        Some(m) => !mods0.skip(t as int).contains(m),
                        None => true,
                    }),
                forall|v: u128|
                    self.symbol_live(v) ==> self.symbol_nodes()[v] == c0.symbol_nodes()[v],
                forall|v: u128|
                    self.proxy_block_live(v) <==> (c0.proxy_block_live(v)
                        && match c0.proxy_block_nodes()[v].parent {
                        Some(m) => !mods0.skip(t as int).contains(m),
                        None => true,
                    }),
                forall|v: u128|
                    self.proxy_block_live(v) ==> self.proxy_block_nodes()[v]
                        == c0.proxy_block_nodes()[v],
                forall|v: u128|
                    self.interval_live(v) <==> (c0.interval_live(v) && match c0.interval_nodes()[
                        v
                    ].parent {
                        Some(s) => match c0.section_nodes()[s].parent {
                            Some(m) => !mods0.skip(t as int).contains(m),
                            None => true,
                        },
                        None => true,
                    }),
                forall|v: u128|
                    self.interval_live(v) ==> self.interval_nodes()[v] == c0.interval_nodes()[v],
                forall|v: u128|
                    self.code_block_live(v) <==> (c0.code_block_live(v)
                        && match c0.code_block_nodes()[v].parent {
                        Some(p) => match c0.interval_nodes()[p].parent {
                            Some(s) => match c0.section_nodes()[s].parent {
                                Some(m) => !mods0.skip(t as int).contains(m),
                                None => true,
                            },
                            None => true,
                        },
                        None => true,
                    }),
                forall|v: u128|
                    self.code_block_live(v) ==> self.code_block_nodes()[v]
                        == c0.code_block_nodes()[v],
                forall|v: u128|
                    self.data_block_live(v) <==> (c0.data_block_live(v)
                        && match c0.data_block_nodes()[v].parent {
                        Some(p) => match c0.interval_nodes()[p].parent {
                            Some(s) => match c0.section_nodes()[s].parent {
                                Some(m) => !mods0.skip(t as int).contains(m),
                                None => true,
                            },
                            None => true,
                        },
                        None => true,
                    }),
                forall|v: u128|
                    self.data_block_live(v) ==> self.data_block_nodes()[v]
                        == c0.data_block_nodes()[v],
                c0.wf(),
                c0.ir_live(u),
                mods0 == c0.ir_nodes()[u].modules,
            decreases t,
        {
            let node = self.irs.get(&u).unwrap();
            let c = node.modules[t - 1];
            proof {
                assert(self.ir_nodes()[u].modules[t - 1] == mods0[t - 1]);
                assert(self.ir_nodes()[u].modules.contains(c));
            }
            let ghost mid0 = *self;
            let r = iref.remove_module(self, Uuid(c));
            proof {
                assert(r is Some);
                let list = mid0.ir_nodes()[u].modules;
                list.index_of_first_ensures(c);
                assert(mid0.ir_node_ok(u));
                assert(list.no_duplicates());
                assert(list.index_of_first(c) == Some(t as int - 1));
                assert(list.remove_value(c) =~= mods0.take(t as int - 1));
                assert(self.ir_nodes() =~= c0.ir_nodes().insert(
                    u,
                    IrNodeV { modules: mods0.take(t as int - 1), ..c0.ir_nodes()[u] },
                ));
            }
            let ghost mid = *self;
            self.release_module(ModuleRef { uuid: Uuid(c) });
            proof {
                assert(mid.module_live(c) && mid.module_nodes()[c].parent is None);
                assert(mid0.module_live(c));
                assert(mid0.module_nodes()[c] == c0.module_nodes()[c]);
                assert forall|v: u128|
                    self.module_live(v) <==> (c0.module_live(v) && !mods0.skip(
                        t as int - 1,
                    ).contains(v)) by {
                    lemma_contains_cons(c, mods0.skip(t as int), mods0.skip(t as int - 1), v);
                }
                assert forall|v: u128|
                    self.module_live(v) implies self.module_nodes()[v]
                    == c0.module_nodes()[v] by {
                    assert(mid.module_live(v));
                    assert(v != c);
                    assert(mid.module_nodes()[v] == mid0.module_nodes()[v]);
                }
                assert forall|v: u128|
                    self.section_live(v) <==> (c0.section_live(v)
                        && match c0.section_nodes()[v].parent {
                        Some(m) => !mods0.skip(t as int - 1).contains(m),
                        None => true,
                    }) by {
                    if mid.section_live(v) {
                        assert(mid.section_nodes()[v] == c0.section_nodes()[v]);
                    }
                    match c0.section_nodes()[v].parent {
                        Some(m) => {
                            lemma_contains_cons(
                                c,
                                mods0.skip(t as int),
                                mods0.skip(t as int - 1),
                                m,
                            );
                        },
                        None => {},
                    }
                }
                assert forall|v: u128|
                    self.section_live(v) implies self.section_nodes()[v]
                    == c0.section_nodes()[v] by {
                    assert(mid.section_live(v));
                }
                assert forall|v: u128|
                    self.symbol_live(v) <==> (c0.symbol_live(v)
                        && match c0.symbol_nodes()[v].parent {
                        Some(m) => !mods0.skip(t as int - 1).contains(m),
                        None => true,
                    }) by {
                    if mid.symbol_live(v) {
                        assert(mid.symbol_nodes()[v] == c0.symbol_nodes()[v]);
                    }
                    match c0.symbol_nodes()[v].parent {
                        Some(m) => {
                            lemma_contains_cons(
                                c,
                                mods0.skip(t as int),
                                mods0.skip(t as int - 1),
                                m,
                            );
                        },
                        None => {},
                    }
                }
                assert forall|v: u128|
                    self.symbol_live(v) implies self.symbol_nodes()[v] == c0.symbol_nodes()[v] by {
                    assert(mid.symbol_live(v));
                }
                assert forall|v: u128|
                    self.proxy_block_live(v) <==> (c0.proxy_block_live(v)
                        && match c0.proxy_block_nodes()[v].parent {
                        Some(m) => !mods0.skip(t as int - 1).contains(m),
                        None => true,
                    }) by {
                    if mid.proxy_block_live(v) {
                        assert(mid.proxy_block_nodes()[v] == c0.proxy_block_nodes()[v]);
                    }
                    match c0.proxy_block_nodes()[v].parent {
                        Some(m) => {
                            lemma_contains_cons(
                                c,
                                mods0.skip(t as int),
                                mods0.skip(t as int - 1),
                                m,
                            );
                        },
                        None => {},
                    }
                }
                assert forall|v: u128|
                    self.proxy_block_live(v) implies self.proxy_block_nodes()[v]
                    == c0.proxy_block_nodes()[v] by {
                    assert(mid.proxy_block_live(v));
                }
                assert forall|v: u128|
                    self.interval_live(v) <==> (c0.interval_live(v)
                        && match c0.interval_nodes()[v].parent {
                        Some(s) => match c0.section_nodes()[s].parent {
                            Some(m) => !mods0.skip(t as int - 1).contains(m),
                            None => true,
                        },
                        None => true,
                    }) by {
                    if mid.interval_live(v) {
                        assert(mid.interval_nodes()[v] == c0.interval_nodes()[v]);
                        match c0.interval_nodes()[v].parent {
                            Some(s) => {
                                assert(mid.section_live(s));
                                assert(mid.section_nodes()[s] == c0.section_nodes()[s]);
                            },
                            None => {},
                        }
                    }
                    match c0.interval_nodes()[v].parent {
                        Some(s) => {
                            match c0.section_nodes()[s].parent {
                                Some(m) => {
                                    lemma_contains_cons(
                                        c,
                                        mods0.skip(t as int),
                                        mods0.skip(t as int - 1),
                                        m,
                                    );
                                },
                                None => {},
                            }
                        },
                        None => {},
                    }
                }
                assert forall|v: u128|
                    self.interval_live(v) implies self.interval_nodes()[v]
                    == c0.interval_nodes()[v] by {
                    assert(mid.interval_live(v));
                }
                assert forall|v: u128|
                    self.code_block_live(v) <==> (c0.code_block_live(v)
                        && match c0.code_block_nodes()[v].parent {
                        Some(p) => match c0.interval_nodes()[p].parent {
                            Some(s) => match c0.section_nodes()[s].parent {
                                Some(m) => !mods0.skip(t as int - 1).contains(m),
                                None => true,
                            },
                            None => true,
                        },
                        None => true,
                    }) by {
                    if mid.code_block_live(v) {
                        assert(mid.code_block_nodes()[v] == c0.code_block_nodes()[v]);
                        match c0.code_block_nodes()[v].parent {
                            Some(p) => {
                                assert(mid.interval_live(p));
                                assert(mid.interval_nodes()[p] == c0.interval_nodes()[p]);
                                match c0.interval_nodes()[p].parent {
                                    Some(s) => {
                                        assert(mid.section_live(s));
                                        assert(mid.section_nodes()[s] == c0.section_nodes()[s]);
                                    },
                                    None => {},
                                }
                            },
                            None => {},
                        }
                    }
                    match c0.code_block_nodes()[v].parent {
                        Some(p) => {
                            match c0.interval_nodes()[p].parent {
                                Some(s) => {
                                    match c0.section_nodes()[s].parent {
                                        Some(m) => {
                                            lemma_contains_cons(
                                                c,
                                                mods0.skip(t as int),
                                                mods0.skip(t as int - 1),
                                                m,
                                            );
                                        },
                                        None => {},
                                    }
                                },
                                None => {},
                            }
                        },
                        None => {},
                    }
                }
                assert forall|v: u128|
                    self.code_block_live(v) implies self.code_block_nodes()[v]
                    == c0.code_block_nodes()[v] by {
                    assert(mid.code_block_live(v));
                }
                assert forall|v: u128|
                    self.data_block_live(v) <==> (c0.data_block_live(v)
                        && match c0.data_block_nodes()[v].parent {
                        Some(p) => match c0.interval_nodes()[p].parent {
                            Some(s) => match c0.section_nodes()[s].parent {
                                Some(m) => !mods0.skip(t as int - 1).contains(m),
                                None => true,
                            },
                            None => true,
                        },
                        None => true,
                    }) by {
                    if mid.data_block_live(v) {
                        assert(mid.data_block_nodes()[v] == c0.data_block_nodes()[v]);
                        match c0.data_block_nodes()[v].parent {
                            Some(p) => {
                                assert(mid.interval_live(p));
                                assert(mid.interval_nodes()[p] == c0.interval_nodes()[p]);
                                match c0.interval_nodes()[p].parent {
                                    Some(s) => {
                                        assert(mid.section_live(s));
                                        assert(mid.section_nodes()[s] == c0.section_nodes()[s]);
                                    },
                                    None => {},
                                }
                            },
                            None => {},
                        }
                    }
                    match c0.data_block_nodes()[v].parent {
                        Some(p) => {
                            match c0.interval_nodes()[p].parent {
                                Some(s) => {
                                    match c0.section_nodes()[s].parent {
                                        Some(m) => {
                                            lemma_contains_cons(
                                                c,
                                                mods0.skip(t as int),
                                                mods0.skip(t as int - 1),
                                                m,
                                            );
                                        },
                                        None => {},
                                    }
                                },
                                None => {},
                            }
                        },
                        None => {},
                    }
                }
                assert forall|v: u128|
                    self.data_block_live(v) implies self.data_block_nodes()[v]
                    == c0.data_block_nodes()[v] by {
                    assert(mid.data_block_live(v));
                }
            }
            t = t - 1;
        }
        proof {
            assert(mods0.skip(0) =~= mods0);
            assert(mods0.take(0) =~= Seq::<u128>::empty());
        }
        let ghost cmid = *self;
        self.irs.remove(&u);
        proof {
            let c1 = *old(self);
            let c2 = *self;
            assert(c2.ir_nodes() =~= cmid.ir_nodes().remove(u));
            assert(cmid.ir_nodes()[u].modules.len() == 0);
            lemma_wf_remove_ir(cmid, c2, u);
            assert(c2.ir_nodes() =~= c1.ir_nodes().remove(u));
            assert forall|v: u128|
                (c2.module_live(v) <==> (c1.module_live(v) && c1.module_nodes()[v].parent != Some(
                    u,
                ))) by {
                if c1.module_live(v) {
                    if c1.module_nodes()[v].parent == Some(u) {
                        assert(c1.ir_nodes()[u].modules.contains(v));
                    }
                    if mods0.contains(v) {
                        let i = choose|i: int| 0 <= i < mods0.len() && mods0[i] == v;
                        assert(c1.ir_node_ok(u));
                        assert(c1.module_child_ok(mods0[i], u));
                    }
                }
            }
            assert forall|v: u128|
                (c2.section_live(v) <==> (c1.section_live(v) && match c1.section_nodes()[
                    v
                ].parent {
                    Some(m) => c1.module_nodes()[m].parent != Some(u),
                    None => true,
                })) by {
                if c1.section_live(v) {
                    match c1.section_nodes()[v].parent {
                        Some(m) => {
                            if mods0.contains(m) || c1.module_nodes()[m].parent == Some(u) {
                                if c1.module_nodes()[m].parent == Some(u) {
                                    assert(c1.ir_nodes()[u].modules.contains(m));
                                }
                                let i = choose|i: int| 0 <= i < mods0.len() && mods0[i] == m;
                                assert(c1.ir_node_ok(u));
                                assert(c1.module_child_ok(mods0[i], u));
                            }
                        },
                        None => {},
                    }
                }
            }
            assert forall|v: u128|
                (c2.symbol_live(v) <==> (c1.symbol_live(v) && match c1.symbol_nodes()[v].parent {
                    Some(m) => c1.module_nodes()[m].parent != Some(u),
                    None => true,
                })) by {
                if c1.symbol_live(v) {
                    match c1.symbol_nodes()[v].parent {
                        Some(m) => {
                            if mods0.contains(m) || c1.module_nodes()[m].parent == Some(u) {
                                if c1.module_nodes()[m].parent == Some(u) {
                                    assert(c1.ir_nodes()[u].modules.contains(m));
                                }
                                let i = choose|i: int| 0 <= i < mods0.len() && mods0[i] == m;
                                assert(c1.ir_node_ok(u));
                                assert(c1.module_child_ok(mods0[i], u));
                            }
                        },
                        None => {},
                    }
                }
            }
            assert forall|v: u128|
                (c2.proxy_block_live(v) <==> (c1.proxy_block_live(v)
                    && match c1.proxy_block_nodes()[v].parent {
                    Some(m) => c1.module_nodes()[m].parent != Some(u),
                    None => true,
                })) by {
                if c1.proxy_block_live(v) {
                    match c1.proxy_block_nodes()[v].parent {
                        Some(m) => {
                            if mods0.contains(m) || c1.module_nodes()[m].parent == Some(u) {
                                if c1.module_nodes()[m].parent == Some(u) {
                                    assert(c1.ir_nodes()[u].modules.contains(m));
                                }
                                let i = choose|i: int| 0 <= i < mods0.len() && mods0[i] == m;
                                assert(c1.ir_node_ok(u));
                                assert(c1.module_child_ok(mods0[i], u));
                            }
                        },
                        None => {},
                    }
                }
            }
            assert forall|v: u128|
                (c2.interval_live(v) <==> (c1.interval_live(v) && match c1.interval_nodes()[
                    v
                ].parent {
                    Some(s) => match c1.section_nodes()[s].parent {
                        Some(m) => c1.module_nodes()[m].parent != Some(u),
                        None => true,
                    },
                    None => true,
                })) by {
                if c1.interval_live(v) {
                    match c1.interval_nodes()[v].parent {
                        Some(s) => {
                            match c1.section_nodes()[s].parent {
                                Some(m) => {
                                    if mods0.contains(m) || c1.module_nodes()[m].parent == Some(
                                        u,
                                    ) {
                                        if c1.module_nodes()[m].parent == Some(u) {
                                            assert(c1.ir_nodes()[u].modules.contains(m));
                                        }
                                        let i = choose|i: int|
                                            0 <= i < mods0.len() && mods0[i] == m;
                                        assert(c1.ir_node_ok(u));
                                        assert(c1.module_child_ok(mods0[i], u));
                                    }
                                },
                                None => {},
                            }
                        },
                        None => {},
                    }
                }
            }
            assert forall|v: u128|
                (c2.code_block_live(v) <==> (c1.code_block_live(v)
                    && match c1.code_block_nodes()[v].parent {
                    Some(p) => match c1.interval_nodes()[p].parent {
                        Some(s) => match c1.section_nodes()[s].parent {
                            Some(m) => c1.module_nodes()[m].parent != Some(u),
                            None => true,
                        },
                        None => true,
                    },
                    None => true,
                })) by {
                if c1.code_block_live(v) {
                    match c1.code_block_nodes()[v].parent {
                        Some(p) => {
                            match c1.interval_nodes()[p].parent {
                                Some(s) => {
                                    match c1.section_nodes()[s].parent {
                                        Some(m) => {
                                            if mods0.contains(m) || c1.module_nodes()[m].parent
                                                == Some(u) {
                                                if c1.module_nodes()[m].parent == Some(u) {
                                                    assert(c1.ir_nodes()[u].modules.contains(m));
                                                }
                                                let i = choose|i: int|
                                                    0 <= i < mods0.len() && mods0[i] == m;
                                                assert(c1.ir_node_ok(u));
                                                assert(c1.module_child_ok(mods0[i], u));
                                            }
                                        },
                                        None => {},
                                    }
                                },
                                None => {},
                            }
                        },
                        None => {},
                    }
                }
            }
            assert forall|v: u128|
                (c2.data_block_live(v) <==> (c1.data_block_live(v)
                    && match c1.data_block_nodes()[v].parent {
                    Some(p) => match c1.interval_nodes()[p].parent {
                        Some(s) => match c1.section_nodes()[s].parent {
                            Some(m) => c1.module_nodes()[m].parent != Some(u),
                            None => true,
                        },
                        None => true,
                    },
                    None => true,
                })) by {
                if c1.data_block_live(v) {
                    match c1.data_block_nodes()[v].parent {
                        Some(p) => {
                            match c1.interval_nodes()[p].parent {
                                Some(s) => {
                                    match c1.section_nodes()[s].parent {
                                        Some(m) => {
                                            if mods0.contains(m) || c1.module_nodes()[m].parent
                                                == Some(u) {
                                                if c1.module_nodes()[m].parent == Some(u) {
                                                    assert(c1.ir_nodes()[u].modules.contains(m));
                                                }
                                                let i = choose|i: int|
                                                    0 <= i < mods0.len() && mods0[i] == m;
                                                assert(c1.ir_node_ok(u));
                                                assert(c1.module_child_ok(mods0[i], u));
                                            }
                                        },
                                        None => {},
                                    }
                                },
                                None => {},
                            }
                        },
                        None => {},
                    }
                }
            }
        }
    }

    /// Destroy a detached module together with its sections, symbols,
    /// proxy blocks and everything below them, removing their identifiers
    /// from the registry.  An attached or unknown identifier leaves the
    /// context unchanged.
    pub fn release_module(&mut self, module: ModuleRef)
        requires
            old(self).wf(),
        ensures
            final(self).wf(),
            ({
                let u = module.uuid.0;
                if old(self).module_live(u) && old(self).module_nodes()[u].parent is None {
                    &&& final(self).module_nodes() == old(self).module_nodes().remove(u)
                    &&& (forall|v: u128|
                        final(self).section_live(v) <==> (old(self).section_live(v) && old(
                            self,
                        ).section_nodes()[v].parent != Some(u)))
                    &&& (forall|v: u128|
                        final(self).section_live(v) ==> final(self).section_nodes()[v] == old(
                            self,
                        ).section_nodes()[v])
                    &&& (forall|v: u128|
                        final(self).symbol_live(v) <==> (old(self).symbol_live(v) && old(
                            self,
                        ).symbol_nodes()[v].parent != Some(u)))
                    &&& (forall|v: u128|
                        final(self).symbol_live(v) ==> final(self).symbol_nodes()[v] == old(
                            self,
                        ).symbol_nodes()[v])
                    &&& (forall|v: u128|
                        final(self).proxy_block_live(v) <==> (old(self).proxy_block_live(v)
                            && old(self).proxy_block_nodes()[v].parent != Some(u)))
                    &&& (forall|v: u128|
                        final(self).proxy_block_live(v) ==> final(self).proxy_block_nodes()[v]
                            == old(self).proxy_block_nodes()[v])
                    &&& (forall|v: u128|
                        final(self).interval_live(v) <==> (old(self).interval_live(v)
                            && match old(self).interval_nodes()[v].parent {
                            Some(p) => old(self).section_nodes()[p].parent != Some(u),
                            None => true,
                        }))
                    &&& (forall|v: u128|
                        final(self).interval_live(v) ==> final(self).interval_nodes()[v] == old(
                            self,
                        ).interval_nodes()[v])
                    &&& (forall|v: u128|
                        final(self).code_block_live(v) <==> (old(self).code_block_live(v)
                            && match old(self).code_block_nodes()[v].parent {
                            Some(p) => match old(self).interval_nodes()[p].parent {
                                Some(s) => old(self).section_nodes()[s].parent != Some(u),
                                None => true,
                            },
                            None => true,
                        }))
                    &&& (forall|v: u128|
                        final(self).code_block_live(v) ==> final(self).code_block_nodes()[v]
                            == old(self).code_block_nodes()[v])
                    &&& (forall|v: u128|
                        final(self).data_block_live(v) <==> (old(self).data_block_live(v)
                            && match old(self).data_block_nodes()[v].parent {
                            Some(p) => match old(self).interval_nodes()[p].parent {
                                Some(s) => old(self).section_nodes()[s].parent != Some(u),
                                None => true,
                            },
                            None => true,
                        }))
                    &&& (forall|v: u128|
                        final(self).data_block_live(v) ==> final(self).data_block_nodes()[v]
                            == old(self).data_block_nodes()[v])
                    &&& final(self).ir_nodes() == old(self).ir_nodes()
                } else {
                    *final(self) == *old(self)
                }
            }),
    {
        let u = module.uuid.0;
        match self.modules.get(&u) {
            None => {
                return ;
            },
            Some(node) => {
                if node.parent.is_some() {
                    return ;
                }
            },
        }
        let ghost c0 = *self;
        let mref = ModuleRef { uuid: module.uuid };
        let ghost secs0 = c0.module_nodes()[u].sections;
        let ghost syms0 = c0.module_nodes()[u].symbols;
        let ghost pxs0 = c0.module_nodes()[u].proxy_blocks;
        proof {
            assert(c0.module_live(u));
            assert(c0.module_node_ok(u));
            assert(secs0.take(secs0.len() as int) =~= secs0);
            assert(self.module_nodes() =~= c0.module_nodes().insert(
                u,
                ModuleNodeV { sections: secs0.take(secs0.len() as int), ..c0.module_nodes()[u] },
            ));
            assert(secs0.skip(secs0.len() as int) =~= Seq::<u128>::empty());
        }
        let mut t: usize = self.modules.get(&u).unwrap().sections.len();
        while t > 0
            invariant
                mref.uuid.0 == u,
                self.wf(),
                self.module_live(u),
                t <= secs0.len(),
                self.module_nodes() == c0.module_nodes().insert(
                    u,
                    ModuleNodeV { sections: secs0.take(t as int), ..c0.module_nodes()[u] },
                ),
                forall|v: u128|
                    self.section_live(v) <==> (c0.section_live(v) && !secs0.skip(
                        t as int,
                    ).contains(v)),
                forall|v: u128|
                    self.section_live(v) ==> self.section_nodes()[v] == c0.section_nodes()[v],
                forall|v: u128|
                    self.interval_live(v) <==> (c0.interval_live(v) && match c0.interval_nodes()[
                        v
                    ].parent {
                        Some(p) => !secs0.skip(t as int).contains(p),
                        None => true,
                    }),
                forall|v: u128|
                    self.interval_live(v) ==> self.interval_nodes()[v] == c0.interval_nodes()[v],
                forall|v: u128|
                    self.code_block_live(v) <==> (c0.code_block_live(v)
                        && match c0.code_block_nodes()[v].parent {
                        Some(p) => match c0.interval_nodes()[p].parent {
                            Some(s) => !secs0.skip(t as int).contains(s),
                            None => true,
                        },
                        None => true,
                    }),
                forall|v: u128|
                    self.code_block_live(v) ==> self.code_block_nodes()[v]
                        == c0.code_block_nodes()[v],
                forall|v: u128|
                    self.data_block_live(v) <==> (c0.data_block_live(v)
                        && match c0.data_block_nodes()[v].parent {
                        Some(p) => match c0.interval_nodes()[p].parent {
                            Some(s) => !secs0.skip(t as int).contains(s),
                            None => true,
                        },
                        None => true,
                    }),
                forall|v: u128|
                    self.data_block_live(v) ==> self.data_block_nodes()[v]
                        == c0.data_block_nodes()[v],
                self.ir_nodes() == c0.ir_nodes(),
                self.proxy_block_nodes() == c0.proxy_block_nodes(),
                self.symbol_nodes() == c0.symbol_nodes(),
                c0.wf(),
                c0.module_live(u),
                c0.module_nodes()[u].parent == None::<u128>,
                secs0 == c0.module_nodes()[u].sections,
            decreases t,
        {
            let node = self.modules.get(&u).unwrap();
            let c = node.sections[t - 1];
            proof {
                assert(self.module_nodes()[u].sections[t - 1] == secs0[t - 1]);
                assert(self.module_nodes()[u].sections.contains(c));
            }
            let ghost mid0 = *self;
            let r = mref.remove_section(self, Uuid(c));
            proof {
                assert(r is Some);
                let list = mid0.module_nodes()[u].sections;
                list.index_of_first_ensures(c);
                assert(mid0.module_node_ok(u));
                assert(list.no_duplicates());
                assert(list.index_of_first(c) == Some(t as int - 1));
                assert(list.remove_value(c) =~= secs0.take(t as int - 1));
                assert(self.module_nodes() =~= c0.module_nodes().insert(
                    u,
                    ModuleNodeV { sections: secs0.take(t as int - 1), ..c0.module_nodes()[u] },
                ));
            }
            let ghost mid = *self;
            self.release_section(SectionRef { uuid: Uuid(c) });
            proof {
                assert(mid.section_live(c) && mid.section_nodes()[c].parent is None);
                assert(mid0.section_live(c));
                assert(mid0.section_nodes()[c] == c0.section_nodes()[c]);
                assert forall|v: u128|
                    self.section_live(v) <==> (c0.section_live(v) && !secs0.skip(
                        t as int - 1,
                    ).contains(v)) by {
                    lemma_contains_cons(c, secs0.skip(t as int), secs0.skip(t as int - 1), v);
                }
                assert forall|v: u128|
                    self.section_live(v) implies self.section_nodes()[v]
                    == c0.section_nodes()[v] by {
                    assert(mid.section_live(v));
                    assert(v != c);
                    assert(mid.section_nodes()[v] == mid0.section_nodes()[v]);
                }
                assert forall|v: u128|
                    self.interval_live(v) <==> (c0.interval_live(v)
                        && match c0.interval_nodes()[v].parent {
                        Some(p) => !secs0.skip(t as int - 1).contains(p),
                        None => true,
                    }) by {
                    if mid.interval_live(v) {
                        assert(mid.interval_nodes()[v] == c0.interval_nodes()[v]);
                    }
                    match c0.interval_nodes()[v].parent {
                        Some(p) => {
                            lemma_contains_cons(
                                c,
                                secs0.skip(t as int),
                                secs0.skip(t as int - 1),
                                p,
                            );
                        },
                        None => {},
                    }
                }
                assert forall|v: u128|
                    self.interval_live(v) implies self.interval_nodes()[v]
                    == c0.interval_nodes()[v] by {
                    assert(mid.interval_live(v));
                }
                assert forall|v: u128|
                    self.code_block_live(v) <==> (c0.code_block_live(v)
                        && match c0.code_block_nodes()[v].parent {
                        Some(p) => match c0.interval_nodes()[p].parent {
                            Some(s) => !secs0.skip(t as int - 1).contains(s),
                            None => true,
                        },
                        None => true,
                    }) by {
                    if mid.code_block_live(v) {
                        assert(mid.code_block_nodes()[v] == c0.code_block_nodes()[v]);
                        match c0.code_block_nodes()[v].parent {
                            Some(p) => {
                                assert(mid.interval_live(p));
                                assert(mid.interval_nodes()[p] == c0.interval_nodes()[p]);
                            },
                            None => {},
                        }
                    }
                    match c0.code_block_nodes()[v].parent {
                        Some(p) => {
                            match c0.interval_nodes()[p].parent {
                                Some(s) => {
                                    lemma_contains_cons(
                                        c,
                                        secs0.skip(t as int),
                                        secs0.skip(t as int - 1),
                                        s,
                                    );
                                },
                                None => {},
                            }
                        },
                        None => {},
                    }
                }
                assert forall|v: u128|
                    self.code_block_live(v) implies self.code_block_nodes()[v]
                    == c0.code_block_nodes()[v] by {
                    assert(mid.code_block_live(v));
                }
                assert forall|v: u128|
                    self.data_block_live(v) <==> (c0.data_block_live(v)
                        && match c0.data_block_nodes()[v].parent {
                        Some(p) => match c0.interval_nodes()[p].parent {
                            Some(s) => !secs0.skip(t as int - 1).contains(s),
                            None => true,
                        },
                        None => true,
                    }) by {
                    if mid.data_block_live(v) {
                        assert(mid.data_block_nodes()[v] == c0.data_block_nodes()[v]);
                        match c0.data_block_nodes()[v].parent {
                            Some(p) => {
                                assert(mid.interval_live(p));
                                assert(mid.interval_nodes()[p] == c0.interval_nodes()[p]);
                            },
                            None => {},
                        }
                    }
                    match c0.data_block_nodes()[v].parent {
                        Some(p) => {
                            match c0.interval_nodes()[p].parent {
                                Some(s) => {
                                    lemma_contains_cons(
                                        c,
                                        secs0.skip(t as int),
                                        secs0.skip(t as int - 1),
                                        s,
                                    );
                                },
                                None => {},
                            }
                        },
                        None => {},
                    }
                }
                assert forall|v: u128|
                    self.data_block_live(v) implies self.data_block_nodes()[v]
                    == c0.data_block_nodes()[v] by {
                    assert(mid.data_block_live(v));
                }
            }
            t = t - 1;
        }
        proof {
            assert(secs0.skip(0) =~= secs0);
            assert(secs0.take(0) =~= Seq::<u128>::empty());
            assert(syms0.take(syms0.len() as int) =~= syms0);
            assert(self.module_nodes() =~= c0.module_nodes().insert(
                u,
                ModuleNodeV {
                    sections: Seq::empty(),
                    symbols: syms0.take(syms0.len() as int),
                    ..c0.module_nodes()[u]
                },
            ));
            assert(syms0.skip(syms0.len() as int) =~= Seq::<u128>::empty());
        }
        let mut t: usize = self.modules.get(&u).unwrap().symbols.len();
        while t > 0
            invariant
                mref.uuid.0 == u,
                self.wf(),
                self.module_live(u),
                t <= syms0.len(),
                self.module_nodes() == c0.module_nodes().insert(
                    u,
                    ModuleNodeV {
                        sections: Seq::empty(),
                        symbols: syms0.take(t as int),
                        ..c0.module_nodes()[u]
                    },
                ),
                forall|v: u128|
                    self.symbol_live(v) <==> (c0.symbol_live(v) && !syms0.skip(t as int).contains(
                        v,
                    )),
                forall|v: u128|
                    self.symbol_live(v) ==> self.symbol_nodes()[v] == c0.symbol_nodes()[v],
                forall|v: u128|
                    self.section_live(v) <==> (c0.section_live(v) && c0.section_nodes()[v].parent
                        != Some(u)),
                forall|v: u128|
                    self.section_live(v) ==> self.section_nodes()[v] == c0.section_nodes()[v],
                forall|v: u128|
                    self.interval_live(v) <==> (c0.interval_live(v) && match c0.interval_nodes()[
                        v
                    ].parent {
                        Some(p) => c0.section_nodes()[p].parent != Some(u),
                        None => true,
                    }),
                forall|v: u128|
                    self.interval_live(v) ==> self.interval_nodes()[v] == c0.interval_nodes()[v],
                forall|v: u128|
                    self.code_block_live(v) <==> (c0.code_block_live(v)
                        && match c0.code_block_nodes()[v].parent {
                        Some(p) => match c0.interval_nodes()[p].parent {
                            Some(s) => c0.section_nodes()[s].parent != Some(u),
                            None => true,
                        },
                        None => true,
                    }),
                forall|v: u128|
                    self.code_block_live(v) ==> self.code_block_nodes()[v]
                        == c0.code_block_nodes()[v],
                forall|v: u128|
                    self.data_block_live(v) <==> (c0.data_block_live(v)
                        && match c0.data_block_nodes()[v].parent {
                        Some(p) => match c0.interval_nodes()[p].parent {
                            Some(s) => c0.section_nodes()[s].parent != Some(u),
                            None => true,
                        },
                        None => true,
                    }),
                forall|v: u128|
                    self.data_block_live(v) ==> self.data_block_nodes()[v]
                        == c0.data_block_nodes()[v],
                self.ir_nodes() == c0.ir_nodes(),
                self.proxy_block_nodes() == c0.proxy_block_nodes(),
                c0.wf(),
                c0.module_live(u),
                c0.module_nodes()[u].parent == None::<u128>,
                secs0 == c0.module_nodes()[u].sections,
                syms0 == c0.module_nodes()[u].symbols,
            decreases t,
        {
            let node = self.modules.get(&u).unwrap();
            let c = node.symbols[t - 1];
            proof {
                assert(self.module_nodes()[u].symbols[t - 1] == syms0[t - 1]);
                assert(self.module_nodes()[u].symbols.contains(c));
            }
            let ghost mid0 = *self;
            let r = mref.remove_symbol(self, Uuid(c));
            proof {
                assert(r is Some);
                let list = mid0.module_nodes()[u].symbols;
                list.index_of_first_ensures(c);
                assert(mid0.module_node_ok(u));
                assert(list.no_duplicates());
                assert(list.index_of_first(c) == Some(t as int - 1));
                assert(list.remove_value(c) =~= syms0.take(t as int - 1));
                assert(self.module_nodes() =~= c0.module_nodes().insert(
                    u,
                    ModuleNodeV {
                        sections: Seq::empty(),
                        symbols: syms0.take(t as int - 1),
                        ..c0.module_nodes()[u]
                    },
                ));
            }
            let ghost mid = *self;
            self.release_symbol(SymbolRef { uuid: Uuid(c) });
            proof {
                assert(mid.symbol_live(c) && mid.symbol_nodes()[c].parent is None);
                assert forall|v: u128|
                    self.symbol_live(v) <==> (c0.symbol_live(v) && !syms0.skip(
                        t as int - 1,
                    ).contains(v)) by {
                    lemma_contains_cons(c, syms0.skip(t as int), syms0.skip(t as int - 1), v);
                }
                assert forall|v: u128|
                    self.symbol_live(v) implies self.symbol_nodes()[v] == c0.symbol_nodes()[v] by {
                    assert(mid.symbol_live(v));
                    assert(v != c);
                    assert(mid.symbol_nodes()[v] == mid0.symbol_nodes()[v]);
                }
            }
            t = t - 1;
        }
        proof {
            assert(syms0.skip(0) =~= syms0);
            assert(syms0.take(0) =~= Seq::<u128>::empty());
            assert(pxs0.take(pxs0.len() as int) =~= pxs0);
            assert(self.module_nodes() =~= c0.module_nodes().insert(
                u,
                ModuleNodeV {
                    sections: Seq::empty(),
                    symbols: Seq::empty(),
                    proxy_blocks: pxs0.take(pxs0.len() as int),
                    ..c0.module_nodes()[u]
                },
            ));
            assert(pxs0.skip(pxs0.len() as int) =~= Seq::<u128>::empty());
        }
        let mut t: usize = self.modules.get(&u).unwrap().proxy_blocks.len();
        while t > 0
            invariant
                mref.uuid.0 == u,
                self.wf(),
                self.module_live(u),
                t <= pxs0.len(),
                self.module_nodes() == c0.module_nodes().insert(
                    u,
                    ModuleNodeV {
                        sections: Seq::empty(),
                        symbols: Seq::empty(),
                        proxy_blocks: pxs0.take(t as int),
                        ..c0.module_nodes()[u]
                    },
                ),
                forall|v: u128|
                    self.proxy_block_live(v) <==> (c0.proxy_block_live(v) && !pxs0.skip(
                        t as int,
                    ).contains(v)),
                forall|v: u128|
                    self.proxy_block_live(v) ==> self.proxy_block_nodes()[v]
                        == c0.proxy_block_nodes()[v],
                forall|v: u128|
                    self.symbol_live(v) <==> (c0.symbol_live(v) && c0.symbol_nodes()[v].parent
                        != Some(u)),
                forall|v: u128|
                    self.symbol_live(v) ==> self.symbol_nodes()[v] == c0.symbol_nodes()[v],
                forall|v: u128|
                    self.section_live(v) <==> (c0.section_live(v) && c0.section_nodes()[v].parent
                        != Some(u)),
                forall|v: u128|
                    self.section_live(v) ==> self.section_nodes()[v] == c0.section_nodes()[v],
                forall|v: u128|
                    self.interval_live(v) <==> (c0.interval_live(v) && match c0.interval_nodes()[
                        v
                    ].parent {
                        Some(p) => c0.section_nodes()[p].parent != Some(u),
                        None => true,
                    }),
                forall|v: u128|
                    self.interval_live(v) ==> self.interval_nodes()[v] == c0.interval_nodes()[v],
                forall|v: u128|
                    self.code_block_live(v) <==> (c0.code_block_live(v)
                        && match c0.code_block_nodes()[v].parent {
                        Some(p) => match c0.interval_nodes()[p].parent {
                            Some(s) => c0.section_nodes()[s].parent != Some(u),
                            None => true,
                        },
                        None => true,
                    }),
                forall|v: u128|
                    self.code_block_live(v) ==> self.code_block_nodes()[v]
                        == c0.code_block_nodes()[v],
                forall|v: u128|
                    self.data_block_live(v) <==> (c0.data_block_live(v)
                        && match c0.data_block_nodes()[v].parent {
                        Some(p) => match c0.interval_nodes()[p].parent {
                            Some(s) => c0.section_nodes()[s].parent != Some(u),
                            None => true,
                        },
                        None => true,
                    }),
                forall|v: u128|
                    self.data_block_live(v) ==> self.data_block_nodes()[v]
                        == c0.data_block_nodes()[v],
                self.ir_nodes() == c0.ir_nodes(),
                c0.wf(),
                c0.module_live(u),
                c0.module_nodes()[u].parent == None::<u128>,
                secs0 == c0.module_nodes()[u].sections,
                pxs0 == c0.module_nodes()[u].proxy_blocks,
            decreases t,
        {
            let node = self.modules.get(&u).unwrap();
            let c = node.proxy_blocks[t - 1];
            proof {
                assert(self.module_nodes()[u].proxy_blocks[t - 1] == pxs0[t - 1]);
                assert(self.module_nodes()[u].proxy_blocks.contains(c));
            }
            let ghost mid0 = *self;
            let r = mref.remove_proxy_block(self, Uuid(c));
            proof {
                assert(r is Some);
                let list = mid0.module_nodes()[u].proxy_blocks;
                list.index_of_first_ensures(c);
                assert(mid0.module_node_ok(u));
                assert(list.no_duplicates());
                assert(list.index_of_first(c) == Some(t as int - 1));
                assert(list.remove_value(c) =~= pxs0.take(t as int - 1));
                assert(self.module_nodes() =~= c0.module_nodes().insert(
                    u,
                    ModuleNodeV {
                        sections: Seq::empty(),
                        symbols: Seq::empty(),
                        proxy_blocks: pxs0.take(t as int - 1),
                        ..c0.module_nodes()[u]
                    },
                ));
            }
            let ghost mid = *self;
            self.release_proxy_block(ProxyBlockRef { uuid: Uuid(c) });
            proof {
                assert(mid.proxy_block_live(c) && mid.proxy_block_nodes()[c].parent is None);
                assert forall|v: u128|
                    self.proxy_block_live(v) <==> (c0.proxy_block_live(v) && !pxs0.skip(
                        t as int - 1,
                    ).contains(v)) by {
                    lemma_contains_cons(c, pxs0.skip(t as int), pxs0.skip(t as int - 1), v);
                }
                assert forall|v: u128|
                    self.proxy_block_live(v) implies self.proxy_block_nodes()[v]
                    == c0.proxy_block_nodes()[v] by {
                    assert(mid.proxy_block_live(v));
                    assert(v != c);
                    assert(mid.proxy_block_nodes()[v] == mid0.proxy_block_nodes()[v]);
                }
            }
            t = t - 1;
        }
        proof {
            assert(pxs0.skip(0) =~= pxs0);
            assert(pxs0.take(0) =~= Seq::<u128>::empty());
        }
        let ghost cmid = *self;
        self.modules.remove(&u);
        proof {
            let c1 = *old(self);
            let c2 = *self;
            assert(c2.module_nodes() =~= cmid.module_nodes().remove(u));
            assert(cmid.module_nodes()[u].sections.len() == 0);
            assert(cmid.module_nodes()[u].symbols.len() == 0);
            assert(cmid.module_nodes()[u].proxy_blocks.len() == 0);
            lemma_wf_remove_module(cmid, c2, u);
            assert(c2.module_nodes() =~= c1.module_nodes().remove(u));
            assert forall|v: u128|
                (c2.section_live(v) <==> (c1.section_live(v) && c1.section_nodes()[v].parent
                    != Some(u))) by {
                if c1.section_live(v) {
                    if c1.section_nodes()[v].parent == Some(u) {
                        assert(c1.module_nodes()[u].sections.contains(v));
                    }
                    if secs0.contains(v) {
                        let i = choose|i: int| 0 <= i < secs0.len() && secs0[i] == v;
                        assert(c1.module_node_ok(u));
                        assert(c1.section_child_ok(secs0[i], u));
                    }
                }
            }
            assert forall|v: u128|
                (c2.symbol_live(v) <==> (c1.symbol_live(v) && c1.symbol_nodes()[v].parent != Some(
                    u,
                ))) by {
                if c1.symbol_live(v) {
                    if c1.symbol_nodes()[v].parent == Some(u) {
                        assert(c1.module_nodes()[u].symbols.contains(v));
                    }
                    if syms0.contains(v) {
                        let i = choose|i: int| 0 <= i < syms0.len() && syms0[i] == v;
                        assert(c1.module_node_ok(u));
                        assert(c1.symbol_child_ok(syms0[i], u));
                    }
                }
            }
            assert forall|v: u128|
                (c2.proxy_block_live(v) <==> (c1.proxy_block_live(v) && c1.proxy_block_nodes()[
                    v
                ].parent != Some(u))) by {
                if c1.proxy_block_live(v) {
                    if c1.proxy_block_nodes()[v].parent == Some(u) {
                        assert(c1.module_nodes()[u].proxy_blocks.contains(v));
                    }
                    if pxs0.contains(v) {
                        let i = choose|i: int| 0 <= i < pxs0.len() && pxs0[i] == v;
                        assert(c1.module_node_ok(u));
                        assert(c1.proxy_block_child_ok(pxs0[i], u));
                    }
                }
            }
            assert forall|v: u128|
                (c2.interval_live(v) <==> (c1.interval_live(v) && match c1.interval_nodes()[
                    v
                ].parent {
                    Some(p) => c1.section_nodes()[p].parent != Some(u),
                    None => true,
                })) by {
                if c1.interval_live(v) {
                    match c1.interval_nodes()[v].parent {
                        Some(p) => {
                            if c1.section_nodes()[p].parent == Some(u) {
                                assert(c1.module_nodes()[u].sections.contains(p));
                                let i = choose|i: int| 0 <= i < secs0.len() && secs0[i] == p;
                                assert(c1.module_node_ok(u));
                                assert(c1.section_child_ok(secs0[i], u));
                            }
                            if secs0.contains(p) {
                                let i = choose|i: int| 0 <= i < secs0.len() && secs0[i] == p;
                                assert(c1.module_node_ok(u));
                                assert(c1.section_child_ok(secs0[i], u));
                            }
                        },
                        None => {},
                    }
                }
            }
            assert forall|v: u128|
                (c2.code_block_live(v) <==> (c1.code_block_live(v)
                    && match c1.code_block_nodes()[v].parent {
                    Some(p) => match c1.interval_nodes()[p].parent {
                        Some(s) => c1.section_nodes()[s].parent != Some(u),
                        None => true,
                    },
                    None => true,
                })) by {
                if c1.code_block_live(v) {
                    match c1.code_block_nodes()[v].parent {
                        Some(p) => {
                            match c1.interval_nodes()[p].parent {
                                Some(s) => {
                                    if secs0.contains(s) || c1.section_nodes()[s].parent == Some(
                                        u,
                                    ) {
                                        if c1.section_nodes()[s].parent == Some(u) {
                                            assert(c1.module_nodes()[u].sections.contains(s));
                                        }
                                        let i = choose|i: int|
                                            0 <= i < secs0.len() && secs0[i] == s;
                                        assert(c1.module_node_ok(u));
                                        assert(c1.section_child_ok(secs0[i], u));
                                    }
                                },
                                None => {},
                            }
                        },
                        None => {},
                    }
                }
            }
            assert forall|v: u128|
                (c2.data_block_live(v) <==> (c1.data_block_live(v)
                    && match c1.data_block_nodes()[v].parent {
                    Some(p) => match c1.interval_nodes()[p].parent {
                        Some(s) => c1.section_nodes()[s].parent != Some(u),
                        None => true,
                    },
                    None => true,
                })) by {
                if c1.data_block_live(v) {
                    match c1.data_block_nodes()[v].parent {
                        Some(p) => {
                            match c1.interval_nodes()[p].parent {
                                Some(s) => {
                                    if secs0.contains(s) || c1.section_nodes()[s].parent == Some(
                                        u,
                                    ) {
                                        if c1.section_nodes()[s].parent == Some(u) {
                                            assert(c1.module_nodes()[u].sections.contains(s));
                                        }
                                        let i = choose|i: int|
                                            0 <= i < secs0.len() && secs0[i] == s;
                                        assert(c1.module_node_ok(u));
                                        assert(c1.section_child_ok(secs0[i], u));
                                    }
                                },
                                None => {},
                            }
                        },
                        None => {},
                    }
                }
            }
        }
    }

    /// Destroy a detached section together with its byte intervals and
    /// their blocks, removing their identifiers from the registry.  An
    /// attached or unknown identifier leaves the context unchanged.
    pub fn release_section(&mut self, section: SectionRef)
        requires
            old(self).wf(),
        ensures
            final(self).wf(),
            ({
                let u = section.uuid.0;
                if old(self).section_live(u) && old(self).section_nodes()[u].parent is None {
                    &&& final(self).section_nodes() == old(self).section_nodes().remove(u)
                    &&& (forall|v: u128|
                        final(self).interval_live(v) <==> (old(self).interval_live(v) && old(
                            self,
                        ).interval_nodes()[v].parent != Some(u)))
                    &&& (forall|v: u128|
                        final(self).interval_live(v) ==> final(self).interval_nodes()[v] == old(
                            self,
                        ).interval_nodes()[v])
                    &&& (forall|v: u128|
                        final(self).code_block_live(v) <==> (old(self).code_block_live(v)
                            && match old(self).code_block_nodes()[v].parent {
                            Some(p) => old(self).interval_nodes()[p].parent != Some(u),
                            None => true,
                        }))
                    &&& (forall|v: u128|
                        final(self).code_block_live(v) ==> final(self).code_block_nodes()[v]
                            == old(self).code_block_nodes()[v])
                    &&& (forall|v: u128|
                        final(self).data_block_live(v) <==> (old(self).data_block_live(v)
                            && match old(self).data_block_nodes()[v].parent {
                            Some(p) => old(self).interval_nodes()[p].parent != Some(u),
                            None => true,
                        }))
                    &&& (forall|v: u128|
                        final(self).data_block_live(v) ==> final(self).data_block_nodes()[v]
                            == old(self).data_block_nodes()[v])
                    &&& final(self).ir_nodes() == old(self).ir_nodes()
                    &&& final(self).module_nodes() == old(self).module_nodes()
                    &&& final(self).proxy_block_nodes() == old(self).proxy_block_nodes()
                    &&& final(self).symbol_nodes() == old(self).symbol_nodes()
                } else {
                    *final(self) == *old(self)
                }
            }),
    {
        let u = section.uuid.0;
        match self.sections.get(&u) {
            None => {
                return ;
            },
            Some(node) => {
                if node.parent.is_some() {
                    return ;
                }
            },
        }
        let ghost c0 = *self;
        let sref = SectionRef { uuid: section.uuid };
        let ghost ivs0 = c0.section_nodes()[u].byte_intervals;
        proof {
            assert(c0.section_live(u));
            assert(c0.section_node_ok(u));
            assert(ivs0.take(ivs0.len() as int) =~= ivs0);
            assert(self.section_nodes() =~= c0.section_nodes().insert(
                u,
                SectionNodeV {
                    byte_intervals: ivs0.take(ivs0.len() as int),
                    ..c0.section_nodes()[u]
                },
            ));
            assert(ivs0.skip(ivs0.len() as int) =~= Seq::<u128>::empty());
        }
        let mut t: usize = self.sections.get(&u).unwrap().byte_intervals.len();
        while t > 0
            invariant
                sref.uuid.0 == u,
                self.wf(),
                self.section_live(u),
                t <= ivs0.len(),
                self.section_nodes() == c0.section_nodes().insert(
                    u,
                    SectionNodeV {
                        byte_intervals: ivs0.take(t as int),
                        ..c0.section_nodes()[u]
                    },
                ),
                forall|v: u128|
                    self.interval_live(v) <==> (c0.interval_live(v) && !ivs0.skip(
                        t as int,
                    ).contains(v)),
                forall|v: u128|
                    self.interval_live(v) ==> self.interval_nodes()[v] == c0.interval_nodes()[v],
                forall|v: u128|
                    self.code_block_live(v) <==> (c0.code_block_live(v) && match c0.code_block_nodes()[
                        v
                    ].parent {
                        Some(p) => !ivs0.skip(t as int).contains(p),
                        None => true,
                    }),
                forall|v: u128|
                    self.code_block_live(v) ==> self.code_block_nodes()[v]
                        == c0.code_block_nodes()[v],
                forall|v: u128|
                    self.data_block_live(v) <==> (c0.data_block_live(v) && match c0.data_block_nodes()[
                        v
                    ].parent {
                        Some(p) => !ivs0.skip(t as int).contains(p),
                        None => true,
                    }),
                forall|v: u128|
                    self.data_block_live(v) ==> self.data_block_nodes()[v]
                        == c0.data_block_nodes()[v],
                self.ir_nodes() == c0.ir_nodes(),
                self.module_nodes() == c0.module_nodes(),
                self.proxy_block_nodes() == c0.proxy_block_nodes(),
                self.symbol_nodes() == c0.symbol_nodes(),
                c0.wf(),
                c0.section_live(u),
                c0.section_nodes()[u].parent == None::<u128>,
                ivs0 == c0.section_nodes()[u].byte_intervals,
            decreases t,
        {
            let node = self.sections.get(&u).unwrap();
            let c = node.byte_intervals[t - 1];
            proof {
                assert(self.section_nodes()[u].byte_intervals[t - 1] == ivs0[t - 1]);
                assert(self.section_nodes()[u].byte_intervals.contains(c));
            }
            let ghost mid0 = *self;
            let r = sref.remove_byte_interval(self, Uuid(c));
            proof {
                assert(r is Some);
                let list = mid0.section_nodes()[u].byte_intervals;
                list.index_of_first_ensures(c);
                assert(mid0.section_node_ok(u));
                assert(list.no_duplicates());
                assert(list.index_of_first(c) == Some(t as int - 1));
                assert(list.remove_value(c) =~= ivs0.take(t as int - 1));
                assert(self.section_nodes() =~= c0.section_nodes().insert(
                    u,
                    SectionNodeV {
                        byte_intervals: ivs0.take(t as int - 1),
                        ..c0.section_nodes()[u]
                    },
                ));
            }
            let ghost mid = *self;
            self.release_byte_interval(ByteIntervalRef { uuid: Uuid(c) });
            proof {
                assert(mid.interval_live(c) && mid.interval_nodes()[c].parent is None);
                assert(mid0.interval_live(c));
                assert(mid0.interval_nodes()[c] == c0.interval_nodes()[c]);
                assert forall|v: u128|
                    self.interval_live(v) <==> (c0.interval_live(v) && !ivs0.skip(
                        t as int - 1,
                    ).contains(v)) by {
                    lemma_contains_cons(c, ivs0.skip(t as int), ivs0.skip(t as int - 1), v);
                }
                assert forall|v: u128|
                    self.interval_live(v) implies self.interval_nodes()[v]
                    == c0.interval_nodes()[v] by {
                    assert(mid.interval_live(v));
                    assert(v != c);
                    assert(mid.interval_nodes()[v] == mid0.interval_nodes()[v]);
                }
                assert forall|v: u128|
                    self.code_block_live(v) <==> (c0.code_block_live(v)
                        && match c0.code_block_nodes()[v].parent {
                        Some(p) => !ivs0.skip(t as int - 1).contains(p),
                        None => true,
                    }) by {
                    if mid.code_block_live(v) {
                        assert(mid.code_block_nodes()[v] == c0.code_block_nodes()[v]);
                    }
                    match c0.code_block_nodes()[v].parent {
                        Some(p) => {
                            lemma_contains_cons(
                                c,
                                ivs0.skip(t as int),
                                ivs0.skip(t as int - 1),
                                p,
                            );
                        },
                        None => {},
                    }
                }
                assert forall|v: u128|
                    self.code_block_live(v) implies self.code_block_nodes()[v]
                    == c0.code_block_nodes()[v] by {
                    assert(mid.code_block_live(v));
                }
                assert forall|v: u128|
                    self.data_block_live(v) <==> (c0.data_block_live(v)
                        && match c0.data_block_nodes()[v].parent {
                        Some(p) => !ivs0.skip(t as int - 1).contains(p),
                        None => true,
                    }) by {
                    if mid.data_block_live(v) {
                        assert(mid.data_block_nodes()[v] == c0.data_block_nodes()[v]);
                    }
                    match c0.data_block_nodes()[v].parent {
                        Some(p) => {
                            lemma_contains_cons(
                                c,
                                ivs0.skip(t as int),
                                ivs0.skip(t as int - 1),
                                p,
                            );
                        },
                        None => {},
                    }
                }
                assert forall|v: u128|
                    self.data_block_live(v) implies self.data_block_nodes()[v]
                    == c0.data_block_nodes()[v] by {
                    assert(mid.data_block_live(v));
                }
            }
            t = t - 1;
        }
        proof {
            assert(ivs0.skip(0) =~= ivs0);
            assert(ivs0.take(0) =~= Seq::<u128>::empty());
        }
        let ghost cmid = *self;
        self.sections.remove(&u);
        proof {
            let c1 = *old(self);
            let c2 = *self;
            assert(c2.section_nodes() =~= cmid.section_nodes().remove(u));
            assert(cmid.section_nodes()[u].byte_intervals.len() == 0);
            lemma_wf_remove_section(cmid, c2, u);
            assert(c2.section_nodes() =~= c1.section_nodes().remove(u));
            // tie membership in the old interval list to up-references
            assert forall|v: u128|
                (c2.interval_live(v) <==> (c1.interval_live(v) && c1.interval_nodes()[v].parent
                    != Some(u))) by {
                if c1.interval_live(v) {
                    if c1.interval_nodes()[v].parent == Some(u) {
                        assert(c1.section_nodes()[u].byte_intervals.contains(v));
                    }
                    if ivs0.contains(v) {
                        let i = choose|i: int| 0 <= i < ivs0.len() && ivs0[i] == v;
                        assert(c1.section_node_ok(u));
                        assert(c1.interval_child_ok(ivs0[i], u));
                    }
                }
            }
            assert forall|v: u128|
                (c2.code_block_live(v) <==> (c1.code_block_live(v)
                    && match c1.code_block_nodes()[v].parent {
                    Some(p) => c1.interval_nodes()[p].parent != Some(u),
                    None => true,
                })) by {
                if c1.code_block_live(v) {
                    match c1.code_block_nodes()[v].parent {
                        Some(p) => {
                            if c1.interval_nodes()[p].parent == Some(u) {
                                assert(c1.section_nodes()[u].byte_intervals.contains(p));
                            }
                            if ivs0.contains(p) {
                                let i = choose|i: int| 0 <= i < ivs0.len() && ivs0[i] == p;
                                assert(c1.section_node_ok(u));
                                assert(c1.interval_child_ok(ivs0[i], u));
                            }
                        },
                        None => {},
                    }
                }
            }
            assert forall|v: u128|
                (c2.data_block_live(v) <==> (c1.data_block_live(v)
                    && match c1.data_block_nodes()[v].parent {
                    Some(p) => c1.interval_nodes()[p].parent != Some(u),
                    None => true,
                })) by {
                if c1.data_block_live(v) {
                    match c1.data_block_nodes()[v].parent {
                        Some(p) => {
                            if c1.interval_nodes()[p].parent == Some(u) {
                                assert(c1.section_nodes()[u].byte_intervals.contains(p));
                            }
                            if ivs0.contains(p) {
                                let i = choose|i: int| 0 <= i < ivs0.len() && ivs0[i] == p;
                                assert(c1.section_node_ok(u));
                                assert(c1.interval_child_ok(ivs0[i], u));
                            }
                        },
                        None => {},
                    }
                }
            }
        }
    }

    /// Destroy a detached byte interval together with its blocks, removing
    /// their identifiers from the registry.  An attached or unknown
    /// identifier leaves the context unchanged.
    pub fn release_byte_interval(&mut self, interval: ByteIntervalRef)
        requires
            old(self).wf(),
        ensures
            final(self).wf(),
            ({
                let u = interval.uuid.0;
                if old(self).interval_live(u) && old(self).interval_nodes()[u].parent is None {
                    &&& final(self).interval_nodes() == old(self).interval_nodes().remove(u)
                    &&& (forall|v: u128|
                        final(self).code_block_live(v) <==> (old(self).code_block_live(v) && old(
                            self,
                        ).code_block_nodes()[v].parent != Some(u)))
                    &&& (forall|v: u128|
                        final(self).code_block_live(v) ==> final(self).code_block_nodes()[v]
                            == old(self).code_block_nodes()[v])
                    &&& (forall|v: u128|
                        final(self).data_block_live(v) <==> (old(self).data_block_live(v) && old(
                            self,
                        ).data_block_nodes()[v].parent != Some(u)))
                    &&& (forall|v: u128|
                        final(self).data_block_live(v) ==> final(self).data_block_nodes()[v]
                            == old(self).data_block_nodes()[v])
                    &&& final(self).ir_nodes() == old(self).ir_nodes()
                    &&& final(self).module_nodes() == old(self).module_nodes()
                    &&& final(self).section_nodes() == old(self).section_nodes()
                    &&& final(self).proxy_block_nodes() == old(self).proxy_block_nodes()
                    &&& final(self).symbol_nodes() == old(self).symbol_nodes()
                } else {
                    *final(self) == *old(self)
                }
            }),
    {
        let u = interval.uuid.0;
        match self.byte_intervals.get(&u) {
            None => {
                return ;
            },
            Some(node) => {
                if node.parent.is_some() {
                    return ;
                }
            },
        }
        let ghost c0 = *self;
        let iv = ByteIntervalRef { uuid: interval.uuid };
        let ghost cbs0 = c0.interval_nodes()[u].code_blocks;
        proof {
            assert(c0.interval_live(u));
            assert(c0.interval_node_ok(u));
            assert(cbs0.take(cbs0.len() as int) =~= cbs0);
            assert(self.interval_nodes() =~= c0.interval_nodes().insert(
                u,
                ByteIntervalNodeV {
                    code_blocks: cbs0.take(cbs0.len() as int),
                    ..c0.interval_nodes()[u]
                },
            ));
            assert(cbs0.skip(cbs0.len() as int) =~= Seq::<u128>::empty());
        }
        let mut t: usize = self.byte_intervals.get(&u).unwrap().code_blocks.len();
        while t > 0
            invariant
                iv.uuid.0 == u,
                self.wf(),
                self.interval_live(u),
                t <= cbs0.len(),
                self.interval_nodes() == c0.interval_nodes().insert(
                    u,
                    ByteIntervalNodeV {
                        code_blocks: cbs0.take(t as int),
                        ..c0.interval_nodes()[u]
                    },
                ),
                forall|v: u128|
                    self.code_block_live(v) <==> (c0.code_block_live(v) && !cbs0.skip(
                        t as int,
                    ).contains(v)),
                forall|v: u128|
                    self.code_block_live(v) ==> self.code_block_nodes()[v]
                        == c0.code_block_nodes()[v],
                self.ir_nodes() == c0.ir_nodes(),
                self.module_nodes() == c0.module_nodes(),
                self.section_nodes() == c0.section_nodes(),
                self.data_block_nodes() == c0.data_block_nodes(),
                self.proxy_block_nodes() == c0.proxy_block_nodes(),
                self.symbol_nodes() == c0.symbol_nodes(),
                c0.wf(),
                c0.interval_live(u),
                c0.interval_nodes()[u].parent == None::<u128>,
                cbs0 == c0.interval_nodes()[u].code_blocks,
            decreases t,
        {
            let node = self.byte_intervals.get(&u).unwrap();
            let c = node.code_blocks[t - 1];
            proof {
                assert(self.interval_nodes()[u].code_blocks[t - 1] == cbs0[t - 1]);
                assert(self.interval_nodes()[u].code_blocks.contains(c));
            }
            let ghost mid0 = *self;
            let r = iv.remove_code_block(self, Uuid(c));
            proof {
                assert(r is Some);
                let list = mid0.interval_nodes()[u].code_blocks;
                // the popped element sits at the unique index t - 1
                list.index_of_first_ensures(c);
                assert(mid0.interval_node_ok(u));
                assert(list.no_duplicates());
                assert(list.index_of_first(c) == Some(t as int - 1));
                assert(list.remove_value(c) =~= cbs0.take(t as int - 1));
                assert(self.interval_nodes() =~= c0.interval_nodes().insert(
                    u,
                    ByteIntervalNodeV {
                        code_blocks: cbs0.take(t as int - 1),
                        ..c0.interval_nodes()[u]
                    },
                ));
            }
            let ghost mid = *self;
            self.release_code_block(CodeBlockRef { uuid: Uuid(c) });
            proof {
                assert(mid.code_block_live(c) && mid.code_block_nodes()[c].parent is None);
                lemma_contains_cons(c, cbs0.skip(t as int), cbs0.skip(t as int - 1), c);
                assert forall|v: u128|
                    self.code_block_live(v) <==> (c0.code_block_live(v) && !cbs0.skip(
                        t as int - 1,
                    ).contains(v)) by {
                    lemma_contains_cons(c, cbs0.skip(t as int), cbs0.skip(t as int - 1), v);
                }
                assert forall|v: u128|
                    self.code_block_live(v) implies self.code_block_nodes()[v]
                    == c0.code_block_nodes()[v] by {
                    assert(mid.code_block_live(v));
                }
            }
            t = t - 1;
        }
        proof {
            assert(cbs0.skip(0) =~= cbs0);
            assert(cbs0.take(0) =~= Seq::<u128>::empty());
        }
        let ghost dbs0 = c0.interval_nodes()[u].data_blocks;
        proof {
            assert(dbs0.take(dbs0.len() as int) =~= dbs0);
            assert(self.interval_nodes() =~= c0.interval_nodes().insert(
                u,
                ByteIntervalNodeV {
                    code_blocks: Seq::empty(),
                    data_blocks: dbs0.take(dbs0.len() as int),
                    ..c0.interval_nodes()[u]
                },
            ));
            assert(dbs0.skip(dbs0.len() as int) =~= Seq::<u128>::empty());
        }
        let mut t: usize = self.byte_intervals.get(&u).unwrap().data_blocks.len();
        while t > 0
            invariant
                iv.uuid.0 == u,
                self.wf(),
                self.interval_live(u),
                t <= dbs0.len(),
                self.interval_nodes() == c0.interval_nodes().insert(
                    u,
                    ByteIntervalNodeV {
                        code_blocks: Seq::empty(),
                        data_blocks: dbs0.take(t as int),
                        ..c0.interval_nodes()[u]
                    },
                ),
                forall|v: u128|
                    self.code_block_live(v) <==> (c0.code_block_live(v) && !cbs0.contains(v)),
                forall|v: u128|
                    self.code_block_live(v) ==> self.code_block_nodes()[v]
                        == c0.code_block_nodes()[v],
                forall|v: u128|
                    self.data_block_live(v) <==> (c0.data_block_live(v) && !dbs0.skip(
                        t as int,
                    ).contains(v)),
                forall|v: u128|
                    self.data_block_live(v) ==> self.data_block_nodes()[v]
                        == c0.data_block_nodes()[v],
                self.ir_nodes() == c0.ir_nodes(),
                self.module_nodes() == c0.module_nodes(),
                self.section_nodes() == c0.section_nodes(),
                self.proxy_block_nodes() == c0.proxy_block_nodes(),
                self.symbol_nodes() == c0.symbol_nodes(),
                c0.wf(),
                c0.interval_live(u),
                c0.interval_nodes()[u].parent == None::<u128>,
                cbs0 == c0.interval_nodes()[u].code_blocks,
                dbs0 == c0.interval_nodes()[u].data_blocks,
            decreases t,
        {
            let node = self.byte_intervals.get(&u).unwrap();
            let c = node.data_blocks[t - 1];
            proof {
                assert(self.interval_nodes()[u].data_blocks[t - 1] == dbs0[t - 1]);
                assert(self.interval_nodes()[u].data_blocks.contains(c));
            }
            let ghost mid0 = *self;
            let r = iv.remove_data_block(self, Uuid(c));
            proof {
                assert(r is Some);
                let list = mid0.interval_nodes()[u].data_blocks;
                list.index_of_first_ensures(c);
                assert(mid0.interval_node_ok(u));
                assert(list.no_duplicates());
                assert(list.index_of_first(c) == Some(t as int - 1));
                assert(list.remove_value(c) =~= dbs0.take(t as int - 1));
                assert(self.interval_nodes() =~= c0.interval_nodes().insert(
                    u,
                    ByteIntervalNodeV {
                        code_blocks: Seq::empty(),
                        data_blocks: dbs0.take(t as int - 1),
                        ..c0.interval_nodes()[u]
                    },
                ));
            }
            let ghost mid = *self;
            self.release_data_block(DataBlockRef { uuid: Uuid(c) });
            proof {
                assert(mid.data_block_live(c) && mid.data_block_nodes()[c].parent is None);
                assert forall|v: u128|
                    self.data_block_live(v) <==> (c0.data_block_live(v) && !dbs0.skip(
                        t as int - 1,
                    ).contains(v)) by {
                    lemma_contains_cons(c, dbs0.skip(t as int), dbs0.skip(t as int - 1), v);
                }
                assert forall|v: u128|
                    self.data_block_live(v) implies self.data_block_nodes()[v]
                    == c0.data_block_nodes()[v] by {
                    assert(mid.data_block_live(v));
                }
            }
            t = t - 1;
        }
        proof {
            assert(dbs0.skip(0) =~= dbs0);
            assert(dbs0.take(0) =~= Seq::<u128>::empty());
        }
        let ghost cmid = *self;
        self.byte_intervals.remove(&u);
        proof {
            let c1 = *old(self);
            let c2 = *self;
            assert(c2.interval_nodes() =~= cmid.interval_nodes().remove(u));
            assert(cmid.interval_nodes()[u].code_blocks.len() == 0);
            assert(cmid.interval_nodes()[u].data_blocks.len() == 0);
            lemma_wf_remove_interval(cmid, c2, u);
            assert(c2.interval_nodes() =~= c1.interval_nodes().remove(u));
            // tie the survivor characterization to up-references
            assert forall|v: u128|
                (c2.code_block_live(v) <==> (c1.code_block_live(v) && c1.code_block_nodes()[
                    v
                ].parent != Some(u))) by {
                if c1.code_block_live(v) {
                    if c1.code_block_nodes()[v].parent == Some(u) {
                        assert(c1.interval_nodes()[u].code_blocks.contains(v));
                    }
                    if cbs0.contains(v) {
                        let i = choose|i: int| 0 <= i < cbs0.len() && cbs0[i] == v;
                        assert(c1.interval_node_ok(u));
                        assert(c1.code_block_child_ok(cbs0[i], u));
                    }
                }
            }
            assert forall|v: u128|
                (c2.data_block_live(v) <==> (c1.data_block_live(v) && c1.data_block_nodes()[
                    v
                ].parent != Some(u))) by {
                if c1.data_block_live(v) {
                    if c1.data_block_nodes()[v].parent == Some(u) {
                        assert(c1.interval_nodes()[u].data_blocks.contains(v));
                    }
                    if dbs0.contains(v) {
                        let i = choose|i: int| 0 <= i < dbs0.len() && dbs0[i] == v;
                        assert(c1.interval_node_ok(u));
                        assert(c1.data_block_child_ok(dbs0[i], u));
                    }
                }
            }
        }
    }

    /// Destroy a detached code block, removing its identifier from the
    /// registry.  An attached or unknown identifier leaves the context
    /// unchanged: attached nodes are kept alive by their parents.
    pub fn release_code_block(&mut self, block: CodeBlockRef)
        requires
            old(self).wf(),
        ensures
            final(self).wf(),
            ({
                let u = block.uuid.0;
                if old(self).code_block_live(u) && old(self).code_block_nodes()[u].parent
                    is None {
                    &&& final(self).code_block_nodes() == old(self).code_block_nodes().remove(u)
                    &&& final(self).ir_nodes() == old(self).ir_nodes()
                    &&& final(self).module_nodes() == old(self).module_nodes()
                    &&& final(self).section_nodes() == old(self).section_nodes()
                    &&& final(self).interval_nodes() == old(self).interval_nodes()
                    &&& final(self).data_block_nodes() == old(self).data_block_nodes()
                    &&& final(self).proxy_block_nodes() == old(self).proxy_block_nodes()
                    &&& final(self).symbol_nodes() == old(self).symbol_nodes()
                } else {
                    *final(self) == *old(self)
                }
            }),
    {
        let u = block.uuid.0;
        match self.code_blocks.get(&u) {
            None => {
                return ;
            },
            Some(node) => {
                if node.parent.is_some() {
                    return ;
                }
            },
        }
        self.code_blocks.remove(&u);
        proof {
            let c1 = *old(self);
            let c2 = *self;
            assert(c2.code_block_nodes() =~= c1.code_block_nodes().remove(u));
            lemma_wf_remove_code_block(c1, c2, u);
        }
    }

    /// Destroy a detached data block, removing its identifier from the
    /// registry.  An attached or unknown identifier leaves the context
    /// unchanged.
    pub fn release_data_block(&mut self, block: DataBlockRef)
        requires
            old(self).wf(),
        ensures
            final(self).wf(),
            ({
                let u = block.uuid.0;
                if old(self).data_block_live(u) && old(self).data_block_nodes()[u].parent
                    is None {
                    &&& final(self).data_block_nodes() == old(self).data_block_nodes().remove(u)
                    &&& final(self).ir_nodes() == old(self).ir_nodes()
                    &&& final(self).module_nodes() == old(self).module_nodes()
                    &&& final(self).section_nodes() == old(self).section_nodes()
                    &&& final(self).interval_nodes() == old(self).interval_nodes()
                    &&& final(self).code_block_nodes() == old(self).code_block_nodes()
                    &&& final(self).proxy_block_nodes() == old(self).proxy_block_nodes()
                    &&& final(self).symbol_nodes() == old(self).symbol_nodes()
                } else {
                    *final(self) == *old(self)
                }
            }),
    {
        let u = block.uuid.0;
        match self.data_blocks.get(&u) {
            None => {
                return ;
            },
            Some(node) => {
                if node.parent.is_some() {
                    return ;
                }
            },
        }
        self.data_blocks.remove(&u);
        proof {
            let c1 = *old(self);
            let c2 = *self;
            assert(c2.data_block_nodes() =~= c1.data_block_nodes().remove(u));
            lemma_wf_remove_data_block(c1, c2, u);
        }
    }

    /// Destroy a detached proxy block, removing its identifier from the
    /// registry.  An attached or unknown identifier leaves the context
    /// unchanged.
    pub fn release_proxy_block(&mut self, block: ProxyBlockRef)
        requires
            old(self).wf(),
        ensures
            final(self).wf(),
            ({
                let u = block.uuid.0;
                if old(self).proxy_block_live(u) && old(self).proxy_block_nodes()[u].parent
                    is None {
                    &&& final(self).proxy_block_nodes() == old(self).proxy_block_nodes().remove(
                        u,
                    )
                    &&& final(self).ir_nodes() == old(self).ir_nodes()
                    &&& final(self).module_nodes() == old(self).module_nodes()
                    &&& final(self).section_nodes() == old(self).section_nodes()
                    &&& final(self).interval_nodes() == old(self).interval_nodes()
                    &&& final(self).code_block_nodes() == old(self).code_block_nodes()
                    &&& final(self).data_block_nodes() == old(self).data_block_nodes()
                    &&& final(self).symbol_nodes() == old(self).symbol_nodes()
                } else {
                    *final(self) == *old(self)
                }
            }),
    {
        let u = block.uuid.0;
        match self.proxy_blocks.get(&u) {
            None => {
                return ;
            },
            Some(node) => {
                if node.parent.is_some() {
                    return ;
                }
            },
        }
        self.proxy_blocks.remove(&u);
        proof {
            let c1 = *old(self);
            let c2 = *self;
            assert(c2.proxy_block_nodes() =~= c1.proxy_block_nodes().remove(u));
            lemma_wf_remove_proxy_block(c1, c2, u);
        }
    }

    /// Destroy a detached symbol, removing its identifier from the
    /// registry.  An attached or unknown identifier leaves the context
    /// unchanged.
    pub fn release_symbol(&mut self, symbol: SymbolRef)
        requires
            old(self).wf(),
        ensures
            final(self).wf(),
            ({
                let u = symbol.uuid.0;
                if old(self).symbol_live(u) && old(self).symbol_nodes()[u].parent is None {
                    &&& final(self).symbol_nodes() == old(self).symbol_nodes().remove(u)
                    &&& final(self).ir_nodes() == old(self).ir_nodes()
                    &&& final(self).module_nodes() == old(self).module_nodes()
                    &&& final(self).section_nodes() == old(self).section_nodes()
                    &&& final(self).interval_nodes() == old(self).interval_nodes()
                    &&& final(self).code_block_nodes() == old(self).code_block_nodes()
                    &&& final(self).data_block_nodes() == old(self).data_block_nodes()
                    &&& final(self).proxy_block_nodes() == old(self).proxy_block_nodes()
                } else {
                    *final(self) == *old(self)
                }
            }),
    {
        let u = symbol.uuid.0;
        match self.symbols.get(&u) {
            None => {
                return ;
            },
            Some(node) => {
                if node.parent.is_some() {
                    return ;
                }
            },
        }
        self.symbols.remove(&u);
        proof {
            let c1 = *old(self);
            let c2 = *self;
            assert(c2.symbol_nodes() =~= c1.symbol_nodes().remove(u));
            lemma_wf_remove_symbol(c1, c2, u);
        }
    }

    /// Typed lookup of a root record.  Returns a handle exactly when the
    /// identifier names a live root record.
    pub fn find_ir(&self, uuid: &Uuid) -> (r: Option<IRRef>)
        ensures
            r == if self.ir_live(uuid.0) {
                Some(IRRef { uuid: *uuid })
            } else {
                None::<IRRef>
            },
    {
        if self.irs.contains_key(&uuid.0) {
            Some(IRRef { uuid: *uuid })
        } else {
            None
        }
    }

    /// Typed lookup of a module.  Returns a handle exactly when the
    /// identifier names a live module.
    pub fn find_module(&self, uuid: &Uuid) -> (r: Option<ModuleRef>)
        ensures
            r == if self.module_live(uuid.0) {
                Some(ModuleRef { uuid: *uuid })
            } else {
                None::<ModuleRef>
            },
    {
        if self.modules.contains_key(&uuid.0) {
            Some(ModuleRef { uuid: *uuid })
        } else {
            None
        }
    }

    /// Typed lookup of a section.  Returns a handle exactly when the
    /// identifier names a live section.
    pub fn find_section(&self, uuid: &Uuid) -> (r: Option<SectionRef>)
        ensures
            r == if self.section_live(uuid.0) {
                Some(SectionRef { uuid: *uuid })
            } else {
                None::<SectionRef>
            },
    {
        if self.sections.contains_key(&uuid.0) {
            Some(SectionRef { uuid: *uuid })
        } else {
            None
        }
    }

    /// Typed lookup of a byte interval.  Returns a handle exactly when the
    /// identifier names a live byte interval.
    pub fn find_byte_interval(&self, uuid: &Uuid) -> (r: Option<ByteIntervalRef>)
        ensures
            r == if self.interval_live(uuid.0) {
                Some(ByteIntervalRef { uuid: *uuid })
            } else {
                None::<ByteIntervalRef>
            },
    {
        if self.byte_intervals.contains_key(&uuid.0) {
            Some(ByteIntervalRef { uuid: *uuid })
        } else {
            None
        }
    }

    /// Typed lookup of a code block.  Returns a handle exactly when the
    /// identifier names a live code block.
    pub fn find_code_block(&self, uuid: &Uuid) -> (r: Option<CodeBlockRef>)
        ensures
            r == if self.code_block_live(uuid.0) {
                Some(CodeBlockRef { uuid: *uuid })
            } else {
                None::<CodeBlockRef>
            },
    {
        if self.code_blocks.contains_key(&uuid.0) {
            Some(CodeBlockRef { uuid: *uuid })
        } else {
            None
        }
    }

    /// Typed lookup of a data block.  Returns a handle exactly when the
    /// identifier names a live data block.
    pub fn find_data_block(&self, uuid: &Uuid) -> (r: Option<DataBlockRef>)
        ensures
            r == if self.data_block_live(uuid.0) {
                Some(DataBlockRef { uuid: *uuid })
            } else {
                None::<DataBlockRef>
            },
    {
        if self.data_blocks.contains_key(&uuid.0) {
            Some(DataBlockRef { uuid: *uuid })
        } else {
            None
        }
    }

    /// Typed lookup of a proxy block.  Returns a handle exactly when the
    /// identifier names a live proxy block.
    pub fn find_proxy_block(&self, uuid: &Uuid) -> (r: Option<ProxyBlockRef>)
        ensures
            r == if self.proxy_block_live(uuid.0) {
                Some(ProxyBlockRef { uuid: *uuid })
            } else {
                None::<ProxyBlockRef>
            },
    {
        if self.proxy_blocks.contains_key(&uuid.0) {
            Some(ProxyBlockRef { uuid: *uuid })
        } else {
            None
        }
    }

    /// Typed lookup of a symbol.  Returns a handle exactly when the
    /// identifier names a live symbol.
    pub fn find_symbol(&self, uuid: &Uuid) -> (r: Option<SymbolRef>)
        ensures
            r == if self.symbol_live(uuid.0) {
                Some(SymbolRef { uuid: *uuid })
            } else {
                None::<SymbolRef>
            },
    {
        if self.symbols.contains_key(&uuid.0) {
            Some(SymbolRef { uuid: *uuid })
        } else {
            None
        }
    }
}

// Replacement lemmas: swapping one node's scalar content, while keeping its
// up-reference and child lists, preserves well-formedness.

pub(crate) proof fn lemma_wf_replace_ir(c1: Context, c2: Context, u: u128, nv: IrNodeV)
    requires
        c1.wf(),
        c1.ir_live(u),
        nv.modules == c1.ir_nodes()[u].modules,
        c2.ir_nodes() == c1.ir_nodes().insert(u, nv),
        c2.module_nodes() == c1.module_nodes(),
        c2.section_nodes() == c1.section_nodes(),
        c2.interval_nodes() == c1.interval_nodes(),
        c2.code_block_nodes() == c1.code_block_nodes(),
        c2.data_block_nodes() == c1.data_block_nodes(),
        c2.proxy_block_nodes() == c1.proxy_block_nodes(),
        c2.symbol_nodes() == c1.symbol_nodes(),
    ensures
        c2.wf(),
{
    assert(c2.kind_count(u) == c1.kind_count(u)) by {
        assert(c2.ir_live(u) == c1.ir_live(u));
    }
    assert(c1.kind_count(u) <= 1);
    lemma_disjoint_preserved(c1, c2, u);
    lemma_module_children_preserved(c1, c2);
    lemma_section_children_preserved(c1, c2);
    lemma_interval_children_preserved(c1, c2);
    lemma_section_parents_preserved(c1, c2);
    lemma_symbol_parents_preserved(c1, c2);
    lemma_proxy_block_parents_preserved(c1, c2);
    lemma_interval_parents_preserved(c1, c2);
    lemma_code_block_parents_preserved(c1, c2);
    lemma_data_block_parents_preserved(c1, c2);
    lemma_nodes_preserved(c1, c2);
    assert forall|p: u128| c2.ir_live(p) implies c2.ir_node_ok(p) by {
        assert(c1.ir_live(p));
        assert(c1.ir_node_ok(p));
        let ch = c2.ir_nodes()[p].modules;
        assert(ch == c1.ir_nodes()[p].modules);
        assert forall|i: int| 0 <= i < ch.len() implies c2.module_child_ok(ch[i], p) by {
            assert(c1.module_child_ok(ch[i], p));
        }
    }
    assert forall|c: u128| c2.module_live(c) implies match c2.module_nodes()[c].parent {
        Some(p) => c2.ir_live(p) && c2.ir_nodes()[p].modules.contains(c),
        None => true,
    } by {
        assert(c1.module_live(c));
        if c1.module_nodes()[c].parent is Some {
            let p = c1.module_nodes()[c].parent->0;
            assert(c2.ir_nodes()[p].modules == c1.ir_nodes()[p].modules);
        }
    }
}

pub(crate) proof fn lemma_wf_replace_module(c1: Context, c2: Context, u: u128, nv: ModuleNodeV)
    requires
        c1.wf(),
        c1.module_live(u),
        nv.parent == c1.module_nodes()[u].parent,
        nv.sections == c1.module_nodes()[u].sections,
        nv.symbols == c1.module_nodes()[u].symbols,
        nv.proxy_blocks == c1.module_nodes()[u].proxy_blocks,
        c2.module_nodes() == c1.module_nodes().insert(u, nv),
        c2.ir_nodes() == c1.ir_nodes(),
        c2.section_nodes() == c1.section_nodes(),
        c2.interval_nodes() == c1.interval_nodes(),
        c2.code_block_nodes() == c1.code_block_nodes(),
        c2.data_block_nodes() == c1.data_block_nodes(),
        c2.proxy_block_nodes() == c1.proxy_block_nodes(),
        c2.symbol_nodes() == c1.symbol_nodes(),
    ensures
        c2.wf(),
{
    assert(c2.kind_count(u) == c1.kind_count(u)) by {
        assert(c2.module_live(u) == c1.module_live(u));
    }
    assert(c1.kind_count(u) <= 1);
    lemma_disjoint_preserved(c1, c2, u);
    lemma_section_children_preserved(c1, c2);
    lemma_interval_children_preserved(c1, c2);
    lemma_interval_parents_preserved(c1, c2);
    lemma_code_block_parents_preserved(c1, c2);
    lemma_data_block_parents_preserved(c1, c2);
    lemma_nodes_preserved(c1, c2);
    assert forall|p: u128| c2.ir_live(p) implies c2.ir_node_ok(p) by {
        assert(c1.ir_live(p));
        assert(c1.ir_node_ok(p));
        let ch = c2.ir_nodes()[p].modules;
        assert forall|i: int| 0 <= i < ch.len() implies c2.module_child_ok(ch[i], p) by {
            assert(c1.module_child_ok(ch[i], p));
        }
    }
    assert forall|p: u128| c2.module_live(p) implies c2.module_node_ok(p) by {
        assert(c1.module_live(p));
        assert(c1.module_node_ok(p));
        let n = c2.module_nodes()[p];
        assert(n.sections == c1.module_nodes()[p].sections);
        assert(n.symbols == c1.module_nodes()[p].symbols);
        assert(n.proxy_blocks == c1.module_nodes()[p].proxy_blocks);
        assert forall|i: int| 0 <= i < n.sections.len() implies c2.section_child_ok(
            n.sections[i],
            p,
        ) by {
            assert(c1.section_child_ok(n.sections[i], p));
        }
        assert forall|i: int| 0 <= i < n.symbols.len() implies c2.symbol_child_ok(
            n.symbols[i],
            p,
        ) by {
            assert(c1.symbol_child_ok(n.symbols[i], p));
        }
        assert forall|i: int| 0 <= i < n.proxy_blocks.len() implies c2.proxy_block_child_ok(
            n.proxy_blocks[i],
            p,
        ) by {
            assert(c1.proxy_block_child_ok(n.proxy_blocks[i], p));
        }
    }
    assert forall|c: u128| c2.module_live(c) implies match c2.module_nodes()[c].parent {
        Some(p) => c2.ir_live(p) && c2.ir_nodes()[p].modules.contains(c),
        None => true,
    } by {
        assert(c1.module_live(c));
        assert(c2.module_nodes()[c].parent == c1.module_nodes()[c].parent);
    }
    assert forall|c: u128| c2.section_live(c) implies match c2.section_nodes()[c].parent {
        Some(p) => c2.module_live(p) && c2.module_nodes()[p].sections.contains(c),
        None => true,
    } by {
        assert(c1.section_live(c));
        if c1.section_nodes()[c].parent is Some {
            let p = c1.section_nodes()[c].parent->0;
            assert(c2.module_nodes()[p].sections == c1.module_nodes()[p].sections);
        }
    }
    assert forall|c: u128| c2.symbol_live(c) implies match c2.symbol_nodes()[c].parent {
        Some(p) => c2.module_live(p) && c2.module_nodes()[p].symbols.contains(c),
        None => true,
    } by {
        assert(c1.symbol_live(c));
        if c1.symbol_nodes()[c].parent is Some {
            let p = c1.symbol_nodes()[c].parent->0;
            assert(c2.module_nodes()[p].symbols == c1.module_nodes()[p].symbols);
        }
    }
    assert forall|c: u128| c2.proxy_block_live(c) implies match c2.proxy_block_nodes()[c].parent {
        Some(p) => c2.module_live(p) && c2.module_nodes()[p].proxy_blocks.contains(c),
        None => true,
    } by {
        assert(c1.proxy_block_live(c));
        if c1.proxy_block_nodes()[c].parent is Some {
            let p = c1.proxy_block_nodes()[c].parent->0;
            assert(c2.module_nodes()[p].proxy_blocks == c1.module_nodes()[p].proxy_blocks);
        }
    }
}

pub(crate) proof fn lemma_wf_replace_section(c1: Context, c2: Context, u: u128, nv: SectionNodeV)
    requires
        c1.wf(),
        c1.section_live(u),
        nv.parent == c1.section_nodes()[u].parent,
        nv.byte_intervals == c1.section_nodes()[u].byte_intervals,
        nv.inv(),
        c2.section_nodes() == c1.section_nodes().insert(u, nv),
        c2.ir_nodes() == c1.ir_nodes(),
        c2.module_nodes() == c1.module_nodes(),
        c2.interval_nodes() == c1.interval_nodes(),
        c2.code_block_nodes() == c1.code_block_nodes(),
        c2.data_block_nodes() == c1.data_block_nodes(),
        c2.proxy_block_nodes() == c1.proxy_block_nodes(),
        c2.symbol_nodes() == c1.symbol_nodes(),
    ensures
        c2.wf(),
{
    assert(c2.kind_count(u) == c1.kind_count(u)) by {
        assert(c2.section_live(u) == c1.section_live(u));
    }
    assert(c1.kind_count(u) <= 1);
    lemma_disjoint_preserved(c1, c2, u);
    lemma_ir_children_preserved(c1, c2);
    lemma_interval_children_preserved(c1, c2);
    lemma_module_parents_preserved(c1, c2);
    lemma_symbol_parents_preserved(c1, c2);
    lemma_proxy_block_parents_preserved(c1, c2);
    lemma_code_block_parents_preserved(c1, c2);
    lemma_data_block_parents_preserved(c1, c2);
    assert forall|p: u128| c2.module_live(p) implies c2.module_node_ok(p) by {
        assert(c1.module_live(p));
        assert(c1.module_node_ok(p));
        let n = c2.module_nodes()[p];
        assert forall|i: int| 0 <= i < n.sections.len() implies c2.section_child_ok(
            n.sections[i],
            p,
        ) by {
            assert(c1.section_child_ok(n.sections[i], p));
        }
        assert forall|i: int| 0 <= i < n.symbols.len() implies c2.symbol_child_ok(
            n.symbols[i],
            p,
        ) by {
            assert(c1.symbol_child_ok(n.symbols[i], p));
        }
        assert forall|i: int| 0 <= i < n.proxy_blocks.len() implies c2.proxy_block_child_ok(
            n.proxy_blocks[i],
            p,
        ) by {
            assert(c1.proxy_block_child_ok(n.proxy_blocks[i], p));
        }
    }
    assert forall|p: u128| c2.section_live(p) implies c2.section_node_ok(p) by {
        assert(c1.section_live(p));
        assert(c1.section_node_ok(p));
        let ch = c2.section_nodes()[p].byte_intervals;
        assert(ch == c1.section_nodes()[p].byte_intervals);
        assert forall|i: int| 0 <= i < ch.len() implies c2.interval_child_ok(ch[i], p) by {
            assert(c1.interval_child_ok(ch[i], p));
        }
    }
    assert forall|c: u128| c2.section_live(c) implies match c2.section_nodes()[c].parent {
        Some(p) => c2.module_live(p) && c2.module_nodes()[p].sections.contains(c),
        None => true,
    } by {
        assert(c1.section_live(c));
        assert(c2.section_nodes()[c].parent == c1.section_nodes()[c].parent);
    }
    assert forall|c: u128| c2.interval_live(c) implies match c2.interval_nodes()[c].parent {
        Some(p) => c2.section_live(p) && c2.section_nodes()[p].byte_intervals.contains(c),
        None => true,
    } by {
        assert(c1.interval_live(c));
        if c1.interval_nodes()[c].parent is Some {
            let p = c1.interval_nodes()[c].parent->0;
            assert(c2.section_nodes()[p].byte_intervals == c1.section_nodes()[p].byte_intervals);
        }
    }
    assert forall|v: u128| c2.section_live(v) implies c2.section_nodes()[v].inv() by {
        assert(c1.section_live(v));
        if v != u {
            assert(c2.section_nodes()[v] == c1.section_nodes()[v]);
        }
    }
    assert forall|v: u128| c2.interval_live(v) implies c2.interval_nodes()[v].inv() by {
        assert(c1.interval_live(v));
    }
}

pub(crate) proof fn lemma_wf_replace_interval(c1: Context, c2: Context, u: u128, nv: ByteIntervalNodeV)
    requires
        c1.wf(),
        c1.interval_live(u),
        nv.parent == c1.interval_nodes()[u].parent,
        nv.code_blocks == c1.interval_nodes()[u].code_blocks,
        nv.data_blocks == c1.interval_nodes()[u].data_blocks,
        nv.inv(),
        c2.interval_nodes() == c1.interval_nodes().insert(u, nv),
        c2.ir_nodes() == c1.ir_nodes(),
        c2.module_nodes() == c1.module_nodes(),
        c2.section_nodes() == c1.section_nodes(),
        c2.code_block_nodes() == c1.code_block_nodes(),
        c2.data_block_nodes() == c1.data_block_nodes(),
        c2.proxy_block_nodes() == c1.proxy_block_nodes(),
        c2.symbol_nodes() == c1.symbol_nodes(),
    ensures
        c2.wf(),
{
    assert(c2.kind_count(u) == c1.kind_count(u)) by {
        assert(c2.interval_live(u) == c1.interval_live(u));
    }
    assert(c1.kind_count(u) <= 1);
    lemma_disjoint_preserved(c1, c2, u);
    lemma_ir_children_preserved(c1, c2);
    lemma_module_children_preserved(c1, c2);
    lemma_module_parents_preserved(c1, c2);
    lemma_section_parents_preserved(c1, c2);
    lemma_symbol_parents_preserved(c1, c2);
    lemma_proxy_block_parents_preserved(c1, c2);
    assert forall|p: u128| c2.section_live(p) implies c2.section_node_ok(p) by {
        assert(c1.section_live(p));
        assert(c1.section_node_ok(p));
        let ch = c2.section_nodes()[p].byte_intervals;
        assert forall|i: int| 0 <= i < ch.len() implies c2.interval_child_ok(ch[i], p) by {
            assert(c1.interval_child_ok(ch[i], p));
        }
    }
    assert forall|p: u128| c2.interval_live(p) implies c2.interval_node_ok(p) by {
        assert(c1.interval_live(p));
        assert(c1.interval_node_ok(p));
        let n = c2.interval_nodes()[p];
        assert(n.code_blocks == c1.interval_nodes()[p].code_blocks);
        assert(n.data_blocks == c1.interval_nodes()[p].data_blocks);
        assert forall|i: int| 0 <= i < n.code_blocks.len() implies c2.code_block_child_ok(
            n.code_blocks[i],
            p,
        ) by {
            assert(c1.code_block_child_ok(n.code_blocks[i], p));
        }
        assert forall|i: int| 0 <= i < n.data_blocks.len() implies c2.data_block_child_ok(
            n.data_blocks[i],
            p,
        ) by {
            assert(c1.data_block_child_ok(n.data_blocks[i], p));
        }
    }
    assert forall|c: u128| c2.interval_live(c) implies match c2.interval_nodes()[c].parent {
        Some(p) => c2.section_live(p) && c2.section_nodes()[p].byte_intervals.contains(c),
        None => true,
    } by {
        assert(c1.interval_live(c));
        assert(c2.interval_nodes()[c].parent == c1.interval_nodes()[c].parent);
    }
    assert forall|c: u128| c2.code_block_live(c) implies match c2.code_block_nodes()[c].parent {
        Some(p) => c2.interval_live(p) && c2.interval_nodes()[p].code_blocks.contains(c),
        None => true,
    } by {
        assert(c1.code_block_live(c));
        if c1.code_block_nodes()[c].parent is Some {
            let p = c1.code_block_nodes()[c].parent->0;
            assert(c2.interval_nodes()[p].code_blocks == c1.interval_nodes()[p].code_blocks);
        }
    }
    assert forall|c: u128| c2.data_block_live(c) implies match c2.data_block_nodes()[c].parent {
        Some(p) => c2.interval_live(p) && c2.interval_nodes()[p].data_blocks.contains(c),
        None => true,
    } by {
        assert(c1.data_block_live(c));
        if c1.data_block_nodes()[c].parent is Some {
            let p = c1.data_block_nodes()[c].parent->0;
            assert(c2.interval_nodes()[p].data_blocks == c1.interval_nodes()[p].data_blocks);
        }
    }
    assert forall|v: u128| c2.section_live(v) implies c2.section_nodes()[v].inv() by {
        assert(c1.section_live(v));
    }
    assert forall|v: u128| c2.interval_live(v) implies c2.interval_nodes()[v].inv() by {
        assert(c1.interval_live(v));
        if v != u {
            assert(c2.interval_nodes()[v] == c1.interval_nodes()[v]);
        }
    }
}

pub(crate) proof fn lemma_wf_replace_code_block(c1: Context, c2: Context, u: u128, nv: CodeBlock)
    requires
        c1.wf(),
        c1.code_block_live(u),
        nv.parent == c1.code_block_nodes()[u].parent,
        c2.code_block_nodes() == c1.code_block_nodes().insert(u, nv),
        c2.ir_nodes() == c1.ir_nodes(),
        c2.module_nodes() == c1.module_nodes(),
        c2.section_nodes() == c1.section_nodes(),
        c2.interval_nodes() == c1.interval_nodes(),
        c2.data_block_nodes() == c1.data_block_nodes(),
        c2.proxy_block_nodes() == c1.proxy_block_nodes(),
        c2.symbol_nodes() == c1.symbol_nodes(),
    ensures
        c2.wf(),
{
    assert(c2.kind_count(u) == c1.kind_count(u)) by {
        assert(c2.code_block_live(u) == c1.code_block_live(u));
    }
    assert(c1.kind_count(u) <= 1);
    lemma_disjoint_preserved(c1, c2, u);
    lemma_ir_children_preserved(c1, c2);
    lemma_module_children_preserved(c1, c2);
    lemma_section_children_preserved(c1, c2);
    lemma_module_parents_preserved(c1, c2);
    lemma_section_parents_preserved(c1, c2);
    lemma_symbol_parents_preserved(c1, c2);
    lemma_proxy_block_parents_preserved(c1, c2);
    lemma_interval_parents_preserved(c1, c2);
    lemma_data_block_parents_preserved(c1, c2);
    lemma_nodes_preserved(c1, c2);
    assert forall|p: u128| c2.interval_live(p) implies c2.interval_node_ok(p) by {
        assert(c1.interval_live(p));
        assert(c1.interval_node_ok(p));
        let n = c2.interval_nodes()[p];
        assert forall|i: int| 0 <= i < n.code_blocks.len() implies c2.code_block_child_ok(
            n.code_blocks[i],
            p,
        ) by {
            assert(c1.code_block_child_ok(n.code_blocks[i], p));
        }
        assert forall|i: int| 0 <= i < n.data_blocks.len() implies c2.data_block_child_ok(
            n.data_blocks[i],
            p,
        ) by {
            assert(c1.data_block_child_ok(n.data_blocks[i], p));
        }
    }
    assert forall|c: u128| c2.code_block_live(c) implies match c2.code_block_nodes()[c].parent {
        Some(p) => c2.interval_live(p) && c2.interval_nodes()[p].code_blocks.contains(c),
        None => true,
    } by {
        assert(c1.code_block_live(c));
        assert(c2.code_block_nodes()[c].parent == c1.code_block_nodes()[c].parent);
    }
}

pub(crate) proof fn lemma_wf_replace_data_block(c1: Context, c2: Context, u: u128, nv: DataBlock)
    requires
        c1.wf(),
        c1.data_block_live(u),
        nv.parent == c1.data_block_nodes()[u].parent,
        c2.data_block_nodes() == c1.data_block_nodes().insert(u, nv),
        c2.ir_nodes() == c1.ir_nodes(),
        c2.module_nodes() == c1.module_nodes(),
        c2.section_nodes() == c1.section_nodes(),
        c2.interval_nodes() == c1.interval_nodes(),
        c2.code_block_nodes() == c1.code_block_nodes(),
        c2.proxy_block_nodes() == c1.proxy_block_nodes(),
        c2.symbol_nodes() == c1.symbol_nodes(),
    ensures
        c2.wf(),
{
    assert(c2.kind_count(u) == c1.kind_count(u)) by {
        assert(c2.data_block_live(u) == c1.data_block_live(u));
    }
    assert(c1.kind_count(u) <= 1);
    lemma_disjoint_preserved(c1, c2, u);
    lemma_ir_children_preserved(c1, c2);
    lemma_module_children_preserved(c1, c2);
    lemma_section_children_preserved(c1, c2);
    lemma_module_parents_preserved(c1, c2);
    lemma_section_parents_preserved(c1, c2);
    lemma_symbol_parents_preserved(c1, c2);
    lemma_proxy_block_parents_preserved(c1, c2);
    lemma_interval_parents_preserved(c1, c2);
    lemma_code_block_parents_preserved(c1, c2);
    lemma_nodes_preserved(c1, c2);
    assert forall|p: u128| c2.interval_live(p) implies c2.interval_node_ok(p) by {
        assert(c1.interval_live(p));
        assert(c1.interval_node_ok(p));
        let n = c2.interval_nodes()[p];
        assert forall|i: int| 0 <= i < n.code_blocks.len() implies c2.code_block_child_ok(
            n.code_blocks[i],
            p,
        ) by {
            assert(c1.code_block_child_ok(n.code_blocks[i], p));
        }
        assert forall|i: int| 0 <= i < n.data_blocks.len() implies c2.data_block_child_ok(
            n.data_blocks[i],
            p,
        ) by {
            assert(c1.data_block_child_ok(n.data_blocks[i], p));
        }
    }
    assert forall|c: u128| c2.data_block_live(c) implies match c2.data_block_nodes()[c].parent {
        Some(p) => c2.interval_live(p) && c2.interval_nodes()[p].data_blocks.contains(c),
        None => true,
    } by {
        assert(c1.data_block_live(c));
        assert(c2.data_block_nodes()[c].parent == c1.data_block_nodes()[c].parent);
    }
}

pub(crate) proof fn lemma_wf_replace_symbol(c1: Context, c2: Context, u: u128, nv: SymbolNodeV)
    requires
        c1.wf(),
        c1.symbol_live(u),
        nv.parent == c1.symbol_nodes()[u].parent,
        c2.symbol_nodes() == c1.symbol_nodes().insert(u, nv),
        c2.ir_nodes() == c1.ir_nodes(),
        c2.module_nodes() == c1.module_nodes(),
        c2.section_nodes() == c1.section_nodes(),
        c2.interval_nodes() == c1.interval_nodes(),
        c2.code_block_nodes() == c1.code_block_nodes(),
        c2.data_block_nodes() == c1.data_block_nodes(),
        c2.proxy_block_nodes() == c1.proxy_block_nodes(),
    ensures
        c2.wf(),
{
    assert(c2.kind_count(u) == c1.kind_count(u)) by {
        assert(c2.symbol_live(u) == c1.symbol_live(u));
    }
    assert(c1.kind_count(u) <= 1);
    lemma_disjoint_preserved(c1, c2, u);
    lemma_ir_children_preserved(c1, c2);
    lemma_section_children_preserved(c1, c2);
    lemma_interval_children_preserved(c1, c2);
    lemma_module_parents_preserved(c1, c2);
    lemma_section_parents_preserved(c1, c2);
    lemma_proxy_block_parents_preserved(c1, c2);
    lemma_interval_parents_preserved(c1, c2);
    lemma_code_block_parents_preserved(c1, c2);
    lemma_data_block_parents_preserved(c1, c2);
    lemma_nodes_preserved(c1, c2);
    assert forall|p: u128| c2.module_live(p) implies c2.module_node_ok(p) by {
        assert(c1.module_live(p));
        assert(c1.module_node_ok(p));
        let n = c2.module_nodes()[p];
        assert forall|i: int| 0 <= i < n.sections.len() implies c2.section_child_ok(
            n.sections[i],
            p,
        ) by {
            assert(c1.section_child_ok(n.sections[i], p));
        }
        assert forall|i: int| 0 <= i < n.symbols.len() implies c2.symbol_child_ok(
            n.symbols[i],
            p,
        ) by {
            assert(c1.symbol_child_ok(n.symbols[i], p));
        }
        assert forall|i: int| 0 <= i < n.proxy_blocks.len() implies c2.proxy_block_child_ok(
            n.proxy_blocks[i],
            p,
        ) by {
            assert(c1.proxy_block_child_ok(n.proxy_blocks[i], p));
        }
    }
    assert forall|c: u128| c2.symbol_live(c) implies match c2.symbol_nodes()[c].parent {
        Some(p) => c2.module_live(p) && c2.module_nodes()[p].symbols.contains(c),
        None => true,
    } by {
        assert(c1.symbol_live(c));
        assert(c2.symbol_nodes()[c].parent == c1.symbol_nodes()[c].parent);
    }
}

// Attach/detach lemmas: appending a detached child to a parent's list while
// setting its up-reference, and the reverse, preserve well-formedness.

/// A detached module is listed by no root record.
pub(crate) proof fn lemma_detached_module_not_listed(c1: Context, c: u128, q: u128)
    requires
        c1.wf(),
        c1.module_live(c),
        c1.module_nodes()[c].parent == None::<u128>,
        c1.ir_live(q),
    ensures
        !c1.ir_nodes()[q].modules.contains(c),
{
    if c1.ir_nodes()[q].modules.contains(c) {
        let i = choose|i: int|
            0 <= i < c1.ir_nodes()[q].modules.len() && c1.ir_nodes()[q].modules[i] == c;
        assert(c1.ir_node_ok(q));
        assert(c1.module_child_ok(c1.ir_nodes()[q].modules[i], q));
    }
}

pub(crate) proof fn lemma_wf_attach_module(c1: Context, c2: Context, p: u128, c: u128)
    requires
        c1.wf(),
        c1.ir_live(p),
        c1.module_live(c),
        c1.module_nodes()[c].parent == None::<u128>,
        c2.ir_nodes() == c1.ir_nodes().insert(
            p,
            IrNodeV { modules: c1.ir_nodes()[p].modules.push(c), ..c1.ir_nodes()[p] },
        ),
        c2.module_nodes() == c1.module_nodes().insert(
            c,
            ModuleNodeV { parent: Some(p), ..c1.module_nodes()[c] },
        ),
        c2.section_nodes() == c1.section_nodes(),
        c2.interval_nodes() == c1.interval_nodes(),
        c2.code_block_nodes() == c1.code_block_nodes(),
        c2.data_block_nodes() == c1.data_block_nodes(),
        c2.proxy_block_nodes() == c1.proxy_block_nodes(),
        c2.symbol_nodes() == c1.symbol_nodes(),
    ensures
        c2.wf(),
{
    lemma_section_children_preserved(c1, c2);
    lemma_interval_children_preserved(c1, c2);
    lemma_interval_parents_preserved(c1, c2);
    lemma_code_block_parents_preserved(c1, c2);
    lemma_data_block_parents_preserved(c1, c2);
    lemma_nodes_preserved(c1, c2);
    assert forall|v: u128| c2.kind_count(v) <= 1 by {
        assert(c1.kind_count(v) <= 1);
        assert(c2.kind_count(v) == c1.kind_count(v));
    }
    // ir_children_ok
    assert forall|q: u128| c2.ir_live(q) implies c2.ir_node_ok(q) by {
        assert(c1.ir_live(q));
        assert(c1.ir_node_ok(q));
        let ch0 = c1.ir_nodes()[q].modules;
        let ch = c2.ir_nodes()[q].modules;
        if q == p {
            lemma_detached_module_not_listed(c1, c, q);
            assert(ch == ch0.push(c));
            assert forall|i: int, j: int| 0 <= i < j < ch.len() implies ch[i] != ch[j] by {
                if j < ch0.len() {
                } else {
                    assert(ch[j] == c);
                    assert(ch[i] == ch0[i]);
                    assert(!ch0.contains(c));
                }
            }
            assert(ch.no_duplicates());
            assert forall|i: int| 0 <= i < ch.len() implies c2.module_child_ok(ch[i], q) by {
                if i < ch0.len() {
                    assert(c1.module_child_ok(ch0[i], q));
                    assert(ch0[i] != c);
                } else {
                    assert(ch[i] == c);
                }
            }
        } else {
            assert(ch == ch0);
            assert forall|i: int| 0 <= i < ch.len() implies c2.module_child_ok(ch[i], q) by {
                assert(c1.module_child_ok(ch0[i], q));
                assert(ch0[i] != c);
            }
        }
    }
    // module_children_ok: child lists of every module are unchanged.
    assert forall|q: u128| c2.module_live(q) implies c2.module_node_ok(q) by {
        assert(c1.module_live(q));
        assert(c1.module_node_ok(q));
        let n = c2.module_nodes()[q];
        assert(n.sections == c1.module_nodes()[q].sections);
        assert(n.symbols == c1.module_nodes()[q].symbols);
        assert(n.proxy_blocks == c1.module_nodes()[q].proxy_blocks);
        assert forall|i: int| 0 <= i < n.sections.len() implies c2.section_child_ok(
            n.sections[i],
            q,
        ) by {
            assert(c1.section_child_ok(n.sections[i], q));
        }
        assert forall|i: int| 0 <= i < n.symbols.len() implies c2.symbol_child_ok(
            n.symbols[i],
            q,
        ) by {
            assert(c1.symbol_child_ok(n.symbols[i], q));
        }
        assert forall|i: int| 0 <= i < n.proxy_blocks.len() implies c2.proxy_block_child_ok(
            n.proxy_blocks[i],
            q,
        ) by {
            assert(c1.proxy_block_child_ok(n.proxy_blocks[i], q));
        }
    }
    // module_parents_ok
    assert forall|v: u128| c2.module_live(v) implies match c2.module_nodes()[v].parent {
        Some(q) => c2.ir_live(q) && c2.ir_nodes()[q].modules.contains(v),
        None => true,
    } by {
        assert(c1.module_live(v));
        if v == c {
            let ch = c2.ir_nodes()[p].modules;
            assert(ch == c1.ir_nodes()[p].modules.push(c));
            assert(ch[ch.len() - 1] == c);
            assert(ch.contains(c));
        } else {
            assert(c2.module_nodes()[v].parent == c1.module_nodes()[v].parent);
            if c1.module_nodes()[v].parent is Some {
                let q = c1.module_nodes()[v].parent->0;
                let ch0 = c1.ir_nodes()[q].modules;
                assert(ch0.contains(v));
                let i = choose|i: int| 0 <= i < ch0.len() && ch0[i] == v;
                assert(c2.ir_nodes()[q].modules[i] == v);
                assert(c2.ir_nodes()[q].modules.contains(v));
            }
        }
    }
    // section/symbol/proxy parents: every module's child lists are
    // unchanged.
    assert forall|v: u128| c2.section_live(v) implies match c2.section_nodes()[v].parent {
        Some(q) => c2.module_live(q) && c2.module_nodes()[q].sections.contains(v),
        None => true,
    } by {
        assert(c1.section_live(v));
        if c1.section_nodes()[v].parent is Some {
            let q = c1.section_nodes()[v].parent->0;
            assert(c2.module_nodes()[q].sections == c1.module_nodes()[q].sections);
        }
    }
    assert forall|v: u128| c2.symbol_live(v) implies match c2.symbol_nodes()[v].parent {
        Some(q) => c2.module_live(q) && c2.module_nodes()[q].symbols.contains(v),
        None => true,
    } by {
        assert(c1.symbol_live(v));
        if c1.symbol_nodes()[v].parent is Some {
            let q = c1.symbol_nodes()[v].parent->0;
            assert(c2.module_nodes()[q].symbols == c1.module_nodes()[q].symbols);
        }
    }
    assert forall|v: u128| c2.proxy_block_live(v) implies match c2.proxy_block_nodes()[v].parent {
        Some(q) => c2.module_live(q) && c2.module_nodes()[q].proxy_blocks.contains(v),
        None => true,
    } by {
        assert(c1.proxy_block_live(v));
        if c1.proxy_block_nodes()[v].parent is Some {
            let q = c1.proxy_block_nodes()[v].parent->0;
            assert(c2.module_nodes()[q].proxy_blocks == c1.module_nodes()[q].proxy_blocks);
        }
    }
}

pub(crate) proof fn lemma_wf_detach_module(c1: Context, c2: Context, p: u128, c: u128, i: int)
    requires
        c1.wf(),
        c1.ir_live(p),
        c1.module_live(c),
        0 <= i < c1.ir_nodes()[p].modules.len(),
        c1.ir_nodes()[p].modules[i] == c,
        c2.ir_nodes() == c1.ir_nodes().insert(
            p,
            IrNodeV { modules: c1.ir_nodes()[p].modules.remove(i), ..c1.ir_nodes()[p] },
        ),
        c2.module_nodes() == c1.module_nodes().insert(
            c,
            ModuleNodeV { parent: None, ..c1.module_nodes()[c] },
        ),
        c2.section_nodes() == c1.section_nodes(),
        c2.interval_nodes() == c1.interval_nodes(),
        c2.code_block_nodes() == c1.code_block_nodes(),
        c2.data_block_nodes() == c1.data_block_nodes(),
        c2.proxy_block_nodes() == c1.proxy_block_nodes(),
        c2.symbol_nodes() == c1.symbol_nodes(),
    ensures
        c2.wf(),
{
    lemma_section_children_preserved(c1, c2);
    lemma_interval_children_preserved(c1, c2);
    lemma_interval_parents_preserved(c1, c2);
    lemma_code_block_parents_preserved(c1, c2);
    lemma_data_block_parents_preserved(c1, c2);
    lemma_nodes_preserved(c1, c2);
    assert forall|v: u128| c2.kind_count(v) <= 1 by {
        assert(c1.kind_count(v) <= 1);
        assert(c2.kind_count(v) == c1.kind_count(v));
    }
    assert(c1.ir_node_ok(p));
    let ch0 = c1.ir_nodes()[p].modules;
    let chn = ch0.remove(i);
    // the removed list keeps the other elements, in order
    assert(chn.len() == ch0.len() - 1);
    assert(forall|k: int| 0 <= k < i ==> chn[k] == ch0[k]);
    assert(forall|k: int| i <= k < chn.len() ==> chn[k] == ch0[k + 1]);
    // ir_children_ok
    assert forall|q: u128| c2.ir_live(q) implies c2.ir_node_ok(q) by {
        assert(c1.ir_live(q));
        assert(c1.ir_node_ok(q));
        let ch = c2.ir_nodes()[q].modules;
        if q == p {
            assert(ch == chn);
            assert forall|a: int, b: int| 0 <= a < b < ch.len() implies ch[a] != ch[b] by {
                let a0: int = if a < i { a } else { a + 1 };
                let b0: int = if b < i { b } else { b + 1 };
                assert(ch[a] == ch0[a0]);
                assert(ch[b] == ch0[b0]);
            }
            assert(ch.no_duplicates());
            assert forall|k: int| 0 <= k < ch.len() implies c2.module_child_ok(ch[k], q) by {
                let k0: int = if k < i { k } else { k + 1 };
                assert(ch[k] == ch0[k0]);
                assert(c1.module_child_ok(ch0[k0], q));
                assert(ch0[k0] != c);
            }
        } else {
            assert(ch == c1.ir_nodes()[q].modules);
            assert forall|k: int| 0 <= k < ch.len() implies c2.module_child_ok(ch[k], q) by {
                assert(c1.module_child_ok(ch[k], q));
                // a module listed by `q` has parent `q`, so it is not `c`
                assert(c1.module_child_ok(ch0[i], p));
                assert(ch[k] != c);
            }
        }
    }
    // module_children_ok: child lists of every module are unchanged.
    assert forall|q: u128| c2.module_live(q) implies c2.module_node_ok(q) by {
        assert(c1.module_live(q));
        assert(c1.module_node_ok(q));
        let n = c2.module_nodes()[q];
        assert(n.sections == c1.module_nodes()[q].sections);
        assert(n.symbols == c1.module_nodes()[q].symbols);
        assert(n.proxy_blocks == c1.module_nodes()[q].proxy_blocks);
        assert forall|k: int| 0 <= k < n.sections.len() implies c2.section_child_ok(
            n.sections[k],
            q,
        ) by {
            assert(c1.section_child_ok(n.sections[k], q));
        }
        assert forall|k: int| 0 <= k < n.symbols.len() implies c2.symbol_child_ok(
            n.symbols[k],
            q,
        ) by {
            assert(c1.symbol_child_ok(n.symbols[k], q));
        }
        assert forall|k: int| 0 <= k < n.proxy_blocks.len() implies c2.proxy_block_child_ok(
            n.proxy_blocks[k],
            q,
        ) by {
            assert(c1.proxy_block_child_ok(n.proxy_blocks[k], q));
        }
    }
    // module_parents_ok: `c` is now detached; any other module keeps its
    // position in its parent's list.
    assert forall|v: u128| c2.module_live(v) implies match c2.module_nodes()[v].parent {
        Some(q) => c2.ir_live(q) && c2.ir_nodes()[q].modules.contains(v),
        None => true,
    } by {
        assert(c1.module_live(v));
        if v != c {
            assert(c2.module_nodes()[v].parent == c1.module_nodes()[v].parent);
            if c1.module_nodes()[v].parent is Some {
                let q = c1.module_nodes()[v].parent->0;
                let cq0 = c1.ir_nodes()[q].modules;
                assert(cq0.contains(v));
                let k = choose|k: int| 0 <= k < cq0.len() && cq0[k] == v;
                if q == p {
                    // v sits at an index other than i, since ch0[i] == c
                    assert(c1.module_child_ok(ch0[i], p));
                    assert(v != c);
                    let k2: int = if k < i { k } else { k - 1 };
                    assert(chn[k2] == v);
                    assert(c2.ir_nodes()[q].modules.contains(v));
                } else {
                    assert(c2.ir_nodes()[q].modules[k] == v);
                    assert(c2.ir_nodes()[q].modules.contains(v));
                }
            }
        }
    }
    // section/symbol/proxy parents: module child lists unchanged.
    assert forall|v: u128| c2.section_live(v) implies match c2.section_nodes()[v].parent {
        Some(q) => c2.module_live(q) && c2.module_nodes()[q].sections.contains(v),
        None => true,
    } by {
        assert(c1.section_live(v));
        if c1.section_nodes()[v].parent is Some {
            let q = c1.section_nodes()[v].parent->0;
            assert(c2.module_nodes()[q].sections == c1.module_nodes()[q].sections);
        }
    }
    assert forall|v: u128| c2.symbol_live(v) implies match c2.symbol_nodes()[v].parent {
        Some(q) => c2.module_live(q) && c2.module_nodes()[q].symbols.contains(v),
        None => true,
    } by {
        assert(c1.symbol_live(v));
        if c1.symbol_nodes()[v].parent is Some {
            let q = c1.symbol_nodes()[v].parent->0;
            assert(c2.module_nodes()[q].symbols == c1.module_nodes()[q].symbols);
        }
    }
    assert forall|v: u128| c2.proxy_block_live(v) implies match c2.proxy_block_nodes()[v].parent {
        Some(q) => c2.module_live(q) && c2.module_nodes()[q].proxy_blocks.contains(v),
        None => true,
    } by {
        assert(c1.proxy_block_live(v));
        if c1.proxy_block_nodes()[v].parent is Some {
            let q = c1.proxy_block_nodes()[v].parent->0;
            assert(c2.module_nodes()[q].proxy_blocks == c1.module_nodes()[q].proxy_blocks);
        }
    }
}

/// A detached section is listed by no module.
pub(crate) proof fn lemma_detached_section_not_listed(c1: Context, c: u128, q: u128)
    requires
        c1.wf(),
        c1.section_live(c),
        c1.section_nodes()[c].parent == None::<u128>,
        c1.module_live(q),
    ensures
        !c1.module_nodes()[q].sections.contains(c),
{
    if c1.module_nodes()[q].sections.contains(c) {
        let i = choose|i: int|
            0 <= i < c1.module_nodes()[q].sections.len() && c1.module_nodes()[q].sections[i] == c;
        assert(c1.module_node_ok(q));
        assert(c1.section_child_ok(c1.module_nodes()[q].sections[i], q));
    }
}

pub(crate) proof fn lemma_wf_attach_section(c1: Context, c2: Context, p: u128, c: u128)
    requires
        c1.wf(),
        c1.module_live(p),
        c1.section_live(c),
        c1.section_nodes()[c].parent == None::<u128>,
        c2.module_nodes() == c1.module_nodes().insert(
            p,
            ModuleNodeV { sections: c1.module_nodes()[p].sections.push(c), ..c1.module_nodes()[p] },
        ),
        c2.section_nodes() == c1.section_nodes().insert(
            c,
            SectionNodeV { parent: Some(p), ..c1.section_nodes()[c] },
        ),
        c2.ir_nodes() == c1.ir_nodes(),
        c2.interval_nodes() == c1.interval_nodes(),
        c2.code_block_nodes() == c1.code_block_nodes(),
        c2.data_block_nodes() == c1.data_block_nodes(),
        c2.proxy_block_nodes() == c1.proxy_block_nodes(),
        c2.symbol_nodes() == c1.symbol_nodes(),
    ensures
        c2.wf(),
{
    lemma_interval_children_preserved(c1, c2);
    lemma_code_block_parents_preserved(c1, c2);
    lemma_data_block_parents_preserved(c1, c2);
    assert forall|v: u128| c2.kind_count(v) <= 1 by {
        assert(c1.kind_count(v) <= 1);
        assert(c2.kind_count(v) == c1.kind_count(v));
    }
    // ir_children_ok: every module keeps its up-reference.
    assert forall|q: u128| c2.ir_live(q) implies c2.ir_node_ok(q) by {
        assert(c1.ir_live(q));
        assert(c1.ir_node_ok(q));
        let ch = c2.ir_nodes()[q].modules;
        assert forall|i: int| 0 <= i < ch.len() implies c2.module_child_ok(ch[i], q) by {
            assert(c1.module_child_ok(ch[i], q));
            assert(c2.module_nodes()[ch[i]].parent == c1.module_nodes()[ch[i]].parent);
        }
    }
    // module_children_ok
    assert forall|q: u128| c2.module_live(q) implies c2.module_node_ok(q) by {
        assert(c1.module_live(q));
        assert(c1.module_node_ok(q));
        let n = c2.module_nodes()[q];
        let s0 = c1.module_nodes()[q].sections;
        assert(n.symbols == c1.module_nodes()[q].symbols);
        assert(n.proxy_blocks == c1.module_nodes()[q].proxy_blocks);
        if q == p {
            lemma_detached_section_not_listed(c1, c, q);
            assert(n.sections == s0.push(c));
            assert forall|a: int, b: int| 0 <= a < b < n.sections.len() implies n.sections[a]
                != n.sections[b] by {
                if b < s0.len() {
                } else {
                    assert(n.sections[b] == c);
                    assert(n.sections[a] == s0[a]);
                    assert(!s0.contains(c));
                }
            }
            assert(n.sections.no_duplicates());
            assert forall|i: int| 0 <= i < n.sections.len() implies c2.section_child_ok(
                n.sections[i],
                q,
            ) by {
                if i < s0.len() {
                    assert(c1.section_child_ok(s0[i], q));
                    assert(s0[i] != c);
                } else {
                    assert(n.sections[i] == c);
                }
            }
        } else {
            assert(n.sections == s0);
            assert forall|i: int| 0 <= i < n.sections.len() implies c2.section_child_ok(
                n.sections[i],
                q,
            ) by {
                assert(c1.section_child_ok(s0[i], q));
                assert(s0[i] != c);
            }
        }
        assert forall|i: int| 0 <= i < n.symbols.len() implies c2.symbol_child_ok(
            n.symbols[i],
            q,
        ) by {
            assert(c1.symbol_child_ok(n.symbols[i], q));
        }
        assert forall|i: int| 0 <= i < n.proxy_blocks.len() implies c2.proxy_block_child_ok(
            n.proxy_blocks[i],
            q,
        ) by {
            assert(c1.proxy_block_child_ok(n.proxy_blocks[i], q));
        }
    }
    // section_children_ok: every section keeps its interval list.
    assert forall|q: u128| c2.section_live(q) implies c2.section_node_ok(q) by {
        assert(c1.section_live(q));
        assert(c1.section_node_ok(q));
        let ch = c2.section_nodes()[q].byte_intervals;
        assert(ch == c1.section_nodes()[q].byte_intervals);
        assert forall|i: int| 0 <= i < ch.len() implies c2.interval_child_ok(ch[i], q) by {
            assert(c1.interval_child_ok(ch[i], q));
        }
    }
    // module_parents_ok: module up-references and root lists unchanged.
    assert forall|v: u128| c2.module_live(v) implies match c2.module_nodes()[v].parent {
        Some(q) => c2.ir_live(q) && c2.ir_nodes()[q].modules.contains(v),
        None => true,
    } by {
        assert(c1.module_live(v));
        assert(c2.module_nodes()[v].parent == c1.module_nodes()[v].parent);
    }
    // section_parents_ok
    assert forall|v: u128| c2.section_live(v) implies match c2.section_nodes()[v].parent {
        Some(q) => c2.module_live(q) && c2.module_nodes()[q].sections.contains(v),
        None => true,
    } by {
        assert(c1.section_live(v));
        if v == c {
            let ch = c2.module_nodes()[p].sections;
            assert(ch == c1.module_nodes()[p].sections.push(c));
            assert(ch[ch.len() - 1] == c);
            assert(ch.contains(c));
        } else {
            assert(c2.section_nodes()[v].parent == c1.section_nodes()[v].parent);
            if c1.section_nodes()[v].parent is Some {
                let q = c1.section_nodes()[v].parent->0;
                let ch0 = c1.module_nodes()[q].sections;
                assert(ch0.contains(v));
                let i = choose|i: int| 0 <= i < ch0.len() && ch0[i] == v;
                assert(c2.module_nodes()[q].sections[i] == v);
                assert(c2.module_nodes()[q].sections.contains(v));
            }
        }
    }
    // symbol/proxy parents: symbol and proxy lists unchanged.
    assert forall|v: u128| c2.symbol_live(v) implies match c2.symbol_nodes()[v].parent {
        Some(q) => c2.module_live(q) && c2.module_nodes()[q].symbols.contains(v),
        None => true,
    } by {
        assert(c1.symbol_live(v));
        if c1.symbol_nodes()[v].parent is Some {
            let q = c1.symbol_nodes()[v].parent->0;
            assert(c2.module_nodes()[q].symbols == c1.module_nodes()[q].symbols);
        }
    }
    assert forall|v: u128| c2.proxy_block_live(v) implies match c2.proxy_block_nodes()[v].parent {
        Some(q) => c2.module_live(q) && c2.module_nodes()[q].proxy_blocks.contains(v),
        None => true,
    } by {
        assert(c1.proxy_block_live(v));
        if c1.proxy_block_nodes()[v].parent is Some {
            let q = c1.proxy_block_nodes()[v].parent->0;
            assert(c2.module_nodes()[q].proxy_blocks == c1.module_nodes()[q].proxy_blocks);
        }
    }
    // interval_parents_ok: interval lists of sections unchanged.
    assert forall|v: u128| c2.interval_live(v) implies match c2.interval_nodes()[v].parent {
        Some(q) => c2.section_live(q) && c2.section_nodes()[q].byte_intervals.contains(v),
        None => true,
    } by {
        assert(c1.interval_live(v));
        if c1.interval_nodes()[v].parent is Some {
            let q = c1.interval_nodes()[v].parent->0;
            assert(c2.section_nodes()[q].byte_intervals == c1.section_nodes()[q].byte_intervals);
        }
    }
    // nodes_ok: flags and sizes unchanged.
    assert forall|v: u128| c2.section_live(v) implies c2.section_nodes()[v].inv() by {
        assert(c1.section_live(v));
        assert(c2.section_nodes()[v].flags == c1.section_nodes()[v].flags);
    }
    assert forall|v: u128| c2.interval_live(v) implies c2.interval_nodes()[v].inv() by {
        assert(c1.interval_live(v));
    }
}

pub(crate) proof fn lemma_wf_detach_section(c1: Context, c2: Context, p: u128, c: u128, i: int)
    requires
        c1.wf(),
        c1.module_live(p),
        c1.section_live(c),
        0 <= i < c1.module_nodes()[p].sections.len(),
        c1.module_nodes()[p].sections[i] == c,
        c2.module_nodes() == c1.module_nodes().insert(
            p,
            ModuleNodeV {
                sections: c1.module_nodes()[p].sections.remove(i),
                ..c1.module_nodes()[p]
            },
        ),
        c2.section_nodes() == c1.section_nodes().insert(
            c,
            SectionNodeV { parent: None, ..c1.section_nodes()[c] },
        ),
        c2.ir_nodes() == c1.ir_nodes(),
        c2.interval_nodes() == c1.interval_nodes(),
        c2.code_block_nodes() == c1.code_block_nodes(),
        c2.data_block_nodes() == c1.data_block_nodes(),
        c2.proxy_block_nodes() == c1.proxy_block_nodes(),
        c2.symbol_nodes() == c1.symbol_nodes(),
    ensures
        c2.wf(),
{
    lemma_interval_children_preserved(c1, c2);
    lemma_code_block_parents_preserved(c1, c2);
    lemma_data_block_parents_preserved(c1, c2);
    assert forall|v: u128| c2.kind_count(v) <= 1 by {
        assert(c1.kind_count(v) <= 1);
        assert(c2.kind_count(v) == c1.kind_count(v));
    }
    assert(c1.module_node_ok(p));
    let s0 = c1.module_nodes()[p].sections;
    let sn = s0.remove(i);
    assert(sn.len() == s0.len() - 1);
    assert(forall|k: int| 0 <= k < i ==> sn[k] == s0[k]);
    assert(forall|k: int| i <= k < sn.len() ==> sn[k] == s0[k + 1]);
    assert(c1.section_child_ok(s0[i], p));
    // ir_children_ok
    assert forall|q: u128| c2.ir_live(q) implies c2.ir_node_ok(q) by {
        assert(c1.ir_live(q));
        assert(c1.ir_node_ok(q));
        let ch = c2.ir_nodes()[q].modules;
        assert forall|k: int| 0 <= k < ch.len() implies c2.module_child_ok(ch[k], q) by {
            assert(c1.module_child_ok(ch[k], q));
            assert(c2.module_nodes()[ch[k]].parent == c1.module_nodes()[ch[k]].parent);
        }
    }
    // module_children_ok
    assert forall|q: u128| c2.module_live(q) implies c2.module_node_ok(q) by {
        assert(c1.module_live(q));
        assert(c1.module_node_ok(q));
        let n = c2.module_nodes()[q];
        assert(n.symbols == c1.module_nodes()[q].symbols);
        assert(n.proxy_blocks == c1.module_nodes()[q].proxy_blocks);
        if q == p {
            assert(n.sections == sn);
            assert forall|a: int, b: int| 0 <= a < b < n.sections.len() implies n.sections[a]
                != n.sections[b] by {
                let a0: int = if a < i { a } else { a + 1 };
                let b0: int = if b < i { b } else { b + 1 };
                assert(n.sections[a] == s0[a0]);
                assert(n.sections[b] == s0[b0]);
            }
            assert(n.sections.no_duplicates());
            assert forall|k: int| 0 <= k < n.sections.len() implies c2.section_child_ok(
                n.sections[k],
                q,
            ) by {
                let k0: int = if k < i { k } else { k + 1 };
                assert(n.sections[k] == s0[k0]);
                assert(c1.section_child_ok(s0[k0], q));
                assert(s0[k0] != c);
            }
        } else {
            assert(n.sections == c1.module_nodes()[q].sections);
            assert forall|k: int| 0 <= k < n.sections.len() implies c2.section_child_ok(
                n.sections[k],
                q,
            ) by {
                assert(c1.section_child_ok(n.sections[k], q));
                assert(n.sections[k] != c);
            }
        }
        assert forall|k: int| 0 <= k < n.symbols.len() implies c2.symbol_child_ok(
            n.symbols[k],
            q,
        ) by {
            assert(c1.symbol_child_ok(n.symbols[k], q));
        }
        assert forall|k: int| 0 <= k < n.proxy_blocks.len() implies c2.proxy_block_child_ok(
            n.proxy_blocks[k],
            q,
        ) by {
            assert(c1.proxy_block_child_ok(n.proxy_blocks[k], q));
        }
    }
    // section_children_ok: interval lists unchanged.
    assert forall|q: u128| c2.section_live(q) implies c2.section_node_ok(q) by {
        assert(c1.section_live(q));
        assert(c1.section_node_ok(q));
        let ch = c2.section_nodes()[q].byte_intervals;
        assert(ch == c1.section_nodes()[q].byte_intervals);
        assert forall|k: int| 0 <= k < ch.len() implies c2.interval_child_ok(ch[k], q) by {
            assert(c1.interval_child_ok(ch[k], q));
        }
    }
    // module_parents_ok
    assert forall|v: u128| c2.module_live(v) implies match c2.module_nodes()[v].parent {
        Some(q) => c2.ir_live(q) && c2.ir_nodes()[q].modules.contains(v),
        None => true,
    } by {
        assert(c1.module_live(v));
        assert(c2.module_nodes()[v].parent == c1.module_nodes()[v].parent);
    }
    // section_parents_ok
    assert forall|v: u128| c2.section_live(v) implies match c2.section_nodes()[v].parent {
        Some(q) => c2.module_live(q) && c2.module_nodes()[q].sections.contains(v),
        None => true,
    } by {
        assert(c1.section_live(v));
        if v != c {
            assert(c2.section_nodes()[v].parent == c1.section_nodes()[v].parent);
            if c1.section_nodes()[v].parent is Some {
                let q = c1.section_nodes()[v].parent->0;
                let cq0 = c1.module_nodes()[q].sections;
                assert(cq0.contains(v));
                let k = choose|k: int| 0 <= k < cq0.len() && cq0[k] == v;
                if q == p {
                    assert(v != c);
                    let k2: int = if k < i { k } else { k - 1 };
                    assert(sn[k2] == v);
                    assert(c2.module_nodes()[q].sections.contains(v));
                } else {
                    assert(c2.module_nodes()[q].sections[k] == v);
                    assert(c2.module_nodes()[q].sections.contains(v));
                }
            }
        }
    }
    // symbol/proxy parents
    assert forall|v: u128| c2.symbol_live(v) implies match c2.symbol_nodes()[v].parent {
        Some(q) => c2.module_live(q) && c2.module_nodes()[q].symbols.contains(v),
        None => true,
    } by {
        assert(c1.symbol_live(v));
        if c1.symbol_nodes()[v].parent is Some {
            let q = c1.symbol_nodes()[v].parent->0;
            assert(c2.module_nodes()[q].symbols == c1.module_nodes()[q].symbols);
        }
    }
    assert forall|v: u128| c2.proxy_block_live(v) implies match c2.proxy_block_nodes()[v].parent {
        Some(q) => c2.module_live(q) && c2.module_nodes()[q].proxy_blocks.contains(v),
        None => true,
    } by {
        assert(c1.proxy_block_live(v));
        if c1.proxy_block_nodes()[v].parent is Some {
            let q = c1.proxy_block_nodes()[v].parent->0;
            assert(c2.module_nodes()[q].proxy_blocks == c1.module_nodes()[q].proxy_blocks);
        }
    }
    // interval_parents_ok
    assert forall|v: u128| c2.interval_live(v) implies match c2.interval_nodes()[v].parent {
        Some(q) => c2.section_live(q) && c2.section_nodes()[q].byte_intervals.contains(v),
        None => true,
    } by {
        assert(c1.interval_live(v));
        if c1.interval_nodes()[v].parent is Some {
            let q = c1.interval_nodes()[v].parent->0;
            assert(c2.section_nodes()[q].byte_intervals == c1.section_nodes()[q].byte_intervals);
        }
    }
    // nodes_ok
    assert forall|v: u128| c2.section_live(v) implies c2.section_nodes()[v].inv() by {
        assert(c1.section_live(v));
        assert(c2.section_nodes()[v].flags == c1.section_nodes()[v].flags);
    }
    assert forall|v: u128| c2.interval_live(v) implies c2.interval_nodes()[v].inv() by {
        assert(c1.interval_live(v));
    }
}

/// A detached symbol is listed by no module.
pub(crate) proof fn lemma_detached_symbol_not_listed(c1: Context, c: u128, q: u128)
    requires
        c1.wf(),
        c1.symbol_live(c),
        c1.symbol_nodes()[c].parent == None::<u128>,
        c1.module_live(q),
    ensures
        !c1.module_nodes()[q].symbols.contains(c),
{
    if c1.module_nodes()[q].symbols.contains(c) {
        let i = choose|i: int|
            0 <= i < c1.module_nodes()[q].symbols.len() && c1.module_nodes()[q].symbols[i] == c;
        assert(c1.module_node_ok(q));
        assert(c1.symbol_child_ok(c1.module_nodes()[q].symbols[i], q));
    }
}

pub(crate) proof fn lemma_wf_attach_symbol(c1: Context, c2: Context, p: u128, c: u128)
    requires
        c1.wf(),
        c1.module_live(p),
        c1.symbol_live(c),
        c1.symbol_nodes()[c].parent == None::<u128>,
        c2.module_nodes() == c1.module_nodes().insert(
            p,
            ModuleNodeV { symbols: c1.module_nodes()[p].symbols.push(c), ..c1.module_nodes()[p] },
        ),
        c2.symbol_nodes() == c1.symbol_nodes().insert(
            c,
            SymbolNodeV { parent: Some(p), ..c1.symbol_nodes()[c] },
        ),
        c2.ir_nodes() == c1.ir_nodes(),
        c2.section_nodes() == c1.section_nodes(),
        c2.interval_nodes() == c1.interval_nodes(),
        c2.code_block_nodes() == c1.code_block_nodes(),
        c2.data_block_nodes() == c1.data_block_nodes(),
        c2.proxy_block_nodes() == c1.proxy_block_nodes(),
    ensures
        c2.wf(),
{
    lemma_section_children_preserved(c1, c2);
    lemma_interval_children_preserved(c1, c2);
    lemma_interval_parents_preserved(c1, c2);
    lemma_code_block_parents_preserved(c1, c2);
    lemma_data_block_parents_preserved(c1, c2);
    lemma_nodes_preserved(c1, c2);
    assert forall|v: u128| c2.kind_count(v) <= 1 by {
        assert(c1.kind_count(v) <= 1);
        assert(c2.kind_count(v) == c1.kind_count(v));
    }
    assert forall|q: u128| c2.ir_live(q) implies c2.ir_node_ok(q) by {
        assert(c1.ir_live(q));
        assert(c1.ir_node_ok(q));
        let ch = c2.ir_nodes()[q].modules;
        assert forall|k: int| 0 <= k < ch.len() implies c2.module_child_ok(ch[k], q) by {
            assert(c1.module_child_ok(ch[k], q));
            assert(c2.module_nodes()[ch[k]].parent == c1.module_nodes()[ch[k]].parent);
        }
    }
    assert forall|q: u128| c2.module_live(q) implies c2.module_node_ok(q) by {
        assert(c1.module_live(q));
        assert(c1.module_node_ok(q));
        let n = c2.module_nodes()[q];
        let s0 = c1.module_nodes()[q].symbols;
        assert(n.sections == c1.module_nodes()[q].sections);
        assert(n.proxy_blocks == c1.module_nodes()[q].proxy_blocks);
        if q == p {
            lemma_detached_symbol_not_listed(c1, c, q);
            assert(n.symbols == s0.push(c));
            assert forall|a: int, b: int| 0 <= a < b < n.symbols.len() implies n.symbols[a]
                != n.symbols[b] by {
                if b < s0.len() {
                } else {
                    assert(n.symbols[b] == c);
                    assert(n.symbols[a] == s0[a]);
                    assert(!s0.contains(c));
                }
            }
            assert(n.symbols.no_duplicates());
            assert forall|k: int| 0 <= k < n.symbols.len() implies c2.symbol_child_ok(
                n.symbols[k],
                q,
            ) by {
                if k < s0.len() {
                    assert(c1.symbol_child_ok(s0[k], q));
                    assert(s0[k] != c);
                } else {
                    assert(n.symbols[k] == c);
                }
            }
        } else {
            assert(n.symbols == s0);
            assert forall|k: int| 0 <= k < n.symbols.len() implies c2.symbol_child_ok(
                n.symbols[k],
                q,
            ) by {
                assert(c1.symbol_child_ok(s0[k], q));
                assert(s0[k] != c);
            }
        }
        assert forall|k: int| 0 <= k < n.sections.len() implies c2.section_child_ok(
            n.sections[k],
            q,
        ) by {
            assert(c1.section_child_ok(n.sections[k], q));
        }
        assert forall|k: int| 0 <= k < n.proxy_blocks.len() implies c2.proxy_block_child_ok(
            n.proxy_blocks[k],
            q,
        ) by {
            assert(c1.proxy_block_child_ok(n.proxy_blocks[k], q));
        }
    }
    assert forall|v: u128| c2.module_live(v) implies match c2.module_nodes()[v].parent {
        Some(q) => c2.ir_live(q) && c2.ir_nodes()[q].modules.contains(v),
        None => true,
    } by {
        assert(c1.module_live(v));
        assert(c2.module_nodes()[v].parent == c1.module_nodes()[v].parent);
    }
    assert forall|v: u128| c2.symbol_live(v) implies match c2.symbol_nodes()[v].parent {
        Some(q) => c2.module_live(q) && c2.module_nodes()[q].symbols.contains(v),
        None => true,
    } by {
        assert(c1.symbol_live(v));
        if v == c {
            let ch = c2.module_nodes()[p].symbols;
            assert(ch == c1.module_nodes()[p].symbols.push(c));
            assert(ch[ch.len() - 1] == c);
            assert(ch.contains(c));
        } else {
            assert(c2.symbol_nodes()[v].parent == c1.symbol_nodes()[v].parent);
            if c1.symbol_nodes()[v].parent is Some {
                let q = c1.symbol_nodes()[v].parent->0;
                let ch0 = c1.module_nodes()[q].symbols;
                assert(ch0.contains(v));
                let k = choose|k: int| 0 <= k < ch0.len() && ch0[k] == v;
                assert(c2.module_nodes()[q].symbols[k] == v);
                assert(c2.module_nodes()[q].symbols.contains(v));
            }
        }
    }
    assert forall|v: u128| c2.section_live(v) implies match c2.section_nodes()[v].parent {
        Some(q) => c2.module_live(q) && c2.module_nodes()[q].sections.contains(v),
        None => true,
    } by {
        assert(c1.section_live(v));
        if c1.section_nodes()[v].parent is Some {
            let q = c1.section_nodes()[v].parent->0;
            assert(c2.module_nodes()[q].sections == c1.module_nodes()[q].sections);
        }
    }
    assert forall|v: u128| c2.proxy_block_live(v) implies match c2.proxy_block_nodes()[v].parent {
        Some(q) => c2.module_live(q) && c2.module_nodes()[q].proxy_blocks.contains(v),
        None => true,
    } by {
        assert(c1.proxy_block_live(v));
        if c1.proxy_block_nodes()[v].parent is Some {
            let q = c1.proxy_block_nodes()[v].parent->0;
            assert(c2.module_nodes()[q].proxy_blocks == c1.module_nodes()[q].proxy_blocks);
        }
    }
}

pub(crate) proof fn lemma_wf_detach_symbol(c1: Context, c2: Context, p: u128, c: u128, i: int)
    requires
        c1.wf(),
        c1.module_live(p),
        c1.symbol_live(c),
        0 <= i < c1.module_nodes()[p].symbols.len(),
        c1.module_nodes()[p].symbols[i] == c,
        c2.module_nodes() == c1.module_nodes().insert(
            p,
            ModuleNodeV { symbols: c1.module_nodes()[p].symbols.remove(i), ..c1.module_nodes()[p] },
        ),
        c2.symbol_nodes() == c1.symbol_nodes().insert(
            c,
            SymbolNodeV { parent: None, ..c1.symbol_nodes()[c] },
        ),
        c2.ir_nodes() == c1.ir_nodes(),
        c2.section_nodes() == c1.section_nodes(),
        c2.interval_nodes() == c1.interval_nodes(),
        c2.code_block_nodes() == c1.code_block_nodes(),
        c2.data_block_nodes() == c1.data_block_nodes(),
        c2.proxy_block_nodes() == c1.proxy_block_nodes(),
    ensures
        c2.wf(),
{
    lemma_section_children_preserved(c1, c2);
    lemma_interval_children_preserved(c1, c2);
    lemma_interval_parents_preserved(c1, c2);
    lemma_code_block_parents_preserved(c1, c2);
    lemma_data_block_parents_preserved(c1, c2);
    lemma_nodes_preserved(c1, c2);
    assert forall|v: u128| c2.kind_count(v) <= 1 by {
        assert(c1.kind_count(v) <= 1);
        assert(c2.kind_count(v) == c1.kind_count(v));
    }
    assert(c1.module_node_ok(p));
    let s0 = c1.module_nodes()[p].symbols;
    let sn = s0.remove(i);
    assert(sn.len() == s0.len() - 1);
    assert(forall|k: int| 0 <= k < i ==> sn[k] == s0[k]);
    assert(forall|k: int| i <= k < sn.len() ==> sn[k] == s0[k + 1]);
    assert(c1.symbol_child_ok(s0[i], p));
    assert forall|q: u128| c2.ir_live(q) implies c2.ir_node_ok(q) by {
        assert(c1.ir_live(q));
        assert(c1.ir_node_ok(q));
        let ch = c2.ir_nodes()[q].modules;
        assert forall|k: int| 0 <= k < ch.len() implies c2.module_child_ok(ch[k], q) by {
            assert(c1.module_child_ok(ch[k], q));
            assert(c2.module_nodes()[ch[k]].parent == c1.module_nodes()[ch[k]].parent);
        }
    }
    assert forall|q: u128| c2.module_live(q) implies c2.module_node_ok(q) by {
        assert(c1.module_live(q));
        assert(c1.module_node_ok(q));
        let n = c2.module_nodes()[q];
        assert(n.sections == c1.module_nodes()[q].sections);
        assert(n.proxy_blocks == c1.module_nodes()[q].proxy_blocks);
        if q == p {
            assert(n.symbols == sn);
            assert forall|a: int, b: int| 0 <= a < b < n.symbols.len() implies n.symbols[a]
                != n.symbols[b] by {
                let a0: int = if a < i { a } else { a + 1 };
                let b0: int = if b < i { b } else { b + 1 };
                assert(n.symbols[a] == s0[a0]);
                assert(n.symbols[b] == s0[b0]);
            }
            assert(n.symbols.no_duplicates());
            assert forall|k: int| 0 <= k < n.symbols.len() implies c2.symbol_child_ok(
                n.symbols[k],
                q,
            ) by {
                let k0: int = if k < i { k } else { k + 1 };
                assert(n.symbols[k] == s0[k0]);
                assert(c1.symbol_child_ok(s0[k0], q));
                assert(s0[k0] != c);
            }
        } else {
            assert(n.symbols == c1.module_nodes()[q].symbols);
            assert forall|k: int| 0 <= k < n.symbols.len() implies c2.symbol_child_ok(
                n.symbols[k],
                q,
            ) by {
                assert(c1.symbol_child_ok(n.symbols[k], q));
                assert(n.symbols[k] != c);
            }
        }
        assert forall|k: int| 0 <= k < n.sections.len() implies c2.section_child_ok(
            n.sections[k],
            q,
        ) by {
            assert(c1.section_child_ok(n.sections[k], q));
        }
        assert forall|k: int| 0 <= k < n.proxy_blocks.len() implies c2.proxy_block_child_ok(
            n.proxy_blocks[k],
            q,
        ) by {
            assert(c1.proxy_block_child_ok(n.proxy_blocks[k], q));
        }
    }
    assert forall|v: u128| c2.module_live(v) implies match c2.module_nodes()[v].parent {
        Some(q) => c2.ir_live(q) && c2.ir_nodes()[q].modules.contains(v),
        None => true,
    } by {
        assert(c1.module_live(v));
        assert(c2.module_nodes()[v].parent == c1.module_nodes()[v].parent);
    }
    assert forall|v: u128| c2.symbol_live(v) implies match c2.symbol_nodes()[v].parent {
        Some(q) => c2.module_live(q) && c2.module_nodes()[q].symbols.contains(v),
        None => true,
    } by {
        assert(c1.symbol_live(v));
        if v != c {
            assert(c2.symbol_nodes()[v].parent == c1.symbol_nodes()[v].parent);
            if c1.symbol_nodes()[v].parent is Some {
                let q = c1.symbol_nodes()[v].parent->0;
                let cq0 = c1.module_nodes()[q].symbols;
                assert(cq0.contains(v));
                let k = choose|k: int| 0 <= k < cq0.len() && cq0[k] == v;
                if q == p {
                    assert(v != c);
                    let k2: int = if k < i { k } else { k - 1 };
                    assert(sn[k2] == v);
                    assert(c2.module_nodes()[q].symbols.contains(v));
                } else {
                    assert(c2.module_nodes()[q].symbols[k] == v);
                    assert(c2.module_nodes()[q].symbols.contains(v));
                }
            }
        }
    }
    assert forall|v: u128| c2.section_live(v) implies match c2.section_nodes()[v].parent {
        Some(q) => c2.module_live(q) && c2.module_nodes()[q].sections.contains(v),
        None => true,
    } by {
        assert(c1.section_live(v));
        if c1.section_nodes()[v].parent is Some {
            let q = c1.section_nodes()[v].parent->0;
            assert(c2.module_nodes()[q].sections == c1.module_nodes()[q].sections);
        }
    }
    assert forall|v: u128| c2.proxy_block_live(v) implies match c2.proxy_block_nodes()[v].parent {
        Some(q) => c2.module_live(q) && c2.module_nodes()[q].proxy_blocks.contains(v),
        None => true,
    } by {
        assert(c1.proxy_block_live(v));
        if c1.proxy_block_nodes()[v].parent is Some {
            let q = c1.proxy_block_nodes()[v].parent->0;
            assert(c2.module_nodes()[q].proxy_blocks == c1.module_nodes()[q].proxy_blocks);
        }
    }
}

/// A detached proxy block is listed by no module.
pub(crate) proof fn lemma_detached_proxy_block_not_listed(c1: Context, c: u128, q: u128)
    requires
        c1.wf(),
        c1.proxy_block_live(c),
        c1.proxy_block_nodes()[c].parent == None::<u128>,
        c1.module_live(q),
    ensures
        !c1.module_nodes()[q].proxy_blocks.contains(c),
{
    if c1.module_nodes()[q].proxy_blocks.contains(c) {
        let i = choose|i: int|
            0 <= i < c1.module_nodes()[q].proxy_blocks.len() && c1.module_nodes()[q].proxy_blocks[i]
                == c;
        assert(c1.module_node_ok(q));
        assert(c1.proxy_block_child_ok(c1.module_nodes()[q].proxy_blocks[i], q));
    }
}

pub(crate) proof fn lemma_wf_attach_proxy_block(c1: Context, c2: Context, p: u128, c: u128)
    requires
        c1.wf(),
        c1.module_live(p),
        c1.proxy_block_live(c),
        c1.proxy_block_nodes()[c].parent == None::<u128>,
        c2.module_nodes() == c1.module_nodes().insert(
            p,
            ModuleNodeV {
                proxy_blocks: c1.module_nodes()[p].proxy_blocks.push(c),
                ..c1.module_nodes()[p]
            },
        ),
        c2.proxy_block_nodes() == c1.proxy_block_nodes().insert(
            c,
            ProxyBlock { parent: Some(p) },
        ),
        c2.ir_nodes() == c1.ir_nodes(),
        c2.section_nodes() == c1.section_nodes(),
        c2.interval_nodes() == c1.interval_nodes(),
        c2.code_block_nodes() == c1.code_block_nodes(),
        c2.data_block_nodes() == c1.data_block_nodes(),
        c2.symbol_nodes() == c1.symbol_nodes(),
    ensures
        c2.wf(),
{
    lemma_section_children_preserved(c1, c2);
    lemma_interval_children_preserved(c1, c2);
    lemma_interval_parents_preserved(c1, c2);
    lemma_code_block_parents_preserved(c1, c2);
    lemma_data_block_parents_preserved(c1, c2);
    lemma_nodes_preserved(c1, c2);
    assert forall|v: u128| c2.kind_count(v) <= 1 by {
        assert(c1.kind_count(v) <= 1);
        assert(c2.kind_count(v) == c1.kind_count(v));
    }
    assert forall|q: u128| c2.ir_live(q) implies c2.ir_node_ok(q) by {
        assert(c1.ir_live(q));
        assert(c1.ir_node_ok(q));
        let ch = c2.ir_nodes()[q].modules;
        assert forall|k: int| 0 <= k < ch.len() implies c2.module_child_ok(ch[k], q) by {
            assert(c1.module_child_ok(ch[k], q));
            assert(c2.module_nodes()[ch[k]].parent == c1.module_nodes()[ch[k]].parent);
        }
    }
    assert forall|q: u128| c2.module_live(q) implies c2.module_node_ok(q) by {
        assert(c1.module_live(q));
        assert(c1.module_node_ok(q));
        let n = c2.module_nodes()[q];
        let s0 = c1.module_nodes()[q].proxy_blocks;
        assert(n.sections == c1.module_nodes()[q].sections);
        assert(n.symbols == c1.module_nodes()[q].symbols);
        if q == p {
            lemma_detached_proxy_block_not_listed(c1, c, q);
            assert(n.proxy_blocks == s0.push(c));
            assert forall|a: int, b: int| 0 <= a < b < n.proxy_blocks.len() implies n.proxy_blocks[a]
                != n.proxy_blocks[b] by {
                if b < s0.len() {
                } else {
                    assert(n.proxy_blocks[b] == c);
                    assert(n.proxy_blocks[a] == s0[a]);
                    assert(!s0.contains(c));
                }
            }
            assert(n.proxy_blocks.no_duplicates());
            assert forall|k: int| 0 <= k < n.proxy_blocks.len() implies c2.proxy_block_child_ok(
                n.proxy_blocks[k],
                q,
            ) by {
                if k < s0.len() {
                    assert(c1.proxy_block_child_ok(s0[k], q));
                    assert(s0[k] != c);
                } else {
                    assert(n.proxy_blocks[k] == c);
                }
            }
        } else {
            assert(n.proxy_blocks == s0);
            assert forall|k: int| 0 <= k < n.proxy_blocks.len() implies c2.proxy_block_child_ok(
                n.proxy_blocks[k],
                q,
            ) by {
                assert(c1.proxy_block_child_ok(s0[k], q));
                assert(s0[k] != c);
            }
        }
        assert forall|k: int| 0 <= k < n.sections.len() implies c2.section_child_ok(
            n.sections[k],
            q,
        ) by {
            assert(c1.section_child_ok(n.sections[k], q));
        }
        assert forall|k: int| 0 <= k < n.symbols.len() implies c2.symbol_child_ok(
            n.symbols[k],
            q,
        ) by {
            assert(c1.symbol_child_ok(n.symbols[k], q));
        }
    }
    assert forall|v: u128| c2.module_live(v) implies match c2.module_nodes()[v].parent {
        Some(q) => c2.ir_live(q) && c2.ir_nodes()[q].modules.contains(v),
        None => true,
    } by {
        assert(c1.module_live(v));
        assert(c2.module_nodes()[v].parent == c1.module_nodes()[v].parent);
    }
    assert forall|v: u128| c2.proxy_block_live(v) implies match c2.proxy_block_nodes()[v].parent {
        Some(q) => c2.module_live(q) && c2.module_nodes()[q].proxy_blocks.contains(v),
        None => true,
    } by {
        assert(c1.proxy_block_live(v));
        if v == c {
            let ch = c2.module_nodes()[p].proxy_blocks;
            assert(ch == c1.module_nodes()[p].proxy_blocks.push(c));
            assert(ch[ch.len() - 1] == c);
            assert(ch.contains(c));
        } else {
            assert(c2.proxy_block_nodes()[v].parent == c1.proxy_block_nodes()[v].parent);
            if c1.proxy_block_nodes()[v].parent is Some {
                let q = c1.proxy_block_nodes()[v].parent->0;
                let ch0 = c1.module_nodes()[q].proxy_blocks;
                assert(ch0.contains(v));
                let k = choose|k: int| 0 <= k < ch0.len() && ch0[k] == v;
                assert(c2.module_nodes()[q].proxy_blocks[k] == v);
                assert(c2.module_nodes()[q].proxy_blocks.contains(v));
            }
        }
    }
    assert forall|v: u128| c2.section_live(v) implies match c2.section_nodes()[v].parent {
        Some(q) => c2.module_live(q) && c2.module_nodes()[q].sections.contains(v),
        None => true,
    } by {
        assert(c1.section_live(v));
        if c1.section_nodes()[v].parent is Some {
            let q = c1.section_nodes()[v].parent->0;
            assert(c2.module_nodes()[q].sections == c1.module_nodes()[q].sections);
        }
    }
    assert forall|v: u128| c2.symbol_live(v) implies match c2.symbol_nodes()[v].parent {
        Some(q) => c2.module_live(q) && c2.module_nodes()[q].symbols.contains(v),
        None => true,
    } by {
        assert(c1.symbol_live(v));
        if c1.symbol_nodes()[v].parent is Some {
            let q = c1.symbol_nodes()[v].parent->0;
            assert(c2.module_nodes()[q].symbols == c1.module_nodes()[q].symbols);
        }
    }
}

pub(crate) proof fn lemma_wf_detach_proxy_block(c1: Context, c2: Context, p: u128, c: u128, i: int)
    requires
        c1.wf(),
        c1.module_live(p),
        c1.proxy_block_live(c),
        0 <= i < c1.module_nodes()[p].proxy_blocks.len(),
        c1.module_nodes()[p].proxy_blocks[i] == c,
        c2.module_nodes() == c1.module_nodes().insert(
            p,
            ModuleNodeV {
                proxy_blocks: c1.module_nodes()[p].proxy_blocks.remove(i),
                ..c1.module_nodes()[p]
            },
        ),
        c2.proxy_block_nodes() == c1.proxy_block_nodes().insert(
            c,
            ProxyBlock { parent: None },
        ),
        c2.ir_nodes() == c1.ir_nodes(),
        c2.section_nodes() == c1.section_nodes(),
        c2.interval_nodes() == c1.interval_nodes(),
        c2.code_block_nodes() == c1.code_block_nodes(),
        c2.data_block_nodes() == c1.data_block_nodes(),
        c2.symbol_nodes() == c1.symbol_nodes(),
    ensures
        c2.wf(),
{
    lemma_section_children_preserved(c1, c2);
    lemma_interval_children_preserved(c1, c2);
    lemma_interval_parents_preserved(c1, c2);
    lemma_code_block_parents_preserved(c1, c2);
    lemma_data_block_parents_preserved(c1, c2);
    lemma_nodes_preserved(c1, c2);
    assert forall|v: u128| c2.kind_count(v) <= 1 by {
        assert(c1.kind_count(v) <= 1);
        assert(c2.kind_count(v) == c1.kind_count(v));
    }
    assert(c1.module_node_ok(p));
    let s0 = c1.module_nodes()[p].proxy_blocks;
    let sn = s0.remove(i);
    assert(sn.len() == s0.len() - 1);
    assert(forall|k: int| 0 <= k < i ==> sn[k] == s0[k]);
    assert(forall|k: int| i <= k < sn.len() ==> sn[k] == s0[k + 1]);
    assert(c1.proxy_block_child_ok(s0[i], p));
    assert forall|q: u128| c2.ir_live(q) implies c2.ir_node_ok(q) by {
        assert(c1.ir_live(q));
        assert(c1.ir_node_ok(q));
        let ch = c2.ir_nodes()[q].modules;
        assert forall|k: int| 0 <= k < ch.len() implies c2.module_child_ok(ch[k], q) by {
            assert(c1.module_child_ok(ch[k], q));
            assert(c2.module_nodes()[ch[k]].parent == c1.module_nodes()[ch[k]].parent);
        }
    }
    assert forall|q: u128| c2.module_live(q) implies c2.module_node_ok(q) by {
        assert(c1.module_live(q));
        assert(c1.module_node_ok(q));
        let n = c2.module_nodes()[q];
        assert(n.sections == c1.module_nodes()[q].sections);
        assert(n.symbols == c1.module_nodes()[q].symbols);
        if q == p {
            assert(n.proxy_blocks == sn);
            assert forall|a: int, b: int| 0 <= a < b < n.proxy_blocks.len() implies n.proxy_blocks[a]
                != n.proxy_blocks[b] by {
                let a0: int = if a < i { a } else { a + 1 };
                let b0: int = if b < i { b } else { b + 1 };
                assert(n.proxy_blocks[a] == s0[a0]);
                assert(n.proxy_blocks[b] == s0[b0]);
            }
            assert(n.proxy_blocks.no_duplicates());
            assert forall|k: int| 0 <= k < n.proxy_blocks.len() implies c2.proxy_block_child_ok(
                n.proxy_blocks[k],
                q,
            ) by {
                let k0: int = if k < i { k } else { k + 1 };
                assert(n.proxy_blocks[k] == s0[k0]);
                assert(c1.proxy_block_child_ok(s0[k0], q));
                assert(s0[k0] != c);
            }
        } else {
            assert(n.proxy_blocks == c1.module_nodes()[q].proxy_blocks);
            assert forall|k: int| 0 <= k < n.proxy_blocks.len() implies c2.proxy_block_child_ok(
                n.proxy_blocks[k],
                q,
            ) by {
                assert(c1.proxy_block_child_ok(n.proxy_blocks[k], q));
                assert(n.proxy_blocks[k] != c);
            }
        }
        assert forall|k: int| 0 <= k < n.sections.len() implies c2.section_child_ok(
            n.sections[k],
            q,
        ) by {
            assert(c1.section_child_ok(n.sections[k], q));
        }
        assert forall|k: int| 0 <= k < n.symbols.len() implies c2.symbol_child_ok(
            n.symbols[k],
            q,
        ) by {
            assert(c1.symbol_child_ok(n.symbols[k], q));
        }
    }
    assert forall|v: u128| c2.module_live(v) implies match c2.module_nodes()[v].parent {
        Some(q) => c2.ir_live(q) && c2.ir_nodes()[q].modules.contains(v),
        None => true,
    } by {
        assert(c1.module_live(v));
        assert(c2.module_nodes()[v].parent == c1.module_nodes()[v].parent);
    }
    assert forall|v: u128| c2.proxy_block_live(v) implies match c2.proxy_block_nodes()[v].parent {
        Some(q) => c2.module_live(q) && c2.module_nodes()[q].proxy_blocks.contains(v),
        None => true,
    } by {
        assert(c1.proxy_block_live(v));
        if v != c {
            assert(c2.proxy_block_nodes()[v].parent == c1.proxy_block_nodes()[v].parent);
            if c1.proxy_block_nodes()[v].parent is Some {
                let q = c1.proxy_block_nodes()[v].parent->0;
                let cq0 = c1.module_nodes()[q].proxy_blocks;
                assert(cq0.contains(v));
                let k = choose|k: int| 0 <= k < cq0.len() && cq0[k] == v;
                if q == p {
                    assert(v != c);
                    let k2: int = if k < i { k } else { k - 1 };
                    assert(sn[k2] == v);
                    assert(c2.module_nodes()[q].proxy_blocks.contains(v));
                } else {
                    assert(c2.module_nodes()[q].proxy_blocks[k] == v);
                    assert(c2.module_nodes()[q].proxy_blocks.contains(v));
                }
            }
        }
    }
    assert forall|v: u128| c2.section_live(v) implies match c2.section_nodes()[v].parent {
        Some(q) => c2.module_live(q) && c2.module_nodes()[q].sections.contains(v),
        None => true,
    } by {
        assert(c1.section_live(v));
        if c1.section_nodes()[v].parent is Some {
            let q = c1.section_nodes()[v].parent->0;
            assert(c2.module_nodes()[q].sections == c1.module_nodes()[q].sections);
        }
    }
    assert forall|v: u128| c2.symbol_live(v) implies match c2.symbol_nodes()[v].parent {
        Some(q) => c2.module_live(q) && c2.module_nodes()[q].symbols.contains(v),
        None => true,
    } by {
        assert(c1.symbol_live(v));
        if c1.symbol_nodes()[v].parent is Some {
            let q = c1.symbol_nodes()[v].parent->0;
            assert(c2.module_nodes()[q].symbols == c1.module_nodes()[q].symbols);
        }
    }
}

/// A detached byte interval is listed by no section.
pub(crate) proof fn lemma_detached_interval_not_listed(c1: Context, c: u128, q: u128)
    requires
        c1.wf(),
        c1.interval_live(c),
        c1.interval_nodes()[c].parent == None::<u128>,
        c1.section_live(q),
    ensures
        !c1.section_nodes()[q].byte_intervals.contains(c),
{
    if c1.section_nodes()[q].byte_intervals.contains(c) {
        let i = choose|i: int|
            0 <= i < c1.section_nodes()[q].byte_intervals.len()
                && c1.section_nodes()[q].byte_intervals[i] == c;
        assert(c1.section_node_ok(q));
        assert(c1.interval_child_ok(c1.section_nodes()[q].byte_intervals[i], q));
    }
}

pub(crate) proof fn lemma_wf_attach_interval(c1: Context, c2: Context, p: u128, c: u128)
    requires
        c1.wf(),
        c1.section_live(p),
        c1.interval_live(c),
        c1.interval_nodes()[c].parent == None::<u128>,
        c2.section_nodes() == c1.section_nodes().insert(
            p,
            SectionNodeV {
                byte_intervals: c1.section_nodes()[p].byte_intervals.push(c),
                ..c1.section_nodes()[p]
            },
        ),
        c2.interval_nodes() == c1.interval_nodes().insert(
            c,
            ByteIntervalNodeV { parent: Some(p), ..c1.interval_nodes()[c] },
        ),
        c2.ir_nodes() == c1.ir_nodes(),
        c2.module_nodes() == c1.module_nodes(),
        c2.code_block_nodes() == c1.code_block_nodes(),
        c2.data_block_nodes() == c1.data_block_nodes(),
        c2.proxy_block_nodes() == c1.proxy_block_nodes(),
        c2.symbol_nodes() == c1.symbol_nodes(),
    ensures
        c2.wf(),
{
    lemma_ir_children_preserved(c1, c2);
    lemma_module_parents_preserved(c1, c2);
    lemma_symbol_parents_preserved(c1, c2);
    lemma_proxy_block_parents_preserved(c1, c2);
    assert forall|v: u128| c2.kind_count(v) <= 1 by {
        assert(c1.kind_count(v) <= 1);
        assert(c2.kind_count(v) == c1.kind_count(v));
    }
    // module_children_ok: section up-references unchanged.
    assert forall|q: u128| c2.module_live(q) implies c2.module_node_ok(q) by {
        assert(c1.module_live(q));
        assert(c1.module_node_ok(q));
        let n = c2.module_nodes()[q];
        assert forall|k: int| 0 <= k < n.sections.len() implies c2.section_child_ok(
            n.sections[k],
            q,
        ) by {
            assert(c1.section_child_ok(n.sections[k], q));
            assert(c2.section_nodes()[n.sections[k]].parent == c1.section_nodes()[n.sections[k]].parent);
        }
        assert forall|k: int| 0 <= k < n.symbols.len() implies c2.symbol_child_ok(
            n.symbols[k],
            q,
        ) by {
            assert(c1.symbol_child_ok(n.symbols[k], q));
        }
        assert forall|k: int| 0 <= k < n.proxy_blocks.len() implies c2.proxy_block_child_ok(
            n.proxy_blocks[k],
            q,
        ) by {
            assert(c1.proxy_block_child_ok(n.proxy_blocks[k], q));
        }
    }
    // section_children_ok
    assert forall|q: u128| c2.section_live(q) implies c2.section_node_ok(q) by {
        assert(c1.section_live(q));
        assert(c1.section_node_ok(q));
        let ch = c2.section_nodes()[q].byte_intervals;
        let ch0 = c1.section_nodes()[q].byte_intervals;
        if q == p {
            lemma_detached_interval_not_listed(c1, c, q);
            assert(ch == ch0.push(c));
            assert forall|a: int, b: int| 0 <= a < b < ch.len() implies ch[a] != ch[b] by {
                if b < ch0.len() {
                } else {
                    assert(ch[b] == c);
                    assert(ch[a] == ch0[a]);
                    assert(!ch0.contains(c));
                }
            }
            assert(ch.no_duplicates());
            assert forall|k: int| 0 <= k < ch.len() implies c2.interval_child_ok(ch[k], q) by {
                if k < ch0.len() {
                    assert(c1.interval_child_ok(ch0[k], q));
                    assert(ch0[k] != c);
                } else {
                    assert(ch[k] == c);
                }
            }
        } else {
            assert(ch == ch0);
            assert forall|k: int| 0 <= k < ch.len() implies c2.interval_child_ok(ch[k], q) by {
                assert(c1.interval_child_ok(ch0[k], q));
                assert(ch0[k] != c);
            }
        }
    }
    // interval_children_ok: block lists unchanged.
    assert forall|q: u128| c2.interval_live(q) implies c2.interval_node_ok(q) by {
        assert(c1.interval_live(q));
        assert(c1.interval_node_ok(q));
        let n = c2.interval_nodes()[q];
        assert(n.code_blocks == c1.interval_nodes()[q].code_blocks);
        assert(n.data_blocks == c1.interval_nodes()[q].data_blocks);
        assert forall|k: int| 0 <= k < n.code_blocks.len() implies c2.code_block_child_ok(
            n.code_blocks[k],
            q,
        ) by {
            assert(c1.code_block_child_ok(n.code_blocks[k], q));
        }
        assert forall|k: int| 0 <= k < n.data_blocks.len() implies c2.data_block_child_ok(
            n.data_blocks[k],
            q,
        ) by {
            assert(c1.data_block_child_ok(n.data_blocks[k], q));
        }
    }
    // section_parents_ok
    assert forall|v: u128| c2.section_live(v) implies match c2.section_nodes()[v].parent {
        Some(q) => c2.module_live(q) && c2.module_nodes()[q].sections.contains(v),
        None => true,
    } by {
        assert(c1.section_live(v));
        assert(c2.section_nodes()[v].parent == c1.section_nodes()[v].parent);
    }
    // interval_parents_ok
    assert forall|v: u128| c2.interval_live(v) implies match c2.interval_nodes()[v].parent {
        Some(q) => c2.section_live(q) && c2.section_nodes()[q].byte_intervals.contains(v),
        None => true,
    } by {
        assert(c1.interval_live(v));
        if v == c {
            let ch = c2.section_nodes()[p].byte_intervals;
            assert(ch == c1.section_nodes()[p].byte_intervals.push(c));
            assert(ch[ch.len() - 1] == c);
            assert(ch.contains(c));
        } else {
            assert(c2.interval_nodes()[v].parent == c1.interval_nodes()[v].parent);
            if c1.interval_nodes()[v].parent is Some {
                let q = c1.interval_nodes()[v].parent->0;
                let ch0 = c1.section_nodes()[q].byte_intervals;
                assert(ch0.contains(v));
                let k = choose|k: int| 0 <= k < ch0.len() && ch0[k] == v;
                assert(c2.section_nodes()[q].byte_intervals[k] == v);
                assert(c2.section_nodes()[q].byte_intervals.contains(v));
            }
        }
    }
    // code/data block parents: block lists of intervals unchanged.
    assert forall|v: u128| c2.code_block_live(v) implies match c2.code_block_nodes()[v].parent {
        Some(q) => c2.interval_live(q) && c2.interval_nodes()[q].code_blocks.contains(v),
        None => true,
    } by {
        assert(c1.code_block_live(v));
        if c1.code_block_nodes()[v].parent is Some {
            let q = c1.code_block_nodes()[v].parent->0;
            assert(c2.interval_nodes()[q].code_blocks == c1.interval_nodes()[q].code_blocks);
        }
    }
    assert forall|v: u128| c2.data_block_live(v) implies match c2.data_block_nodes()[v].parent {
        Some(q) => c2.interval_live(q) && c2.interval_nodes()[q].data_blocks.contains(v),
        None => true,
    } by {
        assert(c1.data_block_live(v));
        if c1.data_block_nodes()[v].parent is Some {
            let q = c1.data_block_nodes()[v].parent->0;
            assert(c2.interval_nodes()[q].data_blocks == c1.interval_nodes()[q].data_blocks);
        }
    }
    // nodes_ok
    assert forall|v: u128| c2.section_live(v) implies c2.section_nodes()[v].inv() by {
        assert(c1.section_live(v));
        assert(c2.section_nodes()[v].flags == c1.section_nodes()[v].flags);
    }
    assert forall|v: u128| c2.interval_live(v) implies c2.interval_nodes()[v].inv() by {
        assert(c1.interval_live(v));
        assert(c2.interval_nodes()[v].size == c1.interval_nodes()[v].size);
        assert(c2.interval_nodes()[v].bytes == c1.interval_nodes()[v].bytes);
        assert(c2.interval_nodes()[v].symbolic_expressions == c1.interval_nodes()[v].symbolic_expressions);
    }
}

pub(crate) proof fn lemma_wf_detach_interval(c1: Context, c2: Context, p: u128, c: u128, i: int)
    requires
        c1.wf(),
        c1.section_live(p),
        c1.interval_live(c),
        0 <= i < c1.section_nodes()[p].byte_intervals.len(),
        c1.section_nodes()[p].byte_intervals[i] == c,
        c2.section_nodes() == c1.section_nodes().insert(
            p,
            SectionNodeV {
                byte_intervals: c1.section_nodes()[p].byte_intervals.remove(i),
                ..c1.section_nodes()[p]
            },
        ),
        c2.interval_nodes() == c1.interval_nodes().insert(
            c,
            ByteIntervalNodeV { parent: None, ..c1.interval_nodes()[c] },
        ),
        c2.ir_nodes() == c1.ir_nodes(),
        c2.module_nodes() == c1.module_nodes(),
        c2.code_block_nodes() == c1.code_block_nodes(),
        c2.data_block_nodes() == c1.data_block_nodes(),
        c2.proxy_block_nodes() == c1.proxy_block_nodes(),
        c2.symbol_nodes() == c1.symbol_nodes(),
    ensures
        c2.wf(),
{
    lemma_ir_children_preserved(c1, c2);
    lemma_module_parents_preserved(c1, c2);
    lemma_symbol_parents_preserved(c1, c2);
    lemma_proxy_block_parents_preserved(c1, c2);
    assert forall|v: u128| c2.kind_count(v) <= 1 by {
        assert(c1.kind_count(v) <= 1);
        assert(c2.kind_count(v) == c1.kind_count(v));
    }
    assert(c1.section_node_ok(p));
    let s0 = c1.section_nodes()[p].byte_intervals;
    let sn = s0.remove(i);
    assert(sn.len() == s0.len() - 1);
    assert(forall|k: int| 0 <= k < i ==> sn[k] == s0[k]);
    assert(forall|k: int| i <= k < sn.len() ==> sn[k] == s0[k + 1]);
    assert(c1.interval_child_ok(s0[i], p));
    assert forall|q: u128| c2.module_live(q) implies c2.module_node_ok(q) by {
        assert(c1.module_live(q));
        assert(c1.module_node_ok(q));
        let n = c2.module_nodes()[q];
        assert forall|k: int| 0 <= k < n.sections.len() implies c2.section_child_ok(
            n.sections[k],
            q,
        ) by {
            assert(c1.section_child_ok(n.sections[k], q));
            assert(c2.section_nodes()[n.sections[k]].parent == c1.section_nodes()[n.sections[k]].parent);
        }
        assert forall|k: int| 0 <= k < n.symbols.len() implies c2.symbol_child_ok(
            n.symbols[k],
            q,
        ) by {
            assert(c1.symbol_child_ok(n.symbols[k], q));
        }
        assert forall|k: int| 0 <= k < n.proxy_blocks.len() implies c2.proxy_block_child_ok(
            n.proxy_blocks[k],
            q,
        ) by {
            assert(c1.proxy_block_child_ok(n.proxy_blocks[k], q));
        }
    }
    assert forall|q: u128| c2.section_live(q) implies c2.section_node_ok(q) by {
        assert(c1.section_live(q));
        assert(c1.section_node_ok(q));
        let ch = c2.section_nodes()[q].byte_intervals;
        if q == p {
            assert(ch == sn);
            assert forall|a: int, b: int| 0 <= a < b < ch.len() implies ch[a] != ch[b] by {
                let a0: int = if a < i { a } else { a + 1 };
                let b0: int = if b < i { b } else { b + 1 };
                assert(ch[a] == s0[a0]);
                assert(ch[b] == s0[b0]);
            }
            assert(ch.no_duplicates());
            assert forall|k: int| 0 <= k < ch.len() implies c2.interval_child_ok(ch[k], q) by {
                let k0: int = if k < i { k } else { k + 1 };
                assert(ch[k] == s0[k0]);
                assert(c1.interval_child_ok(s0[k0], q));
                assert(s0[k0] != c);
            }
        } else {
            assert(ch == c1.section_nodes()[q].byte_intervals);
            assert forall|k: int| 0 <= k < ch.len() implies c2.interval_child_ok(ch[k], q) by {
                assert(c1.interval_child_ok(ch[k], q));
                assert(ch[k] != c);
            }
        }
    }
    assert forall|q: u128| c2.interval_live(q) implies c2.interval_node_ok(q) by {
        assert(c1.interval_live(q));
        assert(c1.interval_node_ok(q));
        let n = c2.interval_nodes()[q];
        assert(n.code_blocks == c1.interval_nodes()[q].code_blocks);
        assert(n.data_blocks == c1.interval_nodes()[q].data_blocks);
        assert forall|k: int| 0 <= k < n.code_blocks.len() implies c2.code_block_child_ok(
            n.code_blocks[k],
            q,
        ) by {
            assert(c1.code_block_child_ok(n.code_blocks[k], q));
        }
        assert forall|k: int| 0 <= k < n.data_blocks.len() implies c2.data_block_child_ok(
            n.data_blocks[k],
            q,
        ) by {
            assert(c1.data_block_child_ok(n.data_blocks[k], q));
        }
    }
    assert forall|v: u128| c2.section_live(v) implies match c2.section_nodes()[v].parent {
        Some(q) => c2.module_live(q) && c2.module_nodes()[q].sections.contains(v),
        None => true,
    } by {
        assert(c1.section_live(v));
        assert(c2.section_nodes()[v].parent == c1.section_nodes()[v].parent);
    }
    assert forall|v: u128| c2.interval_live(v) implies match c2.interval_nodes()[v].parent {
        Some(q) => c2.section_live(q) && c2.section_nodes()[q].byte_intervals.contains(v),
        None => true,
    } by {
        assert(c1.interval_live(v));
        if v != c {
            assert(c2.interval_nodes()[v].parent == c1.interval_nodes()[v].parent);
            if c1.interval_nodes()[v].parent is Some {
                let q = c1.interval_nodes()[v].parent->0;
                let cq0 = c1.section_nodes()[q].byte_intervals;
                assert(cq0.contains(v));
                let k = choose|k: int| 0 <= k < cq0.len() && cq0[k] == v;
                if q == p {
                    assert(v != c);
                    let k2: int = if k < i { k } else { k - 1 };
                    assert(sn[k2] == v);
                    assert(c2.section_nodes()[q].byte_intervals.contains(v));
                } else {
                    assert(c2.section_nodes()[q].byte_intervals[k] == v);
                    assert(c2.section_nodes()[q].byte_intervals.contains(v));
                }
            }
        }
    }
    assert forall|v: u128| c2.code_block_live(v) implies match c2.code_block_nodes()[v].parent {
        Some(q) => c2.interval_live(q) && c2.interval_nodes()[q].code_blocks.contains(v),
        None => true,
    } by {
        assert(c1.code_block_live(v));
        if c1.code_block_nodes()[v].parent is Some {
            let q = c1.code_block_nodes()[v].parent->0;
            assert(c2.interval_nodes()[q].code_blocks == c1.interval_nodes()[q].code_blocks);
        }
    }
    assert forall|v: u128| c2.data_block_live(v) implies match c2.data_block_nodes()[v].parent {
        Some(q) => c2.interval_live(q) && c2.interval_nodes()[q].data_blocks.contains(v),
        None => true,
    } by {
        assert(c1.data_block_live(v));
        if c1.data_block_nodes()[v].parent is Some {
            let q = c1.data_block_nodes()[v].parent->0;
            assert(c2.interval_nodes()[q].data_blocks == c1.interval_nodes()[q].data_blocks);
        }
    }
    assert forall|v: u128| c2.section_live(v) implies c2.section_nodes()[v].inv() by {
        assert(c1.section_live(v));
        assert(c2.section_nodes()[v].flags == c1.section_nodes()[v].flags);
    }
    assert forall|v: u128| c2.interval_live(v) implies c2.interval_nodes()[v].inv() by {
        assert(c1.interval_live(v));
        assert(c2.interval_nodes()[v].size == c1.interval_nodes()[v].size);
        assert(c2.interval_nodes()[v].bytes == c1.interval_nodes()[v].bytes);
        assert(c2.interval_nodes()[v].symbolic_expressions == c1.interval_nodes()[v].symbolic_expressions);
    }
}

/// A detached code block is listed by no byte interval.
pub(crate) proof fn lemma_detached_code_block_not_listed(c1: Context, c: u128, q: u128)
    requires
        c1.wf(),
        c1.code_block_live(c),
        c1.code_block_nodes()[c].parent == None::<u128>,
        c1.interval_live(q),
    ensures
        !c1.interval_nodes()[q].code_blocks.contains(c),
{
    if c1.interval_nodes()[q].code_blocks.contains(c) {
        let i = choose|i: int|
            0 <= i < c1.interval_nodes()[q].code_blocks.len()
                && c1.interval_nodes()[q].code_blocks[i] == c;
        assert(c1.interval_node_ok(q));
        assert(c1.code_block_child_ok(c1.interval_nodes()[q].code_blocks[i], q));
    }
}

/// A detached data block is listed by no byte interval.
pub(crate) proof fn lemma_detached_data_block_not_listed(c1: Context, c: u128, q: u128)
    requires
        c1.wf(),
        c1.data_block_live(c),
        c1.data_block_nodes()[c].parent == None::<u128>,
        c1.interval_live(q),
    ensures
        !c1.interval_nodes()[q].data_blocks.contains(c),
{
    if c1.interval_nodes()[q].data_blocks.contains(c) {
        let i = choose|i: int|
            0 <= i < c1.interval_nodes()[q].data_blocks.len()
                && c1.interval_nodes()[q].data_blocks[i] == c;
        assert(c1.interval_node_ok(q));
        assert(c1.data_block_child_ok(c1.interval_nodes()[q].data_blocks[i], q));
    }
}

pub(crate) proof fn lemma_wf_attach_code_block(c1: Context, c2: Context, p: u128, c: u128)
    requires
        c1.wf(),
        c1.interval_live(p),
        c1.code_block_live(c),
        c1.code_block_nodes()[c].parent == None::<u128>,
        c2.interval_nodes() == c1.interval_nodes().insert(
            p,
            ByteIntervalNodeV {
                code_blocks: c1.interval_nodes()[p].code_blocks.push(c),
                ..c1.interval_nodes()[p]
            },
        ),
        c2.code_block_nodes() == c1.code_block_nodes().insert(
            c,
            CodeBlock { parent: Some(p), ..c1.code_block_nodes()[c] },
        ),
        c2.ir_nodes() == c1.ir_nodes(),
        c2.module_nodes() == c1.module_nodes(),
        c2.section_nodes() == c1.section_nodes(),
        c2.data_block_nodes() == c1.data_block_nodes(),
        c2.proxy_block_nodes() == c1.proxy_block_nodes(),
        c2.symbol_nodes() == c1.symbol_nodes(),
    ensures
        c2.wf(),
{
    lemma_ir_children_preserved(c1, c2);
    lemma_module_children_preserved(c1, c2);
    lemma_module_parents_preserved(c1, c2);
    lemma_section_parents_preserved(c1, c2);
    lemma_symbol_parents_preserved(c1, c2);
    lemma_proxy_block_parents_preserved(c1, c2);
    assert forall|v: u128| c2.kind_count(v) <= 1 by {
        assert(c1.kind_count(v) <= 1);
        assert(c2.kind_count(v) == c1.kind_count(v));
    }
    // section_children_ok: interval up-references unchanged.
    assert forall|q: u128| c2.section_live(q) implies c2.section_node_ok(q) by {
        assert(c1.section_live(q));
        assert(c1.section_node_ok(q));
        let ch = c2.section_nodes()[q].byte_intervals;
        assert forall|k: int| 0 <= k < ch.len() implies c2.interval_child_ok(ch[k], q) by {
            assert(c1.interval_child_ok(ch[k], q));
            assert(c2.interval_nodes()[ch[k]].parent == c1.interval_nodes()[ch[k]].parent);
        }
    }
    // interval_children_ok
    assert forall|q: u128| c2.interval_live(q) implies c2.interval_node_ok(q) by {
        assert(c1.interval_live(q));
        assert(c1.interval_node_ok(q));
        let n = c2.interval_nodes()[q];
        let s0 = c1.interval_nodes()[q].code_blocks;
        assert(n.data_blocks == c1.interval_nodes()[q].data_blocks);
        if q == p {
            lemma_detached_code_block_not_listed(c1, c, q);
            assert(n.code_blocks == s0.push(c));
            assert forall|a: int, b: int| 0 <= a < b < n.code_blocks.len() implies n.code_blocks[a]
                != n.code_blocks[b] by {
                if b < s0.len() {
                } else {
                    assert(n.code_blocks[b] == c);
                    assert(n.code_blocks[a] == s0[a]);
                    assert(!s0.contains(c));
                }
            }
            assert(n.code_blocks.no_duplicates());
            assert forall|k: int| 0 <= k < n.code_blocks.len() implies c2.code_block_child_ok(
                n.code_blocks[k],
                q,
            ) by {
                if k < s0.len() {
                    assert(c1.code_block_child_ok(s0[k], q));
                    assert(s0[k] != c);
                } else {
                    assert(n.code_blocks[k] == c);
                }
            }
        } else {
            assert(n.code_blocks == s0);
            assert forall|k: int| 0 <= k < n.code_blocks.len() implies c2.code_block_child_ok(
                n.code_blocks[k],
                q,
            ) by {
                assert(c1.code_block_child_ok(s0[k], q));
                assert(s0[k] != c);
            }
        }
        assert forall|k: int| 0 <= k < n.data_blocks.len() implies c2.data_block_child_ok(
            n.data_blocks[k],
            q,
        ) by {
            assert(c1.data_block_child_ok(n.data_blocks[k], q));
        }
    }
    // interval_parents_ok
    assert forall|v: u128| c2.interval_live(v) implies match c2.interval_nodes()[v].parent {
        Some(q) => c2.section_live(q) && c2.section_nodes()[q].byte_intervals.contains(v),
        None => true,
    } by {
        assert(c1.interval_live(v));
        assert(c2.interval_nodes()[v].parent == c1.interval_nodes()[v].parent);
    }
    // code_block_parents_ok
    assert forall|v: u128| c2.code_block_live(v) implies match c2.code_block_nodes()[v].parent {
        Some(q) => c2.interval_live(q) && c2.interval_nodes()[q].code_blocks.contains(v),
        None => true,
    } by {
        assert(c1.code_block_live(v));
        if v == c {
            let ch = c2.interval_nodes()[p].code_blocks;
            assert(ch == c1.interval_nodes()[p].code_blocks.push(c));
            assert(ch[ch.len() - 1] == c);
            assert(ch.contains(c));
        } else {
            assert(c2.code_block_nodes()[v].parent == c1.code_block_nodes()[v].parent);
            if c1.code_block_nodes()[v].parent is Some {
                let q = c1.code_block_nodes()[v].parent->0;
                let ch0 = c1.interval_nodes()[q].code_blocks;
                assert(ch0.contains(v));
                let k = choose|k: int| 0 <= k < ch0.len() && ch0[k] == v;
                assert(c2.interval_nodes()[q].code_blocks[k] == v);
                assert(c2.interval_nodes()[q].code_blocks.contains(v));
            }
        }
    }
    // data_block_parents_ok: data lists unchanged.
    assert forall|v: u128| c2.data_block_live(v) implies match c2.data_block_nodes()[v].parent {
        Some(q) => c2.interval_live(q) && c2.interval_nodes()[q].data_blocks.contains(v),
        None => true,
    } by {
        assert(c1.data_block_live(v));
        if c1.data_block_nodes()[v].parent is Some {
            let q = c1.data_block_nodes()[v].parent->0;
            assert(c2.interval_nodes()[q].data_blocks == c1.interval_nodes()[q].data_blocks);
        }
    }
    // nodes_ok
    assert forall|v: u128| c2.section_live(v) implies c2.section_nodes()[v].inv() by {
        assert(c1.section_live(v));
    }
    assert forall|v: u128| c2.interval_live(v) implies c2.interval_nodes()[v].inv() by {
        assert(c1.interval_live(v));
        assert(c2.interval_nodes()[v].size == c1.interval_nodes()[v].size);
        assert(c2.interval_nodes()[v].bytes == c1.interval_nodes()[v].bytes);
        assert(c2.interval_nodes()[v].symbolic_expressions == c1.interval_nodes()[v].symbolic_expressions);
    }
}

pub(crate) proof fn lemma_wf_detach_code_block(c1: Context, c2: Context, p: u128, c: u128, i: int)
    requires
        c1.wf(),
        c1.interval_live(p),
        c1.code_block_live(c),
        0 <= i < c1.interval_nodes()[p].code_blocks.len(),
        c1.interval_nodes()[p].code_blocks[i] == c,
        c2.interval_nodes() == c1.interval_nodes().insert(
            p,
            ByteIntervalNodeV {
                code_blocks: c1.interval_nodes()[p].code_blocks.remove(i),
                ..c1.interval_nodes()[p]
            },
        ),
        c2.code_block_nodes() == c1.code_block_nodes().insert(
            c,
            CodeBlock { parent: None, ..c1.code_block_nodes()[c] },
        ),
        c2.ir_nodes() == c1.ir_nodes(),
        c2.module_nodes() == c1.module_nodes(),
        c2.section_nodes() == c1.section_nodes(),
        c2.data_block_nodes() == c1.data_block_nodes(),
        c2.proxy_block_nodes() == c1.proxy_block_nodes(),
        c2.symbol_nodes() == c1.symbol_nodes(),
    ensures
        c2.wf(),
{
    lemma_ir_children_preserved(c1, c2);
    lemma_module_children_preserved(c1, c2);
    lemma_module_parents_preserved(c1, c2);
    lemma_section_parents_preserved(c1, c2);
    lemma_symbol_parents_preserved(c1, c2);
    lemma_proxy_block_parents_preserved(c1, c2);
    assert forall|v: u128| c2.kind_count(v) <= 1 by {
        assert(c1.kind_count(v) <= 1);
        assert(c2.kind_count(v) == c1.kind_count(v));
    }
    assert(c1.interval_node_ok(p));
    let s0 = c1.interval_nodes()[p].code_blocks;
    let sn = s0.remove(i);
    assert(sn.len() == s0.len() - 1);
    assert(forall|k: int| 0 <= k < i ==> sn[k] == s0[k]);
    assert(forall|k: int| i <= k < sn.len() ==> sn[k] == s0[k + 1]);
    assert(c1.code_block_child_ok(s0[i], p));
    assert forall|q: u128| c2.section_live(q) implies c2.section_node_ok(q) by {
        assert(c1.section_live(q));
        assert(c1.section_node_ok(q));
        let ch = c2.section_nodes()[q].byte_intervals;
        assert forall|k: int| 0 <= k < ch.len() implies c2.interval_child_ok(ch[k], q) by {
            assert(c1.interval_child_ok(ch[k], q));
            assert(c2.interval_nodes()[ch[k]].parent == c1.interval_nodes()[ch[k]].parent);
        }
    }
    assert forall|q: u128| c2.interval_live(q) implies c2.interval_node_ok(q) by {
        assert(c1.interval_live(q));
        assert(c1.interval_node_ok(q));
        let n = c2.interval_nodes()[q];
        assert(n.data_blocks == c1.interval_nodes()[q].data_blocks);
        if q == p {
            assert(n.code_blocks == sn);
            assert forall|a: int, b: int| 0 <= a < b < n.code_blocks.len() implies n.code_blocks[a]
                != n.code_blocks[b] by {
                let a0: int = if a < i { a } else { a + 1 };
                let b0: int = if b < i { b } else { b + 1 };
                assert(n.code_blocks[a] == s0[a0]);
                assert(n.code_blocks[b] == s0[b0]);
            }
            assert(n.code_blocks.no_duplicates());
            assert forall|k: int| 0 <= k < n.code_blocks.len() implies c2.code_block_child_ok(
                n.code_blocks[k],
                q,
            ) by {
                let k0: int = if k < i { k } else { k + 1 };
                assert(n.code_blocks[k] == s0[k0]);
                assert(c1.code_block_child_ok(s0[k0], q));
                assert(s0[k0] != c);
            }
        } else {
            assert(n.code_blocks == c1.interval_nodes()[q].code_blocks);
            assert forall|k: int| 0 <= k < n.code_blocks.len() implies c2.code_block_child_ok(
                n.code_blocks[k],
                q,
            ) by {
                assert(c1.code_block_child_ok(n.code_blocks[k], q));
                assert(n.code_blocks[k] != c);
            }
        }
        assert forall|k: int| 0 <= k < n.data_blocks.len() implies c2.data_block_child_ok(
            n.data_blocks[k],
            q,
        ) by {
            assert(c1.data_block_child_ok(n.data_blocks[k], q));
        }
    }
    assert forall|v: u128| c2.interval_live(v) implies match c2.interval_nodes()[v].parent {
        Some(q) => c2.section_live(q) && c2.section_nodes()[q].byte_intervals.contains(v),
        None => true,
    } by {
        assert(c1.interval_live(v));
        assert(c2.interval_nodes()[v].parent == c1.interval_nodes()[v].parent);
    }
    assert forall|v: u128| c2.code_block_live(v) implies match c2.code_block_nodes()[v].parent {
        Some(q) => c2.interval_live(q) && c2.interval_nodes()[q].code_blocks.contains(v),
        None => true,
    } by {
        assert(c1.code_block_live(v));
        if v != c {
            assert(c2.code_block_nodes()[v].parent == c1.code_block_nodes()[v].parent);
            if c1.code_block_nodes()[v].parent is Some {
                let q = c1.code_block_nodes()[v].parent->0;
                let cq0 = c1.interval_nodes()[q].code_blocks;
                assert(cq0.contains(v));
                let k = choose|k: int| 0 <= k < cq0.len() && cq0[k] == v;
                if q == p {
                    assert(v != c);
                    let k2: int = if k < i { k } else { k - 1 };
                    assert(sn[k2] == v);
                    assert(c2.interval_nodes()[q].code_blocks.contains(v));
                } else {
                    assert(c2.interval_nodes()[q].code_blocks[k] == v);
                    assert(c2.interval_nodes()[q].code_blocks.contains(v));
                }
            }
        }
    }
    assert forall|v: u128| c2.data_block_live(v) implies match c2.data_block_nodes()[v].parent {
        Some(q) => c2.interval_live(q) && c2.interval_nodes()[q].data_blocks.contains(v),
        None => true,
    } by {
        assert(c1.data_block_live(v));
        if c1.data_block_nodes()[v].parent is Some {
            let q = c1.data_block_nodes()[v].parent->0;
            assert(c2.interval_nodes()[q].data_blocks == c1.interval_nodes()[q].data_blocks);
        }
    }
    assert forall|v: u128| c2.section_live(v) implies c2.section_nodes()[v].inv() by {
        assert(c1.section_live(v));
    }
    assert forall|v: u128| c2.interval_live(v) implies c2.interval_nodes()[v].inv() by {
        assert(c1.interval_live(v));
        assert(c2.interval_nodes()[v].size == c1.interval_nodes()[v].size);
        assert(c2.interval_nodes()[v].bytes == c1.interval_nodes()[v].bytes);
        assert(c2.interval_nodes()[v].symbolic_expressions == c1.interval_nodes()[v].symbolic_expressions);
    }
}

pub(crate) proof fn lemma_wf_attach_data_block(c1: Context, c2: Context, p: u128, c: u128)
    requires
        c1.wf(),
        c1.interval_live(p),
        c1.data_block_live(c),
        c1.data_block_nodes()[c].parent == None::<u128>,
        c2.interval_nodes() == c1.interval_nodes().insert(
            p,
            ByteIntervalNodeV {
                data_blocks: c1.interval_nodes()[p].data_blocks.push(c),
                ..c1.interval_nodes()[p]
            },
        ),
        c2.data_block_nodes() == c1.data_block_nodes().insert(
            c,
            DataBlock { parent: Some(p), ..c1.data_block_nodes()[c] },
        ),
        c2.ir_nodes() == c1.ir_nodes(),
        c2.module_nodes() == c1.module_nodes(),
        c2.section_nodes() == c1.section_nodes(),
        c2.code_block_nodes() == c1.code_block_nodes(),
        c2.proxy_block_nodes() == c1.proxy_block_nodes(),
        c2.symbol_nodes() == c1.symbol_nodes(),
    ensures
        c2.wf(),
{
    lemma_ir_children_preserved(c1, c2);
    lemma_module_children_preserved(c1, c2);
    lemma_module_parents_preserved(c1, c2);
    lemma_section_parents_preserved(c1, c2);
    lemma_symbol_parents_preserved(c1, c2);
    lemma_proxy_block_parents_preserved(c1, c2);
    assert forall|v: u128| c2.kind_count(v) <= 1 by {
        assert(c1.kind_count(v) <= 1);
        assert(c2.kind_count(v) == c1.kind_count(v));
    }
    assert forall|q: u128| c2.section_live(q) implies c2.section_node_ok(q) by {
        assert(c1.section_live(q));
        assert(c1.section_node_ok(q));
        let ch = c2.section_nodes()[q].byte_intervals;
        assert forall|k: int| 0 <= k < ch.len() implies c2.interval_child_ok(ch[k], q) by {
            assert(c1.interval_child_ok(ch[k], q));
            assert(c2.interval_nodes()[ch[k]].parent == c1.interval_nodes()[ch[k]].parent);
        }
    }
    assert forall|q: u128| c2.interval_live(q) implies c2.interval_node_ok(q) by {
        assert(c1.interval_live(q));
        assert(c1.interval_node_ok(q));
        let n = c2.interval_nodes()[q];
        let s0 = c1.interval_nodes()[q].data_blocks;
        assert(n.code_blocks == c1.interval_nodes()[q].code_blocks);
        if q == p {
            lemma_detached_data_block_not_listed(c1, c, q);
            assert(n.data_blocks == s0.push(c));
            assert forall|a: int, b: int| 0 <= a < b < n.data_blocks.len() implies n.data_blocks[a]
                != n.data_blocks[b] by {
                if b < s0.len() {
                } else {
                    assert(n.data_blocks[b] == c);
                    assert(n.data_blocks[a] == s0[a]);
                    assert(!s0.contains(c));
                }
            }
            assert(n.data_blocks.no_duplicates());
            assert forall|k: int| 0 <= k < n.data_blocks.len() implies c2.data_block_child_ok(
                n.data_blocks[k],
                q,
            ) by {
                if k < s0.len() {
                    assert(c1.data_block_child_ok(s0[k], q));
                    assert(s0[k] != c);
                } else {
                    assert(n.data_blocks[k] == c);
                }
            }
        } else {
            assert(n.data_blocks == s0);
            assert forall|k: int| 0 <= k < n.data_blocks.len() implies c2.data_block_child_ok(
                n.data_blocks[k],
                q,
            ) by {
                assert(c1.data_block_child_ok(s0[k], q));
                assert(s0[k] != c);
            }
        }
        assert forall|k: int| 0 <= k < n.code_blocks.len() implies c2.code_block_child_ok(
            n.code_blocks[k],
            q,
        ) by {
            assert(c1.code_block_child_ok(n.code_blocks[k], q));
        }
    }
    assert forall|v: u128| c2.interval_live(v) implies match c2.interval_nodes()[v].parent {
        Some(q) => c2.section_live(q) && c2.section_nodes()[q].byte_intervals.contains(v),
        None => true,
    } by {
        assert(c1.interval_live(v));
        assert(c2.interval_nodes()[v].parent == c1.interval_nodes()[v].parent);
    }
    assert forall|v: u128| c2.data_block_live(v) implies match c2.data_block_nodes()[v].parent {
        Some(q) => c2.interval_live(q) && c2.interval_nodes()[q].data_blocks.contains(v),
        None => true,
    } by {
        assert(c1.data_block_live(v));
        if v == c {
            let ch = c2.interval_nodes()[p].data_blocks;
            assert(ch == c1.interval_nodes()[p].data_blocks.push(c));
            assert(ch[ch.len() - 1] == c);
            assert(ch.contains(c));
        } else {
            assert(c2.data_block_nodes()[v].parent == c1.data_block_nodes()[v].parent);
            if c1.data_block_nodes()[v].parent is Some {
                let q = c1.data_block_nodes()[v].parent->0;
                let ch0 = c1.interval_nodes()[q].data_blocks;
                assert(ch0.contains(v));
                let k = choose|k: int| 0 <= k < ch0.len() && ch0[k] == v;
                assert(c2.interval_nodes()[q].data_blocks[k] == v);
                assert(c2.interval_nodes()[q].data_blocks.contains(v));
            }
        }
    }
    assert forall|v: u128| c2.code_block_live(v) implies match c2.code_block_nodes()[v].parent {
        Some(q) => c2.interval_live(q) && c2.interval_nodes()[q].code_blocks.contains(v),
        None => true,
    } by {
        assert(c1.code_block_live(v));
        if c1.code_block_nodes()[v].parent is Some {
            let q = c1.code_block_nodes()[v].parent->0;
            assert(c2.interval_nodes()[q].code_blocks == c1.interval_nodes()[q].code_blocks);
        }
    }
    assert forall|v: u128| c2.section_live(v) implies c2.section_nodes()[v].inv() by {
        assert(c1.section_live(v));
    }
    assert forall|v: u128| c2.interval_live(v) implies c2.interval_nodes()[v].inv() by {
        assert(c1.interval_live(v));
        assert(c2.interval_nodes()[v].size == c1.interval_nodes()[v].size);
        assert(c2.interval_nodes()[v].bytes == c1.interval_nodes()[v].bytes);
        assert(c2.interval_nodes()[v].symbolic_expressions == c1.interval_nodes()[v].symbolic_expressions);
    }
}

pub(crate) proof fn lemma_wf_detach_data_block(c1: Context, c2: Context, p: u128, c: u128, i: int)
    requires
        c1.wf(),
        c1.interval_live(p),
        c1.data_block_live(c),
        0 <= i < c1.interval_nodes()[p].data_blocks.len(),
        c1.interval_nodes()[p].data_blocks[i] == c,
        c2.interval_nodes() == c1.interval_nodes().insert(
            p,
            ByteIntervalNodeV {
                data_blocks: c1.interval_nodes()[p].data_blocks.remove(i),
                ..c1.interval_nodes()[p]
            },
        ),
        c2.data_block_nodes() == c1.data_block_nodes().insert(
            c,
            DataBlock { parent: None, ..c1.data_block_nodes()[c] },
        ),
        c2.ir_nodes() == c1.ir_nodes(),
        c2.module_nodes() == c1.module_nodes(),
        c2.section_nodes() == c1.section_nodes(),
        c2.code_block_nodes() == c1.code_block_nodes(),
        c2.proxy_block_nodes() == c1.proxy_block_nodes(),
        c2.symbol_nodes() == c1.symbol_nodes(),
    ensures
        c2.wf(),
{
    lemma_ir_children_preserved(c1, c2);
    lemma_module_children_preserved(c1, c2);
    lemma_module_parents_preserved(c1, c2);
    lemma_section_parents_preserved(c1, c2);
    lemma_symbol_parents_preserved(c1, c2);
    lemma_proxy_block_parents_preserved(c1, c2);
    assert forall|v: u128| c2.kind_count(v) <= 1 by {
        assert(c1.kind_count(v) <= 1);
        assert(c2.kind_count(v) == c1.kind_count(v));
    }
    assert(c1.interval_node_ok(p));
    let s0 = c1.interval_nodes()[p].data_blocks;
    let sn = s0.remove(i);
    assert(sn.len() == s0.len() - 1);
    assert(forall|k: int| 0 <= k < i ==> sn[k] == s0[k]);
    assert(forall|k: int| i <= k < sn.len() ==> sn[k] == s0[k + 1]);
    assert(c1.data_block_child_ok(s0[i], p));
    assert forall|q: u128| c2.section_live(q) implies c2.section_node_ok(q) by {
        assert(c1.section_live(q));
        assert(c1.section_node_ok(q));
        let ch = c2.section_nodes()[q].byte_intervals;
        assert forall|k: int| 0 <= k < ch.len() implies c2.interval_child_ok(ch[k], q) by {
            assert(c1.interval_child_ok(ch[k], q));
            assert(c2.interval_nodes()[ch[k]].parent == c1.interval_nodes()[ch[k]].parent);
        }
    }
    assert forall|q: u128| c2.interval_live(q) implies c2.interval_node_ok(q) by {
        assert(c1.interval_live(q));
        assert(c1.interval_node_ok(q));
        let n = c2.interval_nodes()[q];
        assert(n.code_blocks == c1.interval_nodes()[q].code_blocks);
        if q == p {
            assert(n.data_blocks == sn);
            assert forall|a: int, b: int| 0 <= a < b < n.data_blocks.len() implies n.data_blocks[a]
                != n.data_blocks[b] by {
                let a0: int = if a < i { a } else { a + 1 };
                let b0: int = if b < i { b } else { b + 1 };
                assert(n.data_blocks[a] == s0[a0]);
                assert(n.data_blocks[b] == s0[b0]);
            }
            assert(n.data_blocks.no_duplicates());
            assert forall|k: int| 0 <= k < n.data_blocks.len() implies c2.data_block_child_ok(
                n.data_blocks[k],
                q,
            ) by {
                let k0: int = if k < i { k } else { k + 1 };
                assert(n.data_blocks[k] == s0[k0]);
                assert(c1.data_block_child_ok(s0[k0], q));
                assert(s0[k0] != c);
            }
        } else {
            assert(n.data_blocks == c1.interval_nodes()[q].data_blocks);
            assert forall|k: int| 0 <= k < n.data_blocks.len() implies c2.data_block_child_ok(
                n.data_blocks[k],
                q,
            ) by {
                assert(c1.data_block_child_ok(n.data_blocks[k], q));
                assert(n.data_blocks[k] != c);
            }
        }
        assert forall|k: int| 0 <= k < n.code_blocks.len() implies c2.code_block_child_ok(
            n.code_blocks[k],
            q,
        ) by {
            assert(c1.code_block_child_ok(n.code_blocks[k], q));
        }
    }
    assert forall|v: u128| c2.interval_live(v) implies match c2.interval_nodes()[v].parent {
        Some(q) => c2.section_live(q) && c2.section_nodes()[q].byte_intervals.contains(v),
        None => true,
    } by {
        assert(c1.interval_live(v));
        assert(c2.interval_nodes()[v].parent == c1.interval_nodes()[v].parent);
    }
    assert forall|v: u128| c2.data_block_live(v) implies match c2.data_block_nodes()[v].parent {
        Some(q) => c2.interval_live(q) && c2.interval_nodes()[q].data_blocks.contains(v),
        None => true,
    } by {
        assert(c1.data_block_live(v));
        if v != c {
            assert(c2.data_block_nodes()[v].parent == c1.data_block_nodes()[v].parent);
            if c1.data_block_nodes()[v].parent is Some {
                let q = c1.data_block_nodes()[v].parent->0;
                let cq0 = c1.interval_nodes()[q].data_blocks;
                assert(cq0.contains(v));
                let k = choose|k: int| 0 <= k < cq0.len() && cq0[k] == v;
                if q == p {
                    assert(v != c);
                    let k2: int = if k < i { k } else { k - 1 };
                    assert(sn[k2] == v);
                    assert(c2.interval_nodes()[q].data_blocks.contains(v));
                } else {
                    assert(c2.interval_nodes()[q].data_blocks[k] == v);
                    assert(c2.interval_nodes()[q].data_blocks.contains(v));
                }
            }
        }
    }
    assert forall|v: u128| c2.code_block_live(v) implies match c2.code_block_nodes()[v].parent {
        Some(q) => c2.interval_live(q) && c2.interval_nodes()[q].code_blocks.contains(v),
        None => true,
    } by {
        assert(c1.code_block_live(v));
        if c1.code_block_nodes()[v].parent is Some {
            let q = c1.code_block_nodes()[v].parent->0;
            assert(c2.interval_nodes()[q].code_blocks == c1.interval_nodes()[q].code_blocks);
        }
    }
    assert forall|v: u128| c2.section_live(v) implies c2.section_nodes()[v].inv() by {
        assert(c1.section_live(v));
    }
    assert forall|v: u128| c2.interval_live(v) implies c2.interval_nodes()[v].inv() by {
        assert(c1.interval_live(v));
        assert(c2.interval_nodes()[v].size == c1.interval_nodes()[v].size);
        assert(c2.interval_nodes()[v].bytes == c1.interval_nodes()[v].bytes);
        assert(c2.interval_nodes()[v].symbolic_expressions == c1.interval_nodes()[v].symbolic_expressions);
    }
}

// Removal lemmas: dropping a detached, childless node from its registry
// preserves well-formedness.

pub(crate) proof fn lemma_wf_remove_ir(c1: Context, c2: Context, u: u128)
    requires
        c1.wf(),
        c1.ir_live(u),
        c1.ir_nodes()[u].modules.len() == 0,
        c2.ir_nodes() == c1.ir_nodes().remove(u),
        c2.module_nodes() == c1.module_nodes(),
        c2.section_nodes() == c1.section_nodes(),
        c2.interval_nodes() == c1.interval_nodes(),
        c2.code_block_nodes() == c1.code_block_nodes(),
        c2.data_block_nodes() == c1.data_block_nodes(),
        c2.proxy_block_nodes() == c1.proxy_block_nodes(),
        c2.symbol_nodes() == c1.symbol_nodes(),
    ensures
        c2.wf(),
{
    lemma_module_children_preserved(c1, c2);
    lemma_section_children_preserved(c1, c2);
    lemma_interval_children_preserved(c1, c2);
    lemma_section_parents_preserved(c1, c2);
    lemma_symbol_parents_preserved(c1, c2);
    lemma_proxy_block_parents_preserved(c1, c2);
    lemma_interval_parents_preserved(c1, c2);
    lemma_code_block_parents_preserved(c1, c2);
    lemma_data_block_parents_preserved(c1, c2);
    lemma_nodes_preserved(c1, c2);
    assert forall|v: u128| c2.kind_count(v) <= 1 by {
        assert(c1.kind_count(v) <= 1);
    }
    assert forall|p: u128| c2.ir_live(p) implies c2.ir_node_ok(p) by {
        assert(c1.ir_live(p));
        assert(c1.ir_node_ok(p));
        let ch = c2.ir_nodes()[p].modules;
        assert(ch == c1.ir_nodes()[p].modules);
        assert forall|k: int| 0 <= k < ch.len() implies c2.module_child_ok(ch[k], p) by {
            assert(c1.module_child_ok(ch[k], p));
        }
    }
    assert forall|v: u128| c2.module_live(v) implies match c2.module_nodes()[v].parent {
        Some(q) => c2.ir_live(q) && c2.ir_nodes()[q].modules.contains(v),
        None => true,
    } by {
        assert(c1.module_live(v));
        if c1.module_nodes()[v].parent is Some {
            let q = c1.module_nodes()[v].parent->0;
            assert(c1.ir_nodes()[q].modules.contains(v));
            assert(q != u);
        }
    }
}

pub(crate) proof fn lemma_wf_remove_module(c1: Context, c2: Context, u: u128)
    requires
        c1.wf(),
        c1.module_live(u),
        c1.module_nodes()[u].parent == None::<u128>,
        c1.module_nodes()[u].sections.len() == 0,
        c1.module_nodes()[u].symbols.len() == 0,
        c1.module_nodes()[u].proxy_blocks.len() == 0,
        c2.module_nodes() == c1.module_nodes().remove(u),
        c2.ir_nodes() == c1.ir_nodes(),
        c2.section_nodes() == c1.section_nodes(),
        c2.interval_nodes() == c1.interval_nodes(),
        c2.code_block_nodes() == c1.code_block_nodes(),
        c2.data_block_nodes() == c1.data_block_nodes(),
        c2.proxy_block_nodes() == c1.proxy_block_nodes(),
        c2.symbol_nodes() == c1.symbol_nodes(),
    ensures
        c2.wf(),
{
    lemma_section_children_preserved(c1, c2);
    lemma_interval_children_preserved(c1, c2);
    lemma_interval_parents_preserved(c1, c2);
    lemma_code_block_parents_preserved(c1, c2);
    lemma_data_block_parents_preserved(c1, c2);
    lemma_nodes_preserved(c1, c2);
    assert forall|v: u128| c2.kind_count(v) <= 1 by {
        assert(c1.kind_count(v) <= 1);
    }
    assert forall|p: u128| c2.ir_live(p) implies c2.ir_node_ok(p) by {
        assert(c1.ir_live(p));
        assert(c1.ir_node_ok(p));
        let ch = c2.ir_nodes()[p].modules;
        assert forall|k: int| 0 <= k < ch.len() implies c2.module_child_ok(ch[k], p) by {
            assert(c1.module_child_ok(ch[k], p));
            assert(ch[k] != u);
        }
    }
    assert forall|p: u128| c2.module_live(p) implies c2.module_node_ok(p) by {
        assert(c1.module_live(p));
        assert(c1.module_node_ok(p));
        let n = c2.module_nodes()[p];
        assert(n == c1.module_nodes()[p]);
        assert forall|k: int| 0 <= k < n.sections.len() implies c2.section_child_ok(
            n.sections[k],
            p,
        ) by {
            assert(c1.section_child_ok(n.sections[k], p));
        }
        assert forall|k: int| 0 <= k < n.symbols.len() implies c2.symbol_child_ok(
            n.symbols[k],
            p,
        ) by {
            assert(c1.symbol_child_ok(n.symbols[k], p));
        }
        assert forall|k: int| 0 <= k < n.proxy_blocks.len() implies c2.proxy_block_child_ok(
            n.proxy_blocks[k],
            p,
        ) by {
            assert(c1.proxy_block_child_ok(n.proxy_blocks[k], p));
        }
    }
    assert forall|v: u128| c2.module_live(v) implies match c2.module_nodes()[v].parent {
        Some(q) => c2.ir_live(q) && c2.ir_nodes()[q].modules.contains(v),
        None => true,
    } by {
        assert(c1.module_live(v));
    }
    assert forall|v: u128| c2.section_live(v) implies match c2.section_nodes()[v].parent {
        Some(q) => c2.module_live(q) && c2.module_nodes()[q].sections.contains(v),
        None => true,
    } by {
        assert(c1.section_live(v));
        if c1.section_nodes()[v].parent is Some {
            let q = c1.section_nodes()[v].parent->0;
            assert(c1.module_nodes()[q].sections.contains(v));
            assert(q != u);
        }
    }
    assert forall|v: u128| c2.symbol_live(v) implies match c2.symbol_nodes()[v].parent {
        Some(q) => c2.module_live(q) && c2.module_nodes()[q].symbols.contains(v),
        None => true,
    } by {
        assert(c1.symbol_live(v));
        if c1.symbol_nodes()[v].parent is Some {
            let q = c1.symbol_nodes()[v].parent->0;
            assert(c1.module_nodes()[q].symbols.contains(v));
            assert(q != u);
        }
    }
    assert forall|v: u128| c2.proxy_block_live(v) implies match c2.proxy_block_nodes()[v].parent {
        Some(q) => c2.module_live(q) && c2.module_nodes()[q].proxy_blocks.contains(v),
        None => true,
    } by {
        assert(c1.proxy_block_live(v));
        if c1.proxy_block_nodes()[v].parent is Some {
            let q = c1.proxy_block_nodes()[v].parent->0;
            assert(c1.module_nodes()[q].proxy_blocks.contains(v));
            assert(q != u);
        }
    }
}

pub(crate) proof fn lemma_wf_remove_section(c1: Context, c2: Context, u: u128)
    requires
        c1.wf(),
        c1.section_live(u),
        c1.section_nodes()[u].parent == None::<u128>,
        c1.section_nodes()[u].byte_intervals.len() == 0,
        c2.section_nodes() == c1.section_nodes().remove(u),
        c2.ir_nodes() == c1.ir_nodes(),
        c2.module_nodes() == c1.module_nodes(),
        c2.interval_nodes() == c1.interval_nodes(),
        c2.code_block_nodes() == c1.code_block_nodes(),
        c2.data_block_nodes() == c1.data_block_nodes(),
        c2.proxy_block_nodes() == c1.proxy_block_nodes(),
        c2.symbol_nodes() == c1.symbol_nodes(),
    ensures
        c2.wf(),
{
    lemma_ir_children_preserved(c1, c2);
    lemma_interval_children_preserved(c1, c2);
    lemma_module_parents_preserved(c1, c2);
    lemma_symbol_parents_preserved(c1, c2);
    lemma_proxy_block_parents_preserved(c1, c2);
    lemma_code_block_parents_preserved(c1, c2);
    lemma_data_block_parents_preserved(c1, c2);
    assert forall|v: u128| c2.kind_count(v) <= 1 by {
        assert(c1.kind_count(v) <= 1);
    }
    assert forall|p: u128| c2.module_live(p) implies c2.module_node_ok(p) by {
        assert(c1.module_live(p));
        assert(c1.module_node_ok(p));
        let n = c2.module_nodes()[p];
        assert forall|k: int| 0 <= k < n.sections.len() implies c2.section_child_ok(
            n.sections[k],
            p,
        ) by {
            assert(c1.section_child_ok(n.sections[k], p));
            assert(n.sections[k] != u);
        }
        assert forall|k: int| 0 <= k < n.symbols.len() implies c2.symbol_child_ok(
            n.symbols[k],
            p,
        ) by {
            assert(c1.symbol_child_ok(n.symbols[k], p));
        }
        assert forall|k: int| 0 <= k < n.proxy_blocks.len() implies c2.proxy_block_child_ok(
            n.proxy_blocks[k],
            p,
        ) by {
            assert(c1.proxy_block_child_ok(n.proxy_blocks[k], p));
        }
    }
    assert forall|p: u128| c2.section_live(p) implies c2.section_node_ok(p) by {
        assert(c1.section_live(p));
        assert(c1.section_node_ok(p));
        let ch = c2.section_nodes()[p].byte_intervals;
        assert(ch == c1.section_nodes()[p].byte_intervals);
        assert forall|k: int| 0 <= k < ch.len() implies c2.interval_child_ok(ch[k], p) by {
            assert(c1.interval_child_ok(ch[k], p));
        }
    }
    assert forall|v: u128| c2.section_live(v) implies match c2.section_nodes()[v].parent {
        Some(q) => c2.module_live(q) && c2.module_nodes()[q].sections.contains(v),
        None => true,
    } by {
        assert(c1.section_live(v));
    }
    assert forall|v: u128| c2.interval_live(v) implies match c2.interval_nodes()[v].parent {
        Some(q) => c2.section_live(q) && c2.section_nodes()[q].byte_intervals.contains(v),
        None => true,
    } by {
        assert(c1.interval_live(v));
        if c1.interval_nodes()[v].parent is Some {
            let q = c1.interval_nodes()[v].parent->0;
            assert(c1.section_nodes()[q].byte_intervals.contains(v));
            assert(q != u);
        }
    }
    assert forall|v: u128| c2.section_live(v) implies c2.section_nodes()[v].inv() by {
        assert(c1.section_live(v));
    }
    assert forall|v: u128| c2.interval_live(v) implies c2.interval_nodes()[v].inv() by {
        assert(c1.interval_live(v));
    }
}

pub(crate) proof fn lemma_wf_remove_interval(c1: Context, c2: Context, u: u128)
    requires
        c1.wf(),
        c1.interval_live(u),
        c1.interval_nodes()[u].parent == None::<u128>,
        c1.interval_nodes()[u].code_blocks.len() == 0,
        c1.interval_nodes()[u].data_blocks.len() == 0,
        c2.interval_nodes() == c1.interval_nodes().remove(u),
        c2.ir_nodes() == c1.ir_nodes(),
        c2.module_nodes() == c1.module_nodes(),
        c2.section_nodes() == c1.section_nodes(),
        c2.code_block_nodes() == c1.code_block_nodes(),
        c2.data_block_nodes() == c1.data_block_nodes(),
        c2.proxy_block_nodes() == c1.proxy_block_nodes(),
        c2.symbol_nodes() == c1.symbol_nodes(),
    ensures
        c2.wf(),
{
    lemma_ir_children_preserved(c1, c2);
    lemma_module_children_preserved(c1, c2);
    lemma_module_parents_preserved(c1, c2);
    lemma_section_parents_preserved(c1, c2);
    lemma_symbol_parents_preserved(c1, c2);
    lemma_proxy_block_parents_preserved(c1, c2);
    assert forall|v: u128| c2.kind_count(v) <= 1 by {
        assert(c1.kind_count(v) <= 1);
    }
    assert forall|p: u128| c2.section_live(p) implies c2.section_node_ok(p) by {
        assert(c1.section_live(p));
        assert(c1.section_node_ok(p));
        let ch = c2.section_nodes()[p].byte_intervals;
        assert forall|k: int| 0 <= k < ch.len() implies c2.interval_child_ok(ch[k], p) by {
            assert(c1.interval_child_ok(ch[k], p));
            assert(ch[k] != u);
        }
    }
    assert forall|p: u128| c2.interval_live(p) implies c2.interval_node_ok(p) by {
        assert(c1.interval_live(p));
        assert(c1.interval_node_ok(p));
        let n = c2.interval_nodes()[p];
        assert(n == c1.interval_nodes()[p]);
        assert forall|k: int| 0 <= k < n.code_blocks.len() implies c2.code_block_child_ok(
            n.code_blocks[k],
            p,
        ) by {
            assert(c1.code_block_child_ok(n.code_blocks[k], p));
        }
        assert forall|k: int| 0 <= k < n.data_blocks.len() implies c2.data_block_child_ok(
            n.data_blocks[k],
            p,
        ) by {
            assert(c1.data_block_child_ok(n.data_blocks[k], p));
        }
    }
    assert forall|v: u128| c2.interval_live(v) implies match c2.interval_nodes()[v].parent {
        Some(q) => c2.section_live(q) && c2.section_nodes()[q].byte_intervals.contains(v),
        None => true,
    } by {
        assert(c1.interval_live(v));
    }
    assert forall|v: u128| c2.code_block_live(v) implies match c2.code_block_nodes()[v].parent {
        Some(q) => c2.interval_live(q) && c2.interval_nodes()[q].code_blocks.contains(v),
        None => true,
    } by {
        assert(c1.code_block_live(v));
        if c1.code_block_nodes()[v].parent is Some {
            let q = c1.code_block_nodes()[v].parent->0;
            assert(c1.interval_nodes()[q].code_blocks.contains(v));
            assert(q != u);
        }
    }
    assert forall|v: u128| c2.data_block_live(v) implies match c2.data_block_nodes()[v].parent {
        Some(q) => c2.interval_live(q) && c2.interval_nodes()[q].data_blocks.contains(v),
        None => true,
    } by {
        assert(c1.data_block_live(v));
        if c1.data_block_nodes()[v].parent is Some {
            let q = c1.data_block_nodes()[v].parent->0;
            assert(c1.interval_nodes()[q].data_blocks.contains(v));
            assert(q != u);
        }
    }
    assert forall|v: u128| c2.section_live(v) implies c2.section_nodes()[v].inv() by {
        assert(c1.section_live(v));
    }
    assert forall|v: u128| c2.interval_live(v) implies c2.interval_nodes()[v].inv() by {
        assert(c1.interval_live(v));
    }
}

pub(crate) proof fn lemma_wf_remove_code_block(c1: Context, c2: Context, u: u128)
    requires
        c1.wf(),
        c1.code_block_live(u),
        c1.code_block_nodes()[u].parent == None::<u128>,
        c2.code_block_nodes() == c1.code_block_nodes().remove(u),
        c2.ir_nodes() == c1.ir_nodes(),
        c2.module_nodes() == c1.module_nodes(),
        c2.section_nodes() == c1.section_nodes(),
        c2.interval_nodes() == c1.interval_nodes(),
        c2.data_block_nodes() == c1.data_block_nodes(),
        c2.proxy_block_nodes() == c1.proxy_block_nodes(),
        c2.symbol_nodes() == c1.symbol_nodes(),
    ensures
        c2.wf(),
{
    lemma_ir_children_preserved(c1, c2);
    lemma_module_children_preserved(c1, c2);
    lemma_section_children_preserved(c1, c2);
    lemma_module_parents_preserved(c1, c2);
    lemma_section_parents_preserved(c1, c2);
    lemma_symbol_parents_preserved(c1, c2);
    lemma_proxy_block_parents_preserved(c1, c2);
    lemma_interval_parents_preserved(c1, c2);
    lemma_data_block_parents_preserved(c1, c2);
    lemma_nodes_preserved(c1, c2);
    assert forall|v: u128| c2.kind_count(v) <= 1 by {
        assert(c1.kind_count(v) <= 1);
    }
    assert forall|p: u128| c2.interval_live(p) implies c2.interval_node_ok(p) by {
        assert(c1.interval_live(p));
        assert(c1.interval_node_ok(p));
        let n = c2.interval_nodes()[p];
        assert forall|k: int| 0 <= k < n.code_blocks.len() implies c2.code_block_child_ok(
            n.code_blocks[k],
            p,
        ) by {
            assert(c1.code_block_child_ok(n.code_blocks[k], p));
            assert(n.code_blocks[k] != u);
        }
        assert forall|k: int| 0 <= k < n.data_blocks.len() implies c2.data_block_child_ok(
            n.data_blocks[k],
            p,
        ) by {
            assert(c1.data_block_child_ok(n.data_blocks[k], p));
        }
    }
    assert forall|v: u128| c2.code_block_live(v) implies match c2.code_block_nodes()[v].parent {
        Some(q) => c2.interval_live(q) && c2.interval_nodes()[q].code_blocks.contains(v),
        None => true,
    } by {
        assert(c1.code_block_live(v));
    }
}

pub(crate) proof fn lemma_wf_remove_data_block(c1: Context, c2: Context, u: u128)
    requires
        c1.wf(),
        c1.data_block_live(u),
        c1.data_block_nodes()[u].parent == None::<u128>,
        c2.data_block_nodes() == c1.data_block_nodes().remove(u),
        c2.ir_nodes() == c1.ir_nodes(),
        c2.module_nodes() == c1.module_nodes(),
        c2.section_nodes() == c1.section_nodes(),
        c2.interval_nodes() == c1.interval_nodes(),
        c2.code_block_nodes() == c1.code_block_nodes(),
        c2.proxy_block_nodes() == c1.proxy_block_nodes(),
        c2.symbol_nodes() == c1.symbol_nodes(),
    ensures
        c2.wf(),
{
    lemma_ir_children_preserved(c1, c2);
    lemma_module_children_preserved(c1, c2);
    lemma_section_children_preserved(c1, c2);
    lemma_module_parents_preserved(c1, c2);
    lemma_section_parents_preserved(c1, c2);
    lemma_symbol_parents_preserved(c1, c2);
    lemma_proxy_block_parents_preserved(c1, c2);
    lemma_interval_parents_preserved(c1, c2);
    lemma_code_block_parents_preserved(c1, c2);
    lemma_nodes_preserved(c1, c2);
    assert forall|v: u128| c2.kind_count(v) <= 1 by {
        assert(c1.kind_count(v) <= 1);
    }
    assert forall|p: u128| c2.interval_live(p) implies c2.interval_node_ok(p) by {
        assert(c1.interval_live(p));
        assert(c1.interval_node_ok(p));
        let n = c2.interval_nodes()[p];
        assert forall|k: int| 0 <= k < n.code_blocks.len() implies c2.code_block_child_ok(
            n.code_blocks[k],
            p,
        ) by {
            assert(c1.code_block_child_ok(n.code_blocks[k], p));
        }
        assert forall|k: int| 0 <= k < n.data_blocks.len() implies c2.data_block_child_ok(
            n.data_blocks[k],
            p,
        ) by {
            assert(c1.data_block_child_ok(n.data_blocks[k], p));
            assert(n.data_blocks[k] != u);
        }
    }
    assert forall|v: u128| c2.data_block_live(v) implies match c2.data_block_nodes()[v].parent {
        Some(q) => c2.interval_live(q) && c2.interval_nodes()[q].data_blocks.contains(v),
        None => true,
    } by {
        assert(c1.data_block_live(v));
    }
}

pub(crate) proof fn lemma_wf_remove_proxy_block(c1: Context, c2: Context, u: u128)
    requires
        c1.wf(),
        c1.proxy_block_live(u),
        c1.proxy_block_nodes()[u].parent == None::<u128>,
        c2.proxy_block_nodes() == c1.proxy_block_nodes().remove(u),
        c2.ir_nodes() == c1.ir_nodes(),
        c2.module_nodes() == c1.module_nodes(),
        c2.section_nodes() == c1.section_nodes(),
        c2.interval_nodes() == c1.interval_nodes(),
        c2.code_block_nodes() == c1.code_block_nodes(),
        c2.data_block_nodes() == c1.data_block_nodes(),
        c2.symbol_nodes() == c1.symbol_nodes(),
    ensures
        c2.wf(),
{
    lemma_ir_children_preserved(c1, c2);
    lemma_section_children_preserved(c1, c2);
    lemma_interval_children_preserved(c1, c2);
    lemma_module_parents_preserved(c1, c2);
    lemma_section_parents_preserved(c1, c2);
    lemma_symbol_parents_preserved(c1, c2);
    lemma_interval_parents_preserved(c1, c2);
    lemma_code_block_parents_preserved(c1, c2);
    lemma_data_block_parents_preserved(c1, c2);
    lemma_nodes_preserved(c1, c2);
    assert forall|v: u128| c2.kind_count(v) <= 1 by {
        assert(c1.kind_count(v) <= 1);
    }
    assert forall|p: u128| c2.module_live(p) implies c2.module_node_ok(p) by {
        assert(c1.module_live(p));
        assert(c1.module_node_ok(p));
        let n = c2.module_nodes()[p];
        assert forall|k: int| 0 <= k < n.sections.len() implies c2.section_child_ok(
            n.sections[k],
            p,
        ) by {
            assert(c1.section_child_ok(n.sections[k], p));
        }
        assert forall|k: int| 0 <= k < n.symbols.len() implies c2.symbol_child_ok(
            n.symbols[k],
            p,
        ) by {
            assert(c1.symbol_child_ok(n.symbols[k], p));
        }
        assert forall|k: int| 0 <= k < n.proxy_blocks.len() implies c2.proxy_block_child_ok(
            n.proxy_blocks[k],
            p,
        ) by {
            assert(c1.proxy_block_child_ok(n.proxy_blocks[k], p));
            assert(n.proxy_blocks[k] != u);
        }
    }
    assert forall|v: u128| c2.proxy_block_live(v) implies match c2.proxy_block_nodes()[v].parent {
        Some(q) => c2.module_live(q) && c2.module_nodes()[q].proxy_blocks.contains(v),
        None => true,
    } by {
        assert(c1.proxy_block_live(v));
    }
}

pub(crate) proof fn lemma_wf_remove_symbol(c1: Context, c2: Context, u: u128)
    requires
        c1.wf(),
        c1.symbol_live(u),
        c1.symbol_nodes()[u].parent == None::<u128>,
        c2.symbol_nodes() == c1.symbol_nodes().remove(u),
        c2.ir_nodes() == c1.ir_nodes(),
        c2.module_nodes() == c1.module_nodes(),
        c2.section_nodes() == c1.section_nodes(),
        c2.interval_nodes() == c1.interval_nodes(),
        c2.code_block_nodes() == c1.code_block_nodes(),
        c2.data_block_nodes() == c1.data_block_nodes(),
        c2.proxy_block_nodes() == c1.proxy_block_nodes(),
    ensures
        c2.wf(),
{
    lemma_ir_children_preserved(c1, c2);
    lemma_section_children_preserved(c1, c2);
    lemma_interval_children_preserved(c1, c2);
    lemma_module_parents_preserved(c1, c2);
    lemma_section_parents_preserved(c1, c2);
    lemma_proxy_block_parents_preserved(c1, c2);
    lemma_interval_parents_preserved(c1, c2);
    lemma_code_block_parents_preserved(c1, c2);
    lemma_data_block_parents_preserved(c1, c2);
    lemma_nodes_preserved(c1, c2);
    assert forall|v: u128| c2.kind_count(v) <= 1 by {
        assert(c1.kind_count(v) <= 1);
    }
    assert forall|p: u128| c2.module_live(p) implies c2.module_node_ok(p) by {
        assert(c1.module_live(p));
        assert(c1.module_node_ok(p));
        let n = c2.module_nodes()[p];
        assert forall|k: int| 0 <= k < n.sections.len() implies c2.section_child_ok(
            n.sections[k],
            p,
        ) by {
            assert(c1.section_child_ok(n.sections[k], p));
        }
        assert forall|k: int| 0 <= k < n.symbols.len() implies c2.symbol_child_ok(
            n.symbols[k],
            p,
        ) by {
            assert(c1.symbol_child_ok(n.symbols[k], p));
            assert(n.symbols[k] != u);
        }
        assert forall|k: int| 0 <= k < n.proxy_blocks.len() implies c2.proxy_block_child_ok(
            n.proxy_blocks[k],
            p,
        ) by {
            assert(c1.proxy_block_child_ok(n.proxy_blocks[k], p));
        }
    }
    assert forall|v: u128| c2.symbol_live(v) implies match c2.symbol_nodes()[v].parent {
        Some(q) => c2.module_live(q) && c2.module_nodes()[q].symbols.contains(v),
        None => true,
    } by {
        assert(c1.symbol_live(v));
    }
}

// Clause-preservation lemmas: each carries one well-formedness clause from
// `c1` to `c2` when the registries that the clause reads are unchanged.

proof fn lemma_ir_children_preserved(c1: Context, c2: Context)
    requires
        c1.ir_children_ok(),
        c2.ir_nodes() == c1.ir_nodes(),
        c2.module_nodes() == c1.module_nodes(),
    ensures
        c2.ir_children_ok(),
{
    assert forall|p: u128| c2.ir_live(p) implies c2.ir_node_ok(p) by {
        assert(c1.ir_live(p));
        assert(c1.ir_node_ok(p));
        let ch = c2.ir_nodes()[p].modules;
        assert forall|i: int| 0 <= i < ch.len() implies c2.module_child_ok(ch[i], p) by {
            assert(c1.module_child_ok(ch[i], p));
        }
    }
}

proof fn lemma_module_children_preserved(c1: Context, c2: Context)
    requires
        c1.module_children_ok(),
        c2.module_nodes() == c1.module_nodes(),
        c2.section_nodes() == c1.section_nodes(),
        c2.symbol_nodes() == c1.symbol_nodes(),
        c2.proxy_block_nodes() == c1.proxy_block_nodes(),
    ensures
        c2.module_children_ok(),
{
    assert forall|p: u128| c2.module_live(p) implies c2.module_node_ok(p) by {
        assert(c1.module_live(p));
        assert(c1.module_node_ok(p));
        let n = c2.module_nodes()[p];
        assert forall|i: int| 0 <= i < n.sections.len() implies c2.section_child_ok(
            n.sections[i],
            p,
        ) by {
            assert(c1.section_child_ok(n.sections[i], p));
        }
        assert forall|i: int| 0 <= i < n.symbols.len() implies c2.symbol_child_ok(
            n.symbols[i],
            p,
        ) by {
            assert(c1.symbol_child_ok(n.symbols[i], p));
        }
        assert forall|i: int| 0 <= i < n.proxy_blocks.len() implies c2.proxy_block_child_ok(
            n.proxy_blocks[i],
            p,
        ) by {
            assert(c1.proxy_block_child_ok(n.proxy_blocks[i], p));
        }
    }
}

proof fn lemma_section_children_preserved(c1: Context, c2: Context)
    requires
        c1.section_children_ok(),
        c2.section_nodes() == c1.section_nodes(),
        c2.interval_nodes() == c1.interval_nodes(),
    ensures
        c2.section_children_ok(),
{
    assert forall|p: u128| c2.section_live(p) implies c2.section_node_ok(p) by {
        assert(c1.section_live(p));
        assert(c1.section_node_ok(p));
        let ch = c2.section_nodes()[p].byte_intervals;
        assert forall|i: int| 0 <= i < ch.len() implies c2.interval_child_ok(ch[i], p) by {
            assert(c1.interval_child_ok(ch[i], p));
        }
    }
}

proof fn lemma_interval_children_preserved(c1: Context, c2: Context)
    requires
        c1.interval_children_ok(),
        c2.interval_nodes() == c1.interval_nodes(),
        c2.code_block_nodes() == c1.code_block_nodes(),
        c2.data_block_nodes() == c1.data_block_nodes(),
    ensures
        c2.interval_children_ok(),
{
    assert forall|p: u128| c2.interval_live(p) implies c2.interval_node_ok(p) by {
        assert(c1.interval_live(p));
        assert(c1.interval_node_ok(p));
        let n = c2.interval_nodes()[p];
        assert forall|i: int| 0 <= i < n.code_blocks.len() implies c2.code_block_child_ok(
            n.code_blocks[i],
            p,
        ) by {
            assert(c1.code_block_child_ok(n.code_blocks[i], p));
        }
        assert forall|i: int| 0 <= i < n.data_blocks.len() implies c2.data_block_child_ok(
            n.data_blocks[i],
            p,
        ) by {
            assert(c1.data_block_child_ok(n.data_blocks[i], p));
        }
    }
}

proof fn lemma_module_parents_preserved(c1: Context, c2: Context)
    requires
        c1.module_parents_ok(),
        c2.module_nodes() == c1.module_nodes(),
        c2.ir_nodes() == c1.ir_nodes(),
    ensures
        c2.module_parents_ok(),
{
    assert forall|c: u128| c2.module_live(c) implies match c2.module_nodes()[c].parent {
        Some(p) => c2.ir_live(p) && c2.ir_nodes()[p].modules.contains(c),
        None => true,
    } by {
        assert(c1.module_live(c));
    }
}

proof fn lemma_section_parents_preserved(c1: Context, c2: Context)
    requires
        c1.section_parents_ok(),
        c2.section_nodes() == c1.section_nodes(),
        c2.module_nodes() == c1.module_nodes(),
    ensures
        c2.section_parents_ok(),
{
    assert forall|c: u128| c2.section_live(c) implies match c2.section_nodes()[c].parent {
        Some(p) => c2.module_live(p) && c2.module_nodes()[p].sections.contains(c),
        None => true,
    } by {
        assert(c1.section_live(c));
    }
}

proof fn lemma_symbol_parents_preserved(c1: Context, c2: Context)
    requires
        c1.symbol_parents_ok(),
        c2.symbol_nodes() == c1.symbol_nodes(),
        c2.module_nodes() == c1.module_nodes(),
    ensures
        c2.symbol_parents_ok(),
{
    assert forall|c: u128| c2.symbol_live(c) implies match c2.symbol_nodes()[c].parent {
        Some(p) => c2.module_live(p) && c2.module_nodes()[p].symbols.contains(c),
        None => true,
    } by {
        assert(c1.symbol_live(c));
    }
}

proof fn lemma_proxy_block_parents_preserved(c1: Context, c2: Context)
    requires
        c1.proxy_block_parents_ok(),
        c2.proxy_block_nodes() == c1.proxy_block_nodes(),
        c2.module_nodes() == c1.module_nodes(),
    ensures
        c2.proxy_block_parents_ok(),
{
    assert forall|c: u128| c2.proxy_block_live(c) implies match c2.proxy_block_nodes()[c].parent {
        Some(p) => c2.module_live(p) && c2.module_nodes()[p].proxy_blocks.contains(c),
        None => true,
    } by {
        assert(c1.proxy_block_live(c));
    }
}

proof fn lemma_interval_parents_preserved(c1: Context, c2: Context)
    requires
        c1.interval_parents_ok(),
        c2.interval_nodes() == c1.interval_nodes(),
        c2.section_nodes() == c1.section_nodes(),
    ensures
        c2.interval_parents_ok(),
{
    assert forall|c: u128| c2.interval_live(c) implies match c2.interval_nodes()[c].parent {
        Some(p) => c2.section_live(p) && c2.section_nodes()[p].byte_intervals.contains(c),
        None => true,
    } by {
        assert(c1.interval_live(c));
    }
}

proof fn lemma_code_block_parents_preserved(c1: Context, c2: Context)
    requires
        c1.code_block_parents_ok(),
        c2.code_block_nodes() == c1.code_block_nodes(),
        c2.interval_nodes() == c1.interval_nodes(),
    ensures
        c2.code_block_parents_ok(),
{
    assert forall|c: u128| c2.code_block_live(c) implies match c2.code_block_nodes()[c].parent {
        Some(p) => c2.interval_live(p) && c2.interval_nodes()[p].code_blocks.contains(c),
        None => true,
    } by {
        assert(c1.code_block_live(c));
    }
}

proof fn lemma_data_block_parents_preserved(c1: Context, c2: Context)
    requires
        c1.data_block_parents_ok(),
        c2.data_block_nodes() == c1.data_block_nodes(),
        c2.interval_nodes() == c1.interval_nodes(),
    ensures
        c2.data_block_parents_ok(),
{
    assert forall|c: u128| c2.data_block_live(c) implies match c2.data_block_nodes()[c].parent {
        Some(p) => c2.interval_live(p) && c2.interval_nodes()[p].data_blocks.contains(c),
        None => true,
    } by {
        assert(c1.data_block_live(c));
    }
}

proof fn lemma_nodes_preserved(c1: Context, c2: Context)
    requires
        c1.nodes_ok(),
        c2.section_nodes() == c1.section_nodes(),
        c2.interval_nodes() == c1.interval_nodes(),
    ensures
        c2.nodes_ok(),
{
    assert forall|u: u128| c2.section_live(u) implies c2.section_nodes()[u].inv() by {
        assert(c1.section_live(u));
    }
    assert forall|u: u128| c2.interval_live(u) implies c2.interval_nodes()[u].inv() by {
        assert(c1.interval_live(u));
    }
}

proof fn lemma_disjoint_preserved(c1: Context, c2: Context, u: u128)
    requires
        c1.kinds_disjoint(),
        c1.agrees_except(c2, u),
        c2.kind_count(u) <= 1,
    ensures
        c2.kinds_disjoint(),
{
    assert forall|v: u128| c2.kind_count(v) <= 1 by {
        if v != u {
            assert(c1.kind_count(v) <= 1);
            assert(c2.kind_count(v) == c1.kind_count(v));
        }
    }
}

/// Registering a fresh, childless root record preserves well-formedness.
proof fn lemma_wf_insert_ir(c1: Context, c2: Context, u: u128, nv: IrNodeV)
    requires
        c1.wf(),
        !c1.live(u),
        nv.modules.len() == 0,
        c2.ir_nodes() == c1.ir_nodes().insert(u, nv),
        c2.module_nodes() == c1.module_nodes(),
        c2.section_nodes() == c1.section_nodes(),
        c2.interval_nodes() == c1.interval_nodes(),
        c2.code_block_nodes() == c1.code_block_nodes(),
        c2.data_block_nodes() == c1.data_block_nodes(),
        c2.proxy_block_nodes() == c1.proxy_block_nodes(),
        c2.symbol_nodes() == c1.symbol_nodes(),
    ensures
        c2.wf(),
{
    assert(c2.kind_count(u) <= 1);
    lemma_disjoint_preserved(c1, c2, u);
    lemma_module_children_preserved(c1, c2);
    lemma_section_children_preserved(c1, c2);
    lemma_interval_children_preserved(c1, c2);
    lemma_section_parents_preserved(c1, c2);
    lemma_symbol_parents_preserved(c1, c2);
    lemma_proxy_block_parents_preserved(c1, c2);
    lemma_interval_parents_preserved(c1, c2);
    lemma_code_block_parents_preserved(c1, c2);
    lemma_data_block_parents_preserved(c1, c2);
    lemma_nodes_preserved(c1, c2);
    assert forall|p: u128| c2.ir_live(p) implies c2.ir_node_ok(p) by {
        if p == u {
            assert(c2.ir_nodes()[p] == nv);
        } else {
            assert(c1.ir_live(p));
            assert(c1.ir_node_ok(p));
            let ch = c2.ir_nodes()[p].modules;
            assert(ch == c1.ir_nodes()[p].modules);
            assert forall|i: int| 0 <= i < ch.len() implies c2.module_child_ok(ch[i], p) by {
                assert(c1.module_child_ok(ch[i], p));
            }
        }
    }
    assert forall|c: u128| c2.module_live(c) implies match c2.module_nodes()[c].parent {
        Some(p) => c2.ir_live(p) && c2.ir_nodes()[p].modules.contains(c),
        None => true,
    } by {
        assert(c1.module_live(c));
        if c1.module_nodes()[c].parent is Some {
            let p = c1.module_nodes()[c].parent->0;
            assert(c1.ir_live(p));
            assert(p != u);
        }
    }
}

/// Registering a fresh, detached, childless section preserves
/// well-formedness.
proof fn lemma_wf_insert_section(c1: Context, c2: Context, u: u128, nv: SectionNodeV)
    requires
        c1.wf(),
        !c1.live(u),
        nv.parent == None::<u128>,
        nv.byte_intervals.len() == 0,
        nv.inv(),
        c2.section_nodes() == c1.section_nodes().insert(u, nv),
        c2.ir_nodes() == c1.ir_nodes(),
        c2.module_nodes() == c1.module_nodes(),
        c2.interval_nodes() == c1.interval_nodes(),
        c2.code_block_nodes() == c1.code_block_nodes(),
        c2.data_block_nodes() == c1.data_block_nodes(),
        c2.proxy_block_nodes() == c1.proxy_block_nodes(),
        c2.symbol_nodes() == c1.symbol_nodes(),
    ensures
        c2.wf(),
{
    assert(c2.kind_count(u) <= 1);
    lemma_disjoint_preserved(c1, c2, u);
    lemma_ir_children_preserved(c1, c2);
    lemma_interval_children_preserved(c1, c2);
    lemma_module_parents_preserved(c1, c2);
    lemma_symbol_parents_preserved(c1, c2);
    lemma_proxy_block_parents_preserved(c1, c2);
    lemma_code_block_parents_preserved(c1, c2);
    lemma_data_block_parents_preserved(c1, c2);
    assert forall|p: u128| c2.module_live(p) implies c2.module_node_ok(p) by {
        assert(c1.module_live(p));
        assert(c1.module_node_ok(p));
        let n = c2.module_nodes()[p];
        assert forall|i: int| 0 <= i < n.sections.len() implies c2.section_child_ok(
            n.sections[i],
            p,
        ) by {
            assert(c1.section_child_ok(n.sections[i], p));
            assert(n.sections[i] != u);
        }
        assert forall|i: int| 0 <= i < n.symbols.len() implies c2.symbol_child_ok(
            n.symbols[i],
            p,
        ) by {
            assert(c1.symbol_child_ok(n.symbols[i], p));
        }
        assert forall|i: int| 0 <= i < n.proxy_blocks.len() implies c2.proxy_block_child_ok(
            n.proxy_blocks[i],
            p,
        ) by {
            assert(c1.proxy_block_child_ok(n.proxy_blocks[i], p));
        }
    }
    assert forall|p: u128| c2.section_live(p) implies c2.section_node_ok(p) by {
        if p == u {
            assert(c2.section_nodes()[p] == nv);
        } else {
            assert(c1.section_live(p));
            assert(c1.section_node_ok(p));
            let ch = c2.section_nodes()[p].byte_intervals;
            assert(ch == c1.section_nodes()[p].byte_intervals);
            assert forall|i: int| 0 <= i < ch.len() implies c2.interval_child_ok(ch[i], p) by {
                assert(c1.interval_child_ok(ch[i], p));
            }
        }
    }
    assert forall|c: u128| c2.section_live(c) implies match c2.section_nodes()[c].parent {
        Some(p) => c2.module_live(p) && c2.module_nodes()[p].sections.contains(c),
        None => true,
    } by {
        if c != u {
            assert(c1.section_live(c));
        }
    }
    assert forall|c: u128| c2.interval_live(c) implies match c2.interval_nodes()[c].parent {
        Some(p) => c2.section_live(p) && c2.section_nodes()[p].byte_intervals.contains(c),
        None => true,
    } by {
        assert(c1.interval_live(c));
        if c1.interval_nodes()[c].parent is Some {
            let p = c1.interval_nodes()[c].parent->0;
            assert(c1.section_live(p));
            assert(p != u);
        }
    }
    assert forall|v: u128| c2.section_live(v) implies c2.section_nodes()[v].inv() by {
        if v != u {
            assert(c1.section_live(v));
        }
    }
    assert forall|v: u128| c2.interval_live(v) implies c2.interval_nodes()[v].inv() by {
        assert(c1.interval_live(v));
    }
}

/// Registering a fresh, detached, childless byte interval preserves
/// well-formedness.
proof fn lemma_wf_insert_byte_interval(c1: Context, c2: Context, u: u128, nv: ByteIntervalNodeV)
    requires
        c1.wf(),
        !c1.live(u),
        nv.parent == None::<u128>,
        nv.code_blocks.len() == 0,
        nv.data_blocks.len() == 0,
        nv.inv(),
        c2.interval_nodes() == c1.interval_nodes().insert(u, nv),
        c2.ir_nodes() == c1.ir_nodes(),
        c2.module_nodes() == c1.module_nodes(),
        c2.section_nodes() == c1.section_nodes(),
        c2.code_block_nodes() == c1.code_block_nodes(),
        c2.data_block_nodes() == c1.data_block_nodes(),
        c2.proxy_block_nodes() == c1.proxy_block_nodes(),
        c2.symbol_nodes() == c1.symbol_nodes(),
    ensures
        c2.wf(),
{
    assert(c2.kind_count(u) <= 1);
    lemma_disjoint_preserved(c1, c2, u);
    lemma_ir_children_preserved(c1, c2);
    lemma_module_children_preserved(c1, c2);
    lemma_module_parents_preserved(c1, c2);
    lemma_section_parents_preserved(c1, c2);
    lemma_symbol_parents_preserved(c1, c2);
    lemma_proxy_block_parents_preserved(c1, c2);
    assert forall|p: u128| c2.section_live(p) implies c2.section_node_ok(p) by {
        assert(c1.section_live(p));
        assert(c1.section_node_ok(p));
        let ch = c2.section_nodes()[p].byte_intervals;
        assert forall|i: int| 0 <= i < ch.len() implies c2.interval_child_ok(ch[i], p) by {
            assert(c1.interval_child_ok(ch[i], p));
            assert(ch[i] != u);
        }
    }
    assert forall|p: u128| c2.interval_live(p) implies c2.interval_node_ok(p) by {
        if p == u {
            assert(c2.interval_nodes()[p] == nv);
        } else {
            assert(c1.interval_live(p));
            assert(c1.interval_node_ok(p));
            let n = c2.interval_nodes()[p];
            assert(n == c1.interval_nodes()[p]);
            assert forall|i: int| 0 <= i < n.code_blocks.len() implies c2.code_block_child_ok(
                n.code_blocks[i],
                p,
            ) by {
                assert(c1.code_block_child_ok(n.code_blocks[i], p));
            }
            assert forall|i: int| 0 <= i < n.data_blocks.len() implies c2.data_block_child_ok(
                n.data_blocks[i],
                p,
            ) by {
                assert(c1.data_block_child_ok(n.data_blocks[i], p));
            }
        }
    }
    assert forall|c: u128| c2.interval_live(c) implies match c2.interval_nodes()[c].parent {
        Some(p) => c2.section_live(p) && c2.section_nodes()[p].byte_intervals.contains(c),
        None => true,
    } by {
        if c != u {
            assert(c1.interval_live(c));
        }
    }
    assert forall|c: u128| c2.code_block_live(c) implies match c2.code_block_nodes()[c].parent {
        Some(p) => c2.interval_live(p) && c2.interval_nodes()[p].code_blocks.contains(c),
        None => true,
    } by {
        assert(c1.code_block_live(c));
        if c1.code_block_nodes()[c].parent is Some {
            let p = c1.code_block_nodes()[c].parent->0;
            assert(c1.interval_live(p));
            assert(p != u);
        }
    }
    assert forall|c: u128| c2.data_block_live(c) implies match c2.data_block_nodes()[c].parent {
        Some(p) => c2.interval_live(p) && c2.interval_nodes()[p].data_blocks.contains(c),
        None => true,
    } by {
        assert(c1.data_block_live(c));
        if c1.data_block_nodes()[c].parent is Some {
            let p = c1.data_block_nodes()[c].parent->0;
            assert(c1.interval_live(p));
            assert(p != u);
        }
    }
    assert forall|v: u128| c2.section_live(v) implies c2.section_nodes()[v].inv() by {
        assert(c1.section_live(v));
    }
    assert forall|v: u128| c2.interval_live(v) implies c2.interval_nodes()[v].inv() by {
        if v != u {
            assert(c1.interval_live(v));
        }
    }
}

/// Registering a fresh, detached code block preserves well-formedness.
proof fn lemma_wf_insert_code_block(c1: Context, c2: Context, u: u128, nv: CodeBlock)
    requires
        c1.wf(),
        !c1.live(u),
        nv.parent == None::<u128>,
        c2.code_block_nodes() == c1.code_block_nodes().insert(u, nv),
        c2.ir_nodes() == c1.ir_nodes(),
        c2.module_nodes() == c1.module_nodes(),
        c2.section_nodes() == c1.section_nodes(),
        c2.interval_nodes() == c1.interval_nodes(),
        c2.data_block_nodes() == c1.data_block_nodes(),
        c2.proxy_block_nodes() == c1.proxy_block_nodes(),
        c2.symbol_nodes() == c1.symbol_nodes(),
    ensures
        c2.wf(),
{
    assert(c2.kind_count(u) <= 1);
    lemma_disjoint_preserved(c1, c2, u);
    lemma_ir_children_preserved(c1, c2);
    lemma_module_children_preserved(c1, c2);
    lemma_section_children_preserved(c1, c2);
    lemma_module_parents_preserved(c1, c2);
    lemma_section_parents_preserved(c1, c2);
    lemma_symbol_parents_preserved(c1, c2);
    lemma_proxy_block_parents_preserved(c1, c2);
    lemma_interval_parents_preserved(c1, c2);
    lemma_data_block_parents_preserved(c1, c2);
    lemma_nodes_preserved(c1, c2);
    assert forall|p: u128| c2.interval_live(p) implies c2.interval_node_ok(p) by {
        assert(c1.interval_live(p));
        assert(c1.interval_node_ok(p));
        let n = c2.interval_nodes()[p];
        assert forall|i: int| 0 <= i < n.code_blocks.len() implies c2.code_block_child_ok(
            n.code_blocks[i],
            p,
        ) by {
            assert(c1.code_block_child_ok(n.code_blocks[i], p));
            assert(n.code_blocks[i] != u);
        }
        assert forall|i: int| 0 <= i < n.data_blocks.len() implies c2.data_block_child_ok(
            n.data_blocks[i],
            p,
        ) by {
            assert(c1.data_block_child_ok(n.data_blocks[i], p));
        }
    }
    assert forall|c: u128| c2.code_block_live(c) implies match c2.code_block_nodes()[c].parent {
        Some(p) => c2.interval_live(p) && c2.interval_nodes()[p].code_blocks.contains(c),
        None => true,
    } by {
        if c != u {
            assert(c1.code_block_live(c));
        }
    }
}

/// Registering a fresh, detached data block preserves well-formedness.
proof fn lemma_wf_insert_data_block(c1: Context, c2: Context, u: u128, nv: DataBlock)
    requires
        c1.wf(),
        !c1.live(u),
        nv.parent == None::<u128>,
        c2.data_block_nodes() == c1.data_block_nodes().insert(u, nv),
        c2.ir_nodes() == c1.ir_nodes(),
        c2.module_nodes() == c1.module_nodes(),
        c2.section_nodes() == c1.section_nodes(),
        c2.interval_nodes() == c1.interval_nodes(),
        c2.code_block_nodes() == c1.code_block_nodes(),
        c2.proxy_block_nodes() == c1.proxy_block_nodes(),
        c2.symbol_nodes() == c1.symbol_nodes(),
    ensures
        c2.wf(),
{
    assert(c2.kind_count(u) <= 1);
    lemma_disjoint_preserved(c1, c2, u);
    lemma_ir_children_preserved(c1, c2);
    lemma_module_children_preserved(c1, c2);
    lemma_section_children_preserved(c1, c2);
    lemma_module_parents_preserved(c1, c2);
    lemma_section_parents_preserved(c1, c2);
    lemma_symbol_parents_preserved(c1, c2);
    lemma_proxy_block_parents_preserved(c1, c2);
    lemma_interval_parents_preserved(c1, c2);
    lemma_code_block_parents_preserved(c1, c2);
    lemma_nodes_preserved(c1, c2);
    assert forall|p: u128| c2.interval_live(p) implies c2.interval_node_ok(p) by {
        assert(c1.interval_live(p));
        assert(c1.interval_node_ok(p));
        let n = c2.interval_nodes()[p];
        assert forall|i: int| 0 <= i < n.code_blocks.len() implies c2.code_block_child_ok(
            n.code_blocks[i],
            p,
        ) by {
            assert(c1.code_block_child_ok(n.code_blocks[i], p));
        }
        assert forall|i: int| 0 <= i < n.data_blocks.len() implies c2.data_block_child_ok(
            n.data_blocks[i],
            p,
        ) by {
            assert(c1.data_block_child_ok(n.data_blocks[i], p));
            assert(n.data_blocks[i] != u);
        }
    }
    assert forall|c: u128| c2.data_block_live(c) implies match c2.data_block_nodes()[c].parent {
        Some(p) => c2.interval_live(p) && c2.interval_nodes()[p].data_blocks.contains(c),
        None => true,
    } by {
        if c != u {
            assert(c1.data_block_live(c));
        }
    }
}

/// Registering a fresh, detached proxy block preserves well-formedness.
proof fn lemma_wf_insert_proxy_block(c1: Context, c2: Context, u: u128, nv: ProxyBlock)
    requires
        c1.wf(),
        !c1.live(u),
        nv.parent == None::<u128>,
        c2.proxy_block_nodes() == c1.proxy_block_nodes().insert(u, nv),
        c2.ir_nodes() == c1.ir_nodes(),
        c2.module_nodes() == c1.module_nodes(),
        c2.section_nodes() == c1.section_nodes(),
        c2.interval_nodes() == c1.interval_nodes(),
        c2.code_block_nodes() == c1.code_block_nodes(),
        c2.data_block_nodes() == c1.data_block_nodes(),
        c2.symbol_nodes() == c1.symbol_nodes(),
    ensures
        c2.wf(),
{
    assert(c2.kind_count(u) <= 1);
    lemma_disjoint_preserved(c1, c2, u);
    lemma_ir_children_preserved(c1, c2);
    lemma_section_children_preserved(c1, c2);
    lemma_interval_children_preserved(c1, c2);
    lemma_module_parents_preserved(c1, c2);
    lemma_section_parents_preserved(c1, c2);
    lemma_symbol_parents_preserved(c1, c2);
    lemma_interval_parents_preserved(c1, c2);
    lemma_code_block_parents_preserved(c1, c2);
    lemma_data_block_parents_preserved(c1, c2);
    lemma_nodes_preserved(c1, c2);
    assert forall|p: u128| c2.module_live(p) implies c2.module_node_ok(p) by {
        assert(c1.module_live(p));
        assert(c1.module_node_ok(p));
        let n = c2.module_nodes()[p];
        assert forall|i: int| 0 <= i < n.sections.len() implies c2.section_child_ok(
            n.sections[i],
            p,
        ) by {
            assert(c1.section_child_ok(n.sections[i], p));
        }
        assert forall|i: int| 0 <= i < n.symbols.len() implies c2.symbol_child_ok(
            n.symbols[i],
            p,
        ) by {
            assert(c1.symbol_child_ok(n.symbols[i], p));
        }
        assert forall|i: int| 0 <= i < n.proxy_blocks.len() implies c2.proxy_block_child_ok(
            n.proxy_blocks[i],
            p,
        ) by {
            assert(c1.proxy_block_child_ok(n.proxy_blocks[i], p));
            assert(n.proxy_blocks[i] != u);
        }
    }
    assert forall|c: u128| c2.proxy_block_live(c) implies match c2.proxy_block_nodes()[c].parent {
        Some(p) => c2.module_live(p) && c2.module_nodes()[p].proxy_blocks.contains(c),
        None => true,
    } by {
        if c != u {
            assert(c1.proxy_block_live(c));
        }
    }
}

/// Registering a fresh, detached symbol preserves well-formedness.
proof fn lemma_wf_insert_symbol(c1: Context, c2: Context, u: u128, nv: SymbolNodeV)
    requires
        c1.wf(),
        !c1.live(u),
        nv.parent == None::<u128>,
        c2.symbol_nodes() == c1.symbol_nodes().insert(u, nv),
        c2.ir_nodes() == c1.ir_nodes(),
        c2.module_nodes() == c1.module_nodes(),
        c2.section_nodes() == c1.section_nodes(),
        c2.interval_nodes() == c1.interval_nodes(),
        c2.code_block_nodes() == c1.code_block_nodes(),
        c2.data_block_nodes() == c1.data_block_nodes(),
        c2.proxy_block_nodes() == c1.proxy_block_nodes(),
    ensures
        c2.wf(),
{
    assert(c2.kind_count(u) <= 1);
    lemma_disjoint_preserved(c1, c2, u);
    lemma_ir_children_preserved(c1, c2);
    lemma_section_children_preserved(c1, c2);
    lemma_interval_children_preserved(c1, c2);
    lemma_module_parents_preserved(c1, c2);
    lemma_section_parents_preserved(c1, c2);
    lemma_proxy_block_parents_preserved(c1, c2);
    lemma_interval_parents_preserved(c1, c2);
    lemma_code_block_parents_preserved(c1, c2);
    lemma_data_block_parents_preserved(c1, c2);
    lemma_nodes_preserved(c1, c2);
    assert forall|p: u128| c2.module_live(p) implies c2.module_node_ok(p) by {
        assert(c1.module_live(p));
        assert(c1.module_node_ok(p));
        let n = c2.module_nodes()[p];
        assert forall|i: int| 0 <= i < n.sections.len() implies c2.section_child_ok(
            n.sections[i],
            p,
        ) by {
            assert(c1.section_child_ok(n.sections[i], p));
        }
        assert forall|i: int| 0 <= i < n.symbols.len() implies c2.symbol_child_ok(
            n.symbols[i],
            p,
        ) by {
            assert(c1.symbol_child_ok(n.symbols[i], p));
            assert(n.symbols[i] != u);
        }
        assert forall|i: int| 0 <= i < n.proxy_blocks.len() implies c2.proxy_block_child_ok(
            n.proxy_blocks[i],
            p,
        ) by {
            assert(c1.proxy_block_child_ok(n.proxy_blocks[i], p));
        }
    }
    assert forall|c: u128| c2.symbol_live(c) implies match c2.symbol_nodes()[c].parent {
        Some(p) => c2.module_live(p) && c2.module_nodes()[p].symbols.contains(c),
        None => true,
    } by {
        if c != u {
            assert(c1.symbol_live(c));
        }
    }
}

/// Registering a fresh, detached, childless module preserves
/// well-formedness.
proof fn lemma_wf_insert_module(c1: Context, c2: Context, u: u128, nv: ModuleNodeV)
    requires
        c1.wf(),
        !c1.live(u),
        nv.parent == None::<u128>,
        nv.sections.len() == 0,
        nv.symbols.len() == 0,
        nv.proxy_blocks.len() == 0,
        c2.module_nodes() == c1.module_nodes().insert(u, nv),
        c2.ir_nodes() == c1.ir_nodes(),
        c2.section_nodes() == c1.section_nodes(),
        c2.interval_nodes() == c1.interval_nodes(),
        c2.code_block_nodes() == c1.code_block_nodes(),
        c2.data_block_nodes() == c1.data_block_nodes(),
        c2.proxy_block_nodes() == c1.proxy_block_nodes(),
        c2.symbol_nodes() == c1.symbol_nodes(),
    ensures
        c2.wf(),
{
    assert(c2.kind_count(u) <= 1);
    lemma_disjoint_preserved(c1, c2, u);
    lemma_section_children_preserved(c1, c2);
    lemma_interval_children_preserved(c1, c2);
    lemma_interval_parents_preserved(c1, c2);
    lemma_code_block_parents_preserved(c1, c2);
    lemma_data_block_parents_preserved(c1, c2);
    lemma_nodes_preserved(c1, c2);
    // ir_children_ok: listed children are live, hence differ from `u`.
    assert forall|p: u128| c2.ir_live(p) implies c2.ir_node_ok(p) by {
        assert(c1.ir_live(p));
        assert(c1.ir_node_ok(p));
        let ch = c2.ir_nodes()[p].modules;
        assert forall|i: int| 0 <= i < ch.len() implies c2.module_child_ok(ch[i], p) by {
            assert(c1.module_child_ok(ch[i], p));
            assert(ch[i] != u);
        }
    }
    // module_children_ok: the new module has no children; old modules keep
    // theirs.
    assert forall|p: u128| c2.module_live(p) implies c2.module_node_ok(p) by {
        if p == u {
            assert(c2.module_nodes()[p] == nv);
        } else {
            assert(c1.module_live(p));
            assert(c1.module_node_ok(p));
            let n = c2.module_nodes()[p];
            assert(n == c1.module_nodes()[p]);
            assert forall|i: int| 0 <= i < n.sections.len() implies c2.section_child_ok(
                n.sections[i],
                p,
            ) by {
                assert(c1.section_child_ok(n.sections[i], p));
            }
            assert forall|i: int| 0 <= i < n.symbols.len() implies c2.symbol_child_ok(
                n.symbols[i],
                p,
            ) by {
                assert(c1.symbol_child_ok(n.symbols[i], p));
            }
            assert forall|i: int| 0 <= i < n.proxy_blocks.len() implies c2.proxy_block_child_ok(
                n.proxy_blocks[i],
                p,
            ) by {
                assert(c1.proxy_block_child_ok(n.proxy_blocks[i], p));
            }
        }
    }
    // module_parents_ok: the new module is detached; old modules' parents
    // still list them.
    assert forall|c: u128| c2.module_live(c) implies match c2.module_nodes()[c].parent {
        Some(p) => c2.ir_live(p) && c2.ir_nodes()[p].modules.contains(c),
        None => true,
    } by {
        if c != u {
            assert(c1.module_live(c));
        }
    }
    // section/symbol/proxy parents: their parent modules were live before,
    // hence differ from `u` and are unchanged.
    assert forall|c: u128| c2.section_live(c) implies match c2.section_nodes()[c].parent {
        Some(p) => c2.module_live(p) && c2.module_nodes()[p].sections.contains(c),
        None => true,
    } by {
        assert(c1.section_live(c));
        if c1.section_nodes()[c].parent is Some {
            let p = c1.section_nodes()[c].parent->0;
            assert(c1.module_live(p));
            assert(p != u);
        }
    }
    assert forall|c: u128| c2.symbol_live(c) implies match c2.symbol_nodes()[c].parent {
        Some(p) => c2.module_live(p) && c2.module_nodes()[p].symbols.contains(c),
        None => true,
    } by {
        assert(c1.symbol_live(c));
        if c1.symbol_nodes()[c].parent is Some {
            let p = c1.symbol_nodes()[c].parent->0;
            assert(c1.module_live(p));
            assert(p != u);
        }
    }
    assert forall|c: u128| c2.proxy_block_live(c) implies match c2.proxy_block_nodes()[c].parent {
        Some(p) => c2.module_live(p) && c2.module_nodes()[p].proxy_blocks.contains(c),
        None => true,
    } by {
        assert(c1.proxy_block_live(c));
        if c1.proxy_block_nodes()[c].parent is Some {
            let p = c1.proxy_block_nodes()[c].parent->0;
            assert(c1.module_live(p));
            assert(p != u);
        }
    }
}



// The ownership laws, as standalone statements over a well-formed registry.

/// An attached module's owner is live and lists it exactly once, and no
/// other owner lists it; the up-reference names that unique owner.
pub proof fn lemma_attached_module_owned_once(c: Context, m: u128, p: u128)
    requires
        c.wf(),
        c.module_live(m),
        c.module_nodes()[m].parent == Some(p),
    ensures
        c.ir_live(p),
        c.ir_nodes()[p].modules.contains(m),
        c.ir_nodes()[p].modules.no_duplicates(),
        forall|q: u128|
            #[trigger] c.ir_live(q) && q != p ==> !c.ir_nodes()[q].modules.contains(m),
{
    assert(c.ir_node_ok(p));
    assert forall|q: u128| #[trigger] c.ir_live(q) && q != p implies !c.ir_nodes()[q].modules.contains(
        m,
    ) by {
        if c.ir_nodes()[q].modules.contains(m) {
            let i = choose|i: int|
                0 <= i < c.ir_nodes()[q].modules.len() && c.ir_nodes()[q].modules[i] == m;
            assert(c.ir_node_ok(q));
            assert(c.module_child_ok(c.ir_nodes()[q].modules[i], q));
        }
    }
}

/// A detached module is listed by no owner: its up-reference is empty
/// exactly when nothing owns it.
pub proof fn lemma_detached_module_unowned(c: Context, m: u128)
    requires
        c.wf(),
        c.module_live(m),
        c.module_nodes()[m].parent is None,
    ensures
        forall|q: u128| #[trigger] c.ir_live(q) ==> !c.ir_nodes()[q].modules.contains(m),
{
    assert forall|q: u128| #[trigger] c.ir_live(q) implies !c.ir_nodes()[q].modules.contains(m) by {
        if c.ir_nodes()[q].modules.contains(m) {
            let i = choose|i: int|
                0 <= i < c.ir_nodes()[q].modules.len() && c.ir_nodes()[q].modules[i] == m;
            assert(c.ir_node_ok(q));
            assert(c.module_child_ok(c.ir_nodes()[q].modules[i], q));
        }
    }
}

/// An attached section's owner is live and lists it exactly once, and no
/// other owner lists it; the up-reference names that unique owner.
pub proof fn lemma_attached_section_owned_once(c: Context, m: u128, p: u128)
    requires
        c.wf(),
        c.section_live(m),
        c.section_nodes()[m].parent == Some(p),
    ensures
        c.module_live(p),
        c.module_nodes()[p].sections.contains(m),
        c.module_nodes()[p].sections.no_duplicates(),
        forall|q: u128|
            #[trigger] c.module_live(q) && q != p ==> !c.module_nodes()[q].sections.contains(m),
{
    assert(c.module_node_ok(p));
    assert forall|q: u128| #[trigger] c.module_live(q) && q != p implies !c.module_nodes()[q].sections.contains(
        m,
    ) by {
        if c.module_nodes()[q].sections.contains(m) {
            let i = choose|i: int|
                0 <= i < c.module_nodes()[q].sections.len() && c.module_nodes()[q].sections[i] == m;
            assert(c.module_node_ok(q));
            assert(c.section_child_ok(c.module_nodes()[q].sections[i], q));
        }
    }
}

/// A detached section is listed by no owner: its up-reference is empty
/// exactly when nothing owns it.
pub proof fn lemma_detached_section_unowned(c: Context, m: u128)
    requires
        c.wf(),
        c.section_live(m),
        c.section_nodes()[m].parent is None,
    ensures
        forall|q: u128| #[trigger] c.module_live(q) ==> !c.module_nodes()[q].sections.contains(m),
{
    assert forall|q: u128| #[trigger] c.module_live(q) implies !c.module_nodes()[q].sections.contains(m) by {
        if c.module_nodes()[q].sections.contains(m) {
            let i = choose|i: int|
                0 <= i < c.module_nodes()[q].sections.len() && c.module_nodes()[q].sections[i] == m;
            assert(c.module_node_ok(q));
            assert(c.section_child_ok(c.module_nodes()[q].sections[i], q));
        }
    }
}

/// An attached symbol's owner is live and lists it exactly once, and no
/// other owner lists it; the up-reference names that unique owner.
pub proof fn lemma_attached_symbol_owned_once(c: Context, m: u128, p: u128)
    requires
        c.wf(),
        c.symbol_live(m),
        c.symbol_nodes()[m].parent == Some(p),
    ensures
        c.module_live(p),
        c.module_nodes()[p].symbols.contains(m),
        c.module_nodes()[p].symbols.no_duplicates(),
        forall|q: u128|
            #[trigger] c.module_live(q) && q != p ==> !c.module_nodes()[q].symbols.contains(m),
{
    assert(c.module_node_ok(p));
    assert forall|q: u128| #[trigger] c.module_live(q) && q != p implies !c.module_nodes()[q].symbols.contains(
        m,
    ) by {
        if c.module_nodes()[q].symbols.contains(m) {
            let i = choose|i: int|
                0 <= i < c.module_nodes()[q].symbols.len() && c.module_nodes()[q].symbols[i] == m;
            assert(c.module_node_ok(q));
            assert(c.symbol_child_ok(c.module_nodes()[q].symbols[i], q));
        }
    }
}

/// A detached symbol is listed by no owner: its up-reference is empty
/// exactly when nothing owns it.
pub proof fn lemma_detached_symbol_unowned(c: Context, m: u128)
    requires
        c.wf(),
        c.symbol_live(m),
        c.symbol_nodes()[m].parent is None,
    ensures
        forall|q: u128| #[trigger] c.module_live(q) ==> !c.module_nodes()[q].symbols.contains(m),
{
    assert forall|q: u128| #[trigger] c.module_live(q) implies !c.module_nodes()[q].symbols.contains(m) by {
        if c.module_nodes()[q].symbols.contains(m) {
            let i = choose|i: int|
                0 <= i < c.module_nodes()[q].symbols.len() && c.module_nodes()[q].symbols[i] == m;
            assert(c.module_node_ok(q));
            assert(c.symbol_child_ok(c.module_nodes()[q].symbols[i], q));
        }
    }
}

/// An attached proxy block's owner is live and lists it exactly once, and no
/// other owner lists it; the up-reference names that unique owner.
pub proof fn lemma_attached_proxy_block_owned_once(c: Context, m: u128, p: u128)
    requires
        c.wf(),
        c.proxy_block_live(m),
        c.proxy_block_nodes()[m].parent == Some(p),
    ensures
        c.module_live(p),
        c.module_nodes()[p].proxy_blocks.contains(m),
        c.module_nodes()[p].proxy_blocks.no_duplicates(),
        forall|q: u128|
            #[trigger] c.module_live(q) && q != p ==> !c.module_nodes()[q].proxy_blocks.contains(m),
{
    assert(c.module_node_ok(p));
    assert forall|q: u128| #[trigger] c.module_live(q) && q != p implies !c.module_nodes()[q].proxy_blocks.contains(
        m,
    ) by {
        if c.module_nodes()[q].proxy_blocks.contains(m) {
            let i = choose|i: int|
                0 <= i < c.module_nodes()[q].proxy_blocks.len() && c.module_nodes()[q].proxy_blocks[i] == m;
            assert(c.module_node_ok(q));
            assert(c.proxy_block_child_ok(c.module_nodes()[q].proxy_blocks[i], q));
        }
    }
}

/// A detached proxy block is listed by no owner: its up-reference is empty
/// exactly when nothing owns it.
pub proof fn lemma_detached_proxy_block_unowned(c: Context, m: u128)
    requires
        c.wf(),
        c.proxy_block_live(m),
        c.proxy_block_nodes()[m].parent is None,
    ensures
        forall|q: u128| #[trigger] c.module_live(q) ==> !c.module_nodes()[q].proxy_blocks.contains(m),
{
    assert forall|q: u128| #[trigger] c.module_live(q) implies !c.module_nodes()[q].proxy_blocks.contains(m) by {
        if c.module_nodes()[q].proxy_blocks.contains(m) {
            let i = choose|i: int|
                0 <= i < c.module_nodes()[q].proxy_blocks.len() && c.module_nodes()[q].proxy_blocks[i] == m;
            assert(c.module_node_ok(q));
            assert(c.proxy_block_child_ok(c.module_nodes()[q].proxy_blocks[i], q));
        }
    }
}

/// An attached byte interval's owner is live and lists it exactly once, and no
/// other owner lists it; the up-reference names that unique owner.
pub proof fn lemma_attached_byte_interval_owned_once(c: Context, m: u128, p: u128)
    requires
        c.wf(),
        c.interval_live(m),
        c.interval_nodes()[m].parent == Some(p),
    ensures
        c.section_live(p),
        c.section_nodes()[p].byte_intervals.contains(m),
        c.section_nodes()[p].byte_intervals.no_duplicates(),
        forall|q: u128|
            #[trigger] c.section_live(q) && q != p ==> !c.section_nodes()[q].byte_intervals.contains(m),
{
    assert(c.section_node_ok(p));
    assert forall|q: u128| #[trigger] c.section_live(q) && q != p implies !c.section_nodes()[q].byte_intervals.contains(
        m,
    ) by {
        if c.section_nodes()[q].byte_intervals.contains(m) {
            let i = choose|i: int|
                0 <= i < c.section_nodes()[q].byte_intervals.len() && c.section_nodes()[q].byte_intervals[i] == m;
            assert(c.section_node_ok(q));
            assert(c.interval_child_ok(c.section_nodes()[q].byte_intervals[i], q));
        }
    }
}

/// A detached byte interval is listed by no owner: its up-reference is empty
/// exactly when nothing owns it.
pub proof fn lemma_detached_byte_interval_unowned(c: Context, m: u128)
    requires
        c.wf(),
        c.interval_live(m),
        c.interval_nodes()[m].parent is None,
    ensures
        forall|q: u128| #[trigger] c.section_live(q) ==> !c.section_nodes()[q].byte_intervals.contains(m),
{
    assert forall|q: u128| #[trigger] c.section_live(q) implies !c.section_nodes()[q].byte_intervals.contains(m) by {
        if c.section_nodes()[q].byte_intervals.contains(m) {
            let i = choose|i: int|
                0 <= i < c.section_nodes()[q].byte_intervals.len() && c.section_nodes()[q].byte_intervals[i] == m;
            assert(c.section_node_ok(q));
            assert(c.interval_child_ok(c.section_nodes()[q].byte_intervals[i], q));
        }
    }
}

/// An attached code block's owner is live and lists it exactly once, and no
/// other owner lists it; the up-reference names that unique owner.
pub proof fn lemma_attached_code_block_owned_once(c: Context, m: u128, p: u128)
    requires
        c.wf(),
        c.code_block_live(m),
        c.code_block_nodes()[m].parent == Some(p),
    ensures
        c.interval_live(p),
        c.interval_nodes()[p].code_blocks.contains(m),
        c.interval_nodes()[p].code_blocks.no_duplicates(),
        forall|q: u128|
            #[trigger] c.interval_live(q) && q != p ==> !c.interval_nodes()[q].code_blocks.contains(m),
{
    assert(c.interval_node_ok(p));
    assert forall|q: u128| #[trigger] c.interval_live(q) && q != p implies !c.interval_nodes()[q].code_blocks.contains(
        m,
    ) by {
        if c.interval_nodes()[q].code_blocks.contains(m) {
            let i = choose|i: int|
                0 <= i < c.interval_nodes()[q].code_blocks.len() && c.interval_nodes()[q].code_blocks[i] == m;
            assert(c.interval_node_ok(q));
            assert(c.code_block_child_ok(c.interval_nodes()[q].code_blocks[i], q));
        }
    }
}

/// A detached code block is listed by no owner: its up-reference is empty
/// exactly when nothing owns it.
pub proof fn lemma_detached_code_block_unowned(c: Context, m: u128)
    requires
        c.wf(),
        c.code_block_live(m),
        c.code_block_nodes()[m].parent is None,
    ensures
        forall|q: u128| #[trigger] c.interval_live(q) ==> !c.interval_nodes()[q].code_blocks.contains(m),
{
    assert forall|q: u128| #[trigger] c.interval_live(q) implies !c.interval_nodes()[q].code_blocks.contains(m) by {
        if c.interval_nodes()[q].code_blocks.contains(m) {
            let i = choose|i: int|
                0 <= i < c.interval_nodes()[q].code_blocks.len() && c.interval_nodes()[q].code_blocks[i] == m;
            assert(c.interval_node_ok(q));
            assert(c.code_block_child_ok(c.interval_nodes()[q].code_blocks[i], q));
        }
    }
}

/// An attached data block's owner is live and lists it exactly once, and no
/// other owner lists it; the up-reference names that unique owner.
pub proof fn lemma_attached_data_block_owned_once(c: Context, m: u128, p: u128)
    requires
        c.wf(),
        c.data_block_live(m),
        c.data_block_nodes()[m].parent == Some(p),
    ensures
        c.interval_live(p),
        c.interval_nodes()[p].data_blocks.contains(m),
        c.interval_nodes()[p].data_blocks.no_duplicates(),
        forall|q: u128|
            #[trigger] c.interval_live(q) && q != p ==> !c.interval_nodes()[q].data_blocks.contains(m),
{
    assert(c.interval_node_ok(p));
    assert forall|q: u128| #[trigger] c.interval_live(q) && q != p implies !c.interval_nodes()[q].data_blocks.contains(
        m,
    ) by {
        if c.interval_nodes()[q].data_blocks.contains(m) {
            let i = choose|i: int|
                0 <= i < c.interval_nodes()[q].data_blocks.len() && c.interval_nodes()[q].data_blocks[i] == m;
            assert(c.interval_node_ok(q));
            assert(c.data_block_child_ok(c.interval_nodes()[q].data_blocks[i], q));
        }
    }
}

/// A detached data block is listed by no owner: its up-reference is empty
/// exactly when nothing owns it.
pub proof fn lemma_detached_data_block_unowned(c: Context, m: u128)
    requires
        c.wf(),
        c.data_block_live(m),
        c.data_block_nodes()[m].parent is None,
    ensures
        forall|q: u128| #[trigger] c.interval_live(q) ==> !c.interval_nodes()[q].data_blocks.contains(m),
{
    assert forall|q: u128| #[trigger] c.interval_live(q) implies !c.interval_nodes()[q].data_blocks.contains(m) by {
        if c.interval_nodes()[q].data_blocks.contains(m) {
            let i = choose|i: int|
                0 <= i < c.interval_nodes()[q].data_blocks.len() && c.interval_nodes()[q].data_blocks[i] == m;
            assert(c.interval_node_ok(q));
            assert(c.data_block_child_ok(c.interval_nodes()[q].data_blocks[i], q));
        }
    }
}

/// Initialized contents never exceed an interval's declared size.
pub proof fn lemma_initialized_within_size(c: Context, b: u128)
    requires
        c.wf(),
        c.interval_live(b),
    ensures
        c.interval_nodes()[b].bytes.len() <= c.interval_nodes()[b].size,
{
    assert(c.interval_nodes()[b].inv());
}
} // verus!
