//! A named region of a module's address space, holding byte intervals.

use vstd::prelude::*;

use crate::addr::Addr;
use crate::byte_interval::{ByteIntervalNodeV, ByteIntervalRef};
use crate::context::{
    lemma_wf_attach_interval, lemma_wf_detach_interval, lemma_wf_replace_section, Context,
};
use crate::ident::Uuid;
use crate::tags::SectionFlag;

verus! {

broadcast use vstd::std_specs::hash::group_hash_axioms;

/// A section node record.  `byte_intervals` holds the identifiers of the
/// owned intervals in insertion order; `flags` is a duplicate-free list in
/// insertion order.
pub struct Section {
    pub name: String,
    pub flags: Vec<SectionFlag>,
    pub byte_intervals: Vec<u128>,
    pub parent: Option<u128>,
}

/// The mathematical value of one section record.
pub struct SectionNodeV {
    pub name: Seq<char>,
    pub flags: Seq<SectionFlag>,
    pub byte_intervals: Seq<u128>,
    pub parent: Option<u128>,
}

impl View for Section {
    type V = SectionNodeV;

    open spec fn view(&self) -> SectionNodeV {
        SectionNodeV {
            name: self.name@,
            flags: self.flags@,
            byte_intervals: self.byte_intervals@,
            parent: self.parent,
        }
    }
}

impl SectionNodeV {
    /// The flag set carries each flag at most once.
    pub open spec fn inv(self) -> bool {
        self.flags.no_duplicates()
    }
}

/// A handle on a section record.  Two handles are equal exactly when they
/// name the same node.
#[derive(Clone, Copy, Debug, PartialEq, Eq, Structural)]
pub struct SectionRef {
    pub uuid: Uuid,
}

/// The first address one past the interval, wrapping modulo 2^64.
pub open spec fn spec_interval_end(iv: ByteIntervalNodeV) -> u64
    recommends
        iv.address is Some,
{
    (((iv.address->0).0 + iv.size) % 0x1_0000_0000_0000_0000) as u64
}

/// Every listed interval carries an absolute address.
pub open spec fn spec_all_addressed(ctx: Context, ivs: Seq<u128>) -> bool {
    forall|i: int| 0 <= i < ivs.len() ==> ctx.interval_nodes()[#[trigger] ivs[i]].address is Some
}

/// The least address among the listed intervals.
pub open spec fn spec_min_addr(ctx: Context, ivs: Seq<u128>) -> u64
    decreases ivs.len(),
{
    if ivs.len() == 0 {
        0
    } else {
        let a = (ctx.interval_nodes()[ivs.last()].address->0).0;
        if ivs.len() == 1 {
            a
        } else {
            let rest = spec_min_addr(ctx, ivs.drop_last());
            if a < rest {
                a
            } else {
                rest
            }
        }
    }
}

/// The greatest interval end among the listed intervals.
pub open spec fn spec_max_end(ctx: Context, ivs: Seq<u128>) -> u64
    decreases ivs.len(),
{
    if ivs.len() == 0 {
        0
    } else {
        let e = spec_interval_end(ctx.interval_nodes()[ivs.last()]);
        if ivs.len() == 1 {
            e
        } else {
            let rest = spec_max_end(ctx, ivs.drop_last());
            if e > rest {
                e
            } else {
                rest
            }
        }
    }
}

/// The derived address of a run of intervals: the least interval address,
/// defined only when the run is non-empty and every interval is addressed.
pub open spec fn spec_span_address(ctx: Context, ivs: Seq<u128>) -> Option<Addr> {
    if ivs.len() > 0 && spec_all_addressed(ctx, ivs) {
        Some(Addr(spec_min_addr(ctx, ivs)))
    } else {
        None
    }
}

/// The derived size of a run of intervals: greatest end minus least
/// address (wrapping), defined only when the run is non-empty and every
/// interval is addressed.
pub open spec fn spec_span_size(ctx: Context, ivs: Seq<u128>) -> Option<u64> {
    if ivs.len() > 0 && spec_all_addressed(ctx, ivs) {
        Some(sub_wrap(spec_max_end(ctx, ivs), spec_min_addr(ctx, ivs)))
    } else {
        None
    }
}

/// Wrapping subtraction on 64-bit values.
pub open spec fn sub_wrap(a: u64, b: u64) -> u64 {
    if b <= a {
        (a - b) as u64
    } else {
        (a - b + 0x1_0000_0000_0000_0000) as u64
    }
}

/// Walk a run of live intervals and compute its least address and greatest
/// end, or `None` as [`spec_span_address`] and [`spec_span_size`] demand.
pub(crate) fn span_of(context: &Context, ivs: &Vec<u128>) -> (r: Option<(u64, u64)>)
    requires
        forall|i: int| 0 <= i < ivs@.len() ==> context.interval_live(#[trigger] ivs@[i]),
    ensures
        r == match spec_span_address(*context, ivs@) {
            Some(a) => Some((a.0, spec_max_end(*context, ivs@))),
            None => None::<(u64, u64)>,
        },
{
    let n = ivs.len();
    if n == 0 {
        return None;
    }
    let mut mina: u64 = 0;
    let mut maxe: u64 = 0;
    let mut k: usize = 0;
    while k < n
        invariant
            k <= n,
            n == ivs@.len(),
            forall|i: int| 0 <= i < ivs@.len() ==> context.interval_live(#[trigger] ivs@[i]),
            spec_all_addressed(*context, ivs@.take(k as int)),
            k > 0 ==> mina == spec_min_addr(*context, ivs@.take(k as int)),
            k > 0 ==> maxe == spec_max_end(*context, ivs@.take(k as int)),
        decreases n - k,
    {
        let node = context.byte_intervals.get(&ivs[k]).unwrap();
        match node.address {
            None => {
                proof {
                    assert(ivs@[k as int] == ivs@.take(k as int + 1)[k as int]);
                    assert(!spec_all_addressed(*context, ivs@));
                }
                return None;
            },
            Some(a) => {
                let e = a.0.wrapping_add(node.size);
                proof {
                    assert(ivs@.take(k as int + 1).drop_last() =~= ivs@.take(k as int));
                    assert(ivs@.take(k as int + 1).last() == ivs@[k as int]);
                }
                if k == 0 {
                    mina = a.0;
                    maxe = e;
                } else {
                    if a.0 < mina {
                        mina = a.0;
                    }
                    if e > maxe {
                        maxe = e;
                    }
                }
                proof {
                    assert forall|i: int| 0 <= i < k as int + 1 implies context.interval_nodes()[
                        #[trigger] ivs@.take(k as int + 1)[i]
                    ].address is Some by {
                        if i < k as int {
                            assert(ivs@.take(k as int)[i] == ivs@.take(k as int + 1)[i]);
                        }
                    }
                }
            },
        }
        k = k + 1;
    }
    proof {
        assert(ivs@.take(n as int) =~= ivs@);
    }
    Some((mina, maxe))
}

impl Section {
    /// Create a fresh, detached section with the given name, no flags and
    /// no intervals, register it, and hand back its handle.
    pub fn new(context: &mut Context, name: &str) -> (r: SectionRef)
        requires
            old(context).wf(),
        ensures
            final(context).wf(),
            !old(context).live(r.uuid.0),
            final(context).section_nodes() == old(context).section_nodes().insert(
                r.uuid.0,
                SectionNodeV {
                    name: name@,
                    flags: Seq::empty(),
                    byte_intervals: Seq::empty(),
                    parent: None,
                },
            ),
            final(context).ir_nodes() == old(context).ir_nodes(),
            final(context).module_nodes() == old(context).module_nodes(),
            final(context).interval_nodes() == old(context).interval_nodes(),
            final(context).code_block_nodes() == old(context).code_block_nodes(),
            final(context).data_block_nodes() == old(context).data_block_nodes(),
            final(context).proxy_block_nodes() == old(context).proxy_block_nodes(),
            final(context).symbol_nodes() == old(context).symbol_nodes(),
    {
        let u = context.fresh_uuid();
        let node = Section {
            name: name.to_owned(),
            flags: Vec::new(),
            byte_intervals: Vec::new(),
            parent: None,
        };
        proof {
            assert(node@.flags =~= Seq::<SectionFlag>::empty());
            assert(node@.byte_intervals =~= Seq::<u128>::empty());
        }
        context.insert_section(u, node);
        SectionRef { uuid: Uuid(u) }
    }
}

impl SectionRef {
    /// True when this handle names a live section in `ctx`.
    pub open spec fn live(self, ctx: Context) -> bool {
        ctx.section_live(self.uuid.0)
    }

    /// The node value this handle names in `ctx`.
    pub open spec fn node(self, ctx: Context) -> SectionNodeV {
        ctx.section_nodes()[self.uuid.0]
    }

    /// The identifier of the named node.
    pub fn uuid(&self) -> (r: Uuid)
        ensures
            r == self.uuid,
    {
        self.uuid
    }

    /// The section name.
    pub fn name(&self, context: &Context) -> (r: String)
        requires
            self.live(*context),
        ensures
            r@ == self.node(*context).name,
    {
        context.sections.get(&self.uuid.0).unwrap().name.clone()
    }

    /// Set the section name.
    pub fn set_name(&self, context: &mut Context, name: &str)
        requires
            old(context).wf(),
            self.live(*old(context)),
        ensures
            final(context).wf(),
            final(context).section_nodes() == old(context).section_nodes().insert(
                self.uuid.0,
                SectionNodeV { name: name@, ..self.node(*old(context)) },
            ),
            final(context).ir_nodes() == old(context).ir_nodes(),
            final(context).module_nodes() == old(context).module_nodes(),
            final(context).interval_nodes() == old(context).interval_nodes(),
            final(context).code_block_nodes() == old(context).code_block_nodes(),
            final(context).data_block_nodes() == old(context).data_block_nodes(),
            final(context).proxy_block_nodes() == old(context).proxy_block_nodes(),
            final(context).symbol_nodes() == old(context).symbol_nodes(),
    {
        let u = self.uuid.0;
        let mut node = context.sections.remove(&u).unwrap();
        node.name = name.to_owned();
        context.sections.insert(u, node);
        proof {
            let c1 = *old(context);
            let c2 = *context;
            assert(c2.section_nodes() =~= c1.section_nodes().insert(u, node@));
            assert(c1.section_nodes()[u].inv());
            lemma_wf_replace_section(c1, c2, u, node@);
        }
    }

    /// The flags currently set, in insertion order, each at most once.
    pub fn flags(&self, context: &Context) -> (r: Vec<SectionFlag>)
        requires
            self.live(*context),
        ensures
            r@ == self.node(*context).flags,
    {
        let node = context.sections.get(&self.uuid.0).unwrap();
        let n = node.flags.len();
        let mut out: Vec<SectionFlag> = Vec::new();
        let mut k: usize = 0;
        while k < n
            invariant
                k <= n,
                n == node.flags@.len(),
                node.flags@ == self.node(*context).flags,
                out@ == self.node(*context).flags.take(k as int),
            decreases n - k,
        {
            out.push(node.flags[k]);
            proof {
                assert(out@ =~= self.node(*context).flags.take(k as int + 1));
            }
            k = k + 1;
        }
        proof {
            assert(self.node(*context).flags.take(n as int) =~= self.node(*context).flags);
        }
        out
    }

    /// True when the given flag is set.
    pub fn is_flag_set(&self, context: &Context, flag: SectionFlag) -> (r: bool)
        requires
            self.live(*context),
        ensures
            r == self.node(*context).flags.contains(flag),
    {
        let node = context.sections.get(&self.uuid.0).unwrap();
        let n = node.flags.len();
        let mut k: usize = 0;
        while k < n
            invariant
                k <= n,
                n == node.flags@.len(),
                node.flags@ == self.node(*context).flags,
                forall|j: int| 0 <= j < k ==> self.node(*context).flags[j] != flag,
            decreases n - k,
        {
            if node.flags[k] == flag {
                proof {
                    assert(self.node(*context).flags[k as int] == flag);
                }
                return true;
            }
            k = k + 1;
        }
        proof {
            if self.node(*context).flags.contains(flag) {
                let j = choose|j: int|
                    0 <= j < self.node(*context).flags.len() && self.node(*context).flags[j]
                        == flag;
                assert(self.node(*context).flags[j] != flag);
            }
        }
        false
    }

    /// Set a flag.  When the flag is already set, nothing changes;
    /// otherwise it is appended to the flag list.
    pub fn add_flag(&self, context: &mut Context, flag: SectionFlag)
        requires
            old(context).wf(),
            self.live(*old(context)),
        ensures
            final(context).wf(),
            final(context).section_nodes() == old(context).section_nodes().insert(
                self.uuid.0,
                SectionNodeV {
                    flags: if self.node(*old(context)).flags.contains(flag) {
                        self.node(*old(context)).flags
                    } else {
                        self.node(*old(context)).flags.push(flag)
                    },
                    ..self.node(*old(context))
                },
            ),
            final(context).ir_nodes() == old(context).ir_nodes(),
            final(context).module_nodes() == old(context).module_nodes(),
            final(context).interval_nodes() == old(context).interval_nodes(),
            final(context).code_block_nodes() == old(context).code_block_nodes(),
            final(context).data_block_nodes() == old(context).data_block_nodes(),
            final(context).proxy_block_nodes() == old(context).proxy_block_nodes(),
            final(context).symbol_nodes() == old(context).symbol_nodes(),
    {
        let u = self.uuid.0;
        if self.is_flag_set(context, flag) {
            proof {
                let c1 = *old(context);
                assert(c1.section_nodes() =~= c1.section_nodes().insert(u, c1.section_nodes()[u]));
            }
            return;
        }
        let ghost old_flags = self.node(*context).flags;
        let mut node = context.sections.remove(&u).unwrap();
        node.flags.push(flag);
        context.sections.insert(u, node);
        proof {
            let c1 = *old(context);
            let c2 = *context;
            assert(c2.section_nodes() =~= c1.section_nodes().insert(u, node@));
            assert(c1.section_nodes()[u].inv());
            assert forall|a: int, b: int| 0 <= a < b < node@.flags.len() implies node@.flags[a]
                != node@.flags[b] by {
                if b == node@.flags.len() - 1 {
                    assert(node@.flags[a] == old_flags[a]);
                    assert(old_flags.contains(old_flags[a]));
                }
            }
            assert(node@.inv());
            lemma_wf_replace_section(c1, c2, u, node@);
        }
    }

    /// Clear a flag.  When the flag is not set, nothing changes.
    pub fn remove_flag(&self, context: &mut Context, flag: SectionFlag)
        requires
            old(context).wf(),
            self.live(*old(context)),
        ensures
            final(context).wf(),
            final(context).section_nodes() == old(context).section_nodes().insert(
                self.uuid.0,
                SectionNodeV {
                    flags: self.node(*old(context)).flags.remove_value(flag),
                    ..self.node(*old(context))
                },
            ),
            final(context).ir_nodes() == old(context).ir_nodes(),
            final(context).module_nodes() == old(context).module_nodes(),
            final(context).interval_nodes() == old(context).interval_nodes(),
            final(context).code_block_nodes() == old(context).code_block_nodes(),
            final(context).data_block_nodes() == old(context).data_block_nodes(),
            final(context).proxy_block_nodes() == old(context).proxy_block_nodes(),
            final(context).symbol_nodes() == old(context).symbol_nodes(),
    {
        let u = self.uuid.0;
        let ghost list = self.node(*context).flags;
        let node_ro = context.sections.get(&u).unwrap();
        let n = node_ro.flags.len();
        let mut k: usize = 0;
        let mut pos: Option<usize> = None;
        while k < n
            invariant
                n == list.len(),
                k <= n,
                context.sections@.contains_key(u),
                node_ro.flags@ == list,
                match pos {
                    Some(p) => p < k && list[p as int] == flag,
                    None => forall|j: int| 0 <= j < k ==> list[j] != flag,
                },
            decreases n - k,
        {
            if pos.is_none() && node_ro.flags[k] == flag {
                pos = Some(k);
            }
            k = k + 1;
        }
        match pos {
            None => {
                proof {
                    let c1 = *old(context);
                    if list.contains(flag) {
                        let j = choose|j: int| 0 <= j < list.len() && list[j] == flag;
                        assert(list[j] != flag);
                    }
                    list.index_of_first_ensures(flag);
                    assert(list.remove_value(flag) == list);
                    assert(c1.section_nodes() =~= c1.section_nodes().insert(
                        u,
                        SectionNodeV { flags: list, ..c1.section_nodes()[u] },
                    ));
                }
            },
            Some(p) => {
                let mut node = context.sections.remove(&u).unwrap();
                node.flags.remove(p);
                context.sections.insert(u, node);
                proof {
                    let c1 = *old(context);
                    let c2 = *context;
                    assert(c1.section_nodes()[u].inv());
                    let fn2 = list.remove(p as int);
                    assert forall|a: int, b: int| 0 <= a < b < fn2.len() implies fn2[a]
                        != fn2[b] by {
                        let a0: int = if a < p as int { a } else { a + 1 };
                        let b0: int = if b < p as int { b } else { b + 1 };
                        assert(fn2[a] == list[a0]);
                        assert(fn2[b] == list[b0]);
                    }
                    assert(node@.inv());
                    assert(c2.section_nodes() =~= c1.section_nodes().insert(u, node@));
                    lemma_wf_replace_section(c1, c2, u, node@);
                    assert(list.contains(flag));
                    list.index_of_first_ensures(flag);
                    assert(list.no_duplicates());
                    assert(list.index_of_first(flag) == Some(p as int));
                    assert(list.remove_value(flag) == list.remove(p as int));
                }
            },
        }
    }

    /// The derived address: the least interval address, defined only when
    /// the section has intervals and every one is addressed.
    pub fn address(&self, context: &Context) -> (r: Option<Addr>)
        requires
            context.wf(),
            self.live(*context),
        ensures
            r == spec_span_address(*context, self.node(*context).byte_intervals),
    {
        let node = context.sections.get(&self.uuid.0).unwrap();
        proof {
            let c = *context;
            assert(c.section_node_ok(self.uuid.0));
            assert forall|i: int|
                0 <= i < node.byte_intervals@.len() implies c.interval_live(
                #[trigger] node.byte_intervals@[i],
            ) by {
                assert(c.interval_child_ok(node.byte_intervals@[i], self.uuid.0));
            }
        }
        match span_of(context, &node.byte_intervals) {
            Some((mina, _)) => Some(Addr(mina)),
            None => None,
        }
    }

    /// The derived size: greatest interval end minus least interval
    /// address (wrapping), defined only when the section has intervals and
    /// every one is addressed.
    pub fn size(&self, context: &Context) -> (r: Option<u64>)
        requires
            context.wf(),
            self.live(*context),
        ensures
            r == spec_span_size(*context, self.node(*context).byte_intervals),
    {
        let node = context.sections.get(&self.uuid.0).unwrap();
        proof {
            let c = *context;
            assert(c.section_node_ok(self.uuid.0));
            assert forall|i: int|
                0 <= i < node.byte_intervals@.len() implies c.interval_live(
                #[trigger] node.byte_intervals@[i],
            ) by {
                assert(c.interval_child_ok(node.byte_intervals@[i], self.uuid.0));
            }
        }
        match span_of(context, &node.byte_intervals) {
            Some((mina, maxe)) => Some(maxe.wrapping_sub(mina)),
            None => None,
        }
    }

    /// Append a detached byte interval to this section and point its
    /// up-reference here.  Fails with [`crate::Error::DetachedNode`] when
    /// the interval is already attached.
    pub fn add_byte_interval(&self, context: &mut Context, byte_interval: &ByteIntervalRef) -> (r:
        Result<(), crate::error::Error>)
        requires
            old(context).wf(),
            self.live(*old(context)),
            byte_interval.live(*old(context)),
        ensures
            final(context).wf(),
            match r {
                Ok(()) => {
                    &&& old(context).interval_nodes()[byte_interval.uuid.0].parent
                        == None::<u128>
                    &&& final(context).section_nodes() == old(context).section_nodes().insert(
                        self.uuid.0,
                        SectionNodeV {
                            byte_intervals: self.node(*old(context)).byte_intervals.push(
                                byte_interval.uuid.0,
                            ),
                            ..self.node(*old(context))
                        },
                    )
                    &&& final(context).interval_nodes() == old(context).interval_nodes().insert(
                        byte_interval.uuid.0,
                        ByteIntervalNodeV {
                            parent: Some(self.uuid.0),
                            ..old(context).interval_nodes()[byte_interval.uuid.0]
                        },
                    )
                    &&& final(context).ir_nodes() == old(context).ir_nodes()
                    &&& final(context).module_nodes() == old(context).module_nodes()
                    &&& final(context).code_block_nodes() == old(context).code_block_nodes()
                    &&& final(context).data_block_nodes() == old(context).data_block_nodes()
                    &&& final(context).proxy_block_nodes() == old(context).proxy_block_nodes()
                    &&& final(context).symbol_nodes() == old(context).symbol_nodes()
                },
                Err(e) => {
                    &&& e == crate::error::Error::DetachedNode
                    &&& old(context).interval_nodes()[byte_interval.uuid.0].parent is Some
                    &&& *final(context) == *old(context)
                },
            },
    {
        let bu = byte_interval.uuid.0;
        if context.byte_intervals.get(&bu).unwrap().parent.is_some() {
            return Err(crate::error::Error::DetachedNode);
        }
        let mut bnode = context.byte_intervals.remove(&bu).unwrap();
        bnode.parent = Some(self.uuid.0);
        context.byte_intervals.insert(bu, bnode);
        let mut snode = context.sections.remove(&self.uuid.0).unwrap();
        snode.byte_intervals.push(bu);
        context.sections.insert(self.uuid.0, snode);
        proof {
            let c1 = *old(context);
            let c2 = *context;
            assert(c2.section_nodes() =~= c1.section_nodes().insert(
                self.uuid.0,
                SectionNodeV {
                    byte_intervals: c1.section_nodes()[self.uuid.0].byte_intervals.push(bu),
                    ..c1.section_nodes()[self.uuid.0]
                },
            ));
            assert(c2.interval_nodes() =~= c1.interval_nodes().insert(
                bu,
                ByteIntervalNodeV { parent: Some(self.uuid.0), ..c1.interval_nodes()[bu] },
            ));
            lemma_wf_attach_interval(c1, c2, self.uuid.0, bu);
        }
        Ok(())
    }

    /// Detach the byte interval with the given identifier from this
    /// section; `None` when no such interval is listed here.
    pub fn remove_byte_interval(&self, context: &mut Context, uuid: Uuid) -> (r: Option<
        ByteIntervalRef,
    >)
        requires
            old(context).wf(),
            self.live(*old(context)),
        ensures
            final(context).wf(),
            match r {
                Some(b) => {
                    &&& b == (ByteIntervalRef { uuid })
                    &&& self.node(*old(context)).byte_intervals.contains(uuid.0)
                    &&& final(context).section_nodes() == old(context).section_nodes().insert(
                        self.uuid.0,
                        SectionNodeV {
                            byte_intervals: self.node(*old(context)).byte_intervals.remove_value(
                                uuid.0,
                            ),
                            ..self.node(*old(context))
                        },
                    )
                    &&& final(context).interval_nodes() == old(context).interval_nodes().insert(
                        uuid.0,
                        ByteIntervalNodeV {
                            parent: None,
                            ..old(context).interval_nodes()[uuid.0]
                        },
                    )
                    &&& final(context).ir_nodes() == old(context).ir_nodes()
                    &&& final(context).module_nodes() == old(context).module_nodes()
                    &&& final(context).code_block_nodes() == old(context).code_block_nodes()
                    &&& final(context).data_block_nodes() == old(context).data_block_nodes()
                    &&& final(context).proxy_block_nodes() == old(context).proxy_block_nodes()
                    &&& final(context).symbol_nodes() == old(context).symbol_nodes()
                },
                None => {
                    &&& !self.node(*old(context)).byte_intervals.contains(uuid.0)
                    &&& *final(context) == *old(context)
                },
            },
    {
        let u = self.uuid.0;
        let ghost list = context.section_nodes()[u].byte_intervals;
        let node = context.sections.get(&u).unwrap();
        let n = node.byte_intervals.len();
        let mut k: usize = 0;
        let mut pos: Option<usize> = None;
        while k < n
            invariant
                n == list.len(),
                k <= n,
                context.sections@.contains_key(u),
                node.byte_intervals@ == list,
                match pos {
                    Some(p) => p < k && list[p as int] == uuid.0,
                    None => forall|j: int| 0 <= j < k ==> list[j] != uuid.0,
                },
            decreases n - k,
        {
            if pos.is_none() && node.byte_intervals[k] == uuid.0 {
                pos = Some(k);
            }
            k = k + 1;
        }
        match pos {
            None => {
                proof {
                    if list.contains(uuid.0) {
                        let j = choose|j: int| 0 <= j < list.len() && list[j] == uuid.0;
                        assert(list[j] != uuid.0);
                    }
                }
                None
            },
            Some(p) => {
                let mut snode = context.sections.remove(&u).unwrap();
                snode.byte_intervals.remove(p);
                context.sections.insert(u, snode);
                proof {
                    let c1 = *old(context);
                    assert(c1.section_node_ok(u));
                    assert(c1.interval_child_ok(list[p as int], u));
                }
                let mut bnode = context.byte_intervals.remove(&uuid.0).unwrap();
                bnode.parent = None;
                context.byte_intervals.insert(uuid.0, bnode);
                proof {
                    let c1 = *old(context);
                    let c2 = *context;
                    assert(list.contains(uuid.0));
                    assert(c1.section_node_ok(u));
                    assert(c1.interval_child_ok(list[p as int], u));
                    assert(c2.section_nodes() =~= c1.section_nodes().insert(
                        u,
                        SectionNodeV {
                            byte_intervals: list.remove(p as int),
                            ..c1.section_nodes()[u]
                        },
                    ));
                    assert(c2.interval_nodes() =~= c1.interval_nodes().insert(
                        uuid.0,
                        ByteIntervalNodeV { parent: None, ..c1.interval_nodes()[uuid.0] },
                    ));
                    lemma_wf_detach_interval(c1, c2, u, uuid.0, p as int);
                    list.index_of_first_ensures(uuid.0);
                    assert(list.no_duplicates());
                    assert(list.index_of_first(uuid.0) == Some(p as int));
                    assert(list.remove_value(uuid.0) == list.remove(p as int));
                }
                Some(ByteIntervalRef { uuid })
            },
        }
    }

    /// The handles of this section's byte intervals, in insertion order.
    pub fn byte_intervals(&self, context: &Context) -> (r: Vec<ByteIntervalRef>)
        requires
            self.live(*context),
        ensures
            r@.len() == self.node(*context).byte_intervals.len(),
            forall|i: int|
                0 <= i < r@.len() ==> r@[i] == (ByteIntervalRef {
                    uuid: Uuid(self.node(*context).byte_intervals[i]),
                }),
    {
        let node = context.sections.get(&self.uuid.0).unwrap();
        let n = node.byte_intervals.len();
        let mut out: Vec<ByteIntervalRef> = Vec::new();
        let mut k: usize = 0;
        while k < n
            invariant
                k <= n,
                n == node.byte_intervals@.len(),
                node.byte_intervals@ == self.node(*context).byte_intervals,
                out@.len() == k,
                forall|i: int|
                    0 <= i < k ==> out@[i] == (ByteIntervalRef {
                        uuid: Uuid(self.node(*context).byte_intervals[i]),
                    }),
            decreases n - k,
        {
            out.push(ByteIntervalRef { uuid: Uuid(node.byte_intervals[k]) });
            k = k + 1;
        }
        out
    }
}

} // verus!
