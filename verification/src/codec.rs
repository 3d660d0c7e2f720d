//! The binary codec: a tree of structured records as one length-prefixed
//! byte stream.
//!
//! Each record is a fixed sequence of fields (see the `write_*` and
//! `read_*` pairs); lists carry a count prefix.  The specification-level
//! encoders and parsers below are exact mirrors of the executable code,
//! and the round-trip lemmas prove that parsing an encoded record yields
//! the record back.

use vstd::prelude::*;

use crate::aux_data::AuxEntryV;
use crate::context::Context;
use crate::error::Error;
use crate::proto::{Block, BlockBody, ByteIntervalV, IrV, ModuleV, SectionV, SymbolV};
use crate::symbol::Payload;
use crate::symbolic_expression::{
    SymAddrAddr, SymAddrConst, SymStackConst, SymbolicExpression,
};
use crate::wire::{
    spec_bool_field, spec_bytes_field, spec_i64_field, spec_parse_bool_field,
    spec_parse_bytes_field, spec_parse_i64_field, spec_parse_string_field, spec_parse_uuid_field,
    spec_parse_varint, spec_string_field, spec_uuid_field, spec_varint,
};

verus! {

/// Concatenation of the encodings of a run of elements, first element
/// first.
pub open spec fn spec_encode_list<T>(s: Seq<T>, f: spec_fn(T) -> Seq<u8>) -> Seq<u8>
    decreases s.len(),
{
    if s.len() == 0 {
        Seq::empty()
    } else {
        f(s[0]) + spec_encode_list(s.drop_first(), f)
    }
}

/// Parse `n` consecutive elements from the front of `s`.
pub open spec fn spec_parse_list<T>(
    s: Seq<u8>,
    n: nat,
    p: spec_fn(Seq<u8>) -> Result<(T, Seq<u8>), Error>,
) -> Result<(Seq<T>, Seq<u8>), Error>
    decreases n,
{
    if n == 0 {
        Ok((Seq::empty(), s))
    } else {
        match p(s) {
            Ok((x, r)) => match spec_parse_list(r, (n - 1) as nat, p) {
                Ok((xs, r2)) => Ok((seq![x] + xs, r2)),
                Err(e) => Err(e),
            },
            Err(e) => Err(e),
        }
    }
}

/// The encoding of one more element extends the encoding of a prefix.
pub proof fn lemma_encode_list_take<T>(s: Seq<T>, f: spec_fn(T) -> Seq<u8>, k: int)
    requires
        0 <= k < s.len(),
    ensures
        spec_encode_list(s.take(k + 1), f) == spec_encode_list(s.take(k), f) + f(s[k]),
    decreases k,
{
    if k == 0 {
        assert(s.take(1)[0] == s[0]);
        assert(s.take(1).drop_first() =~= Seq::<T>::empty());
        assert(s.take(0) =~= Seq::<T>::empty());
        assert(spec_encode_list(s.take(1), f) =~= spec_encode_list(s.take(0), f) + f(s[0]));
    } else {
        let sdf = s.drop_first();
        lemma_encode_list_take(sdf, f, k - 1);
        assert(s.take(k + 1)[0] == s[0]);
        assert(s.take(k + 1).drop_first() =~= sdf.take(k));
        assert(s.take(k)[0] == s[0]);
        assert(s.take(k).drop_first() =~= sdf.take(k - 1));
        assert(sdf[k - 1] == s[k]);
        assert((f(s[0]) + spec_encode_list(sdf.take(k - 1), f)) + f(s[k]) =~= f(s[0]) + (
        spec_encode_list(sdf.take(k - 1), f) + f(s[k])));
    }
}

/// Parsing an encoded run of elements yields the elements and the
/// trailing input, given that each element parses back to itself.
pub proof fn lemma_list_round_trip<T>(
    s: Seq<T>,
    rest: Seq<u8>,
    f: spec_fn(T) -> Seq<u8>,
    p: spec_fn(Seq<u8>) -> Result<(T, Seq<u8>), Error>,
)
    requires
        forall|i: int, r2: Seq<u8>|
            0 <= i < s.len() ==> #[trigger] p(f(s[i]) + r2) == Ok::<(T, Seq<u8>), Error>(
                (s[i], r2),
            ),
    ensures
        spec_parse_list(spec_encode_list(s, f) + rest, s.len() as nat, p) == Ok::<
            (Seq<T>, Seq<u8>),
            Error,
        >((s, rest)),
    decreases s.len(),
{
    if s.len() == 0 {
        assert(spec_encode_list(s, f) + rest =~= rest);
        assert(seq![] + Seq::<T>::empty() =~= Seq::<T>::empty());
        assert(s =~= Seq::<T>::empty());
    } else {
        let sdf = s.drop_first();
        assert(spec_encode_list(s, f) + rest =~= f(s[0]) + (spec_encode_list(sdf, f) + rest));
        assert(p(f(s[0]) + (spec_encode_list(sdf, f) + rest)) == Ok::<(T, Seq<u8>), Error>(
            (s[0], spec_encode_list(sdf, f) + rest),
        ));
        assert forall|i: int, r2: Seq<u8>| 0 <= i < sdf.len() implies #[trigger] p(f(sdf[i]) + r2)
            == Ok::<(T, Seq<u8>), Error>((sdf[i], r2)) by {
            assert(sdf[i] == s[i + 1]);
            assert(p(f(s[i + 1]) + r2) == Ok::<(T, Seq<u8>), Error>((s[i + 1], r2)));
        }
        lemma_list_round_trip(sdf, rest, f, p);
        assert(seq![s[0]] + sdf =~= s);
    }
}

/// The encoding of a symbolic expression: a shape byte, then the shape's
/// fields.
#[verifier::opaque]
pub open spec fn spec_encode_symexpr(e: SymbolicExpression) -> Seq<u8> {
    match e {
        SymbolicExpression::SymAddrAddr(x) => seq![1u8] + spec_i64_field(x.scale)
            + spec_i64_field(x.offset) + spec_uuid_field(x.symbol1.0) + spec_uuid_field(
            x.symbol2.0,
        ),
        SymbolicExpression::SymAddrConst(x) => seq![2u8] + spec_i64_field(x.offset)
            + spec_uuid_field(x.symbol.0),
        SymbolicExpression::SymStackConst(x) => seq![3u8] + spec_i64_field(x.offset)
            + spec_uuid_field(x.symbol.0),
    }
}

#[verifier::opaque]
pub open spec fn spec_parse_symexpr(s: Seq<u8>) -> Result<(SymbolicExpression, Seq<u8>), Error> {
    if s.len() == 0 {
        Err(Error::TruncatedInput)
    } else {
        let d = s[0];
        let r = s.drop_first();
        if d == 1 {
            match spec_parse_i64_field(r) {
                Ok((scale, r)) => match spec_parse_i64_field(r) {
                    Ok((offset, r)) => match spec_parse_uuid_field(r) {
                        Ok((s1, r)) => match spec_parse_uuid_field(r) {
                            Ok((s2, r)) => Ok(
                                (
                                    SymbolicExpression::SymAddrAddr(
                                        SymAddrAddr {
                                            scale,
                                            offset,
                                            symbol1: crate::ident::Uuid(s1),
                                            symbol2: crate::ident::Uuid(s2),
                                        },
                                    ),
                                    r,
                                ),
                            ),
                            Err(e) => Err(e),
                        },
                        Err(e) => Err(e),
                    },
                    Err(e) => Err(e),
                },
                Err(e) => Err(e),
            }
        } else if d == 2 {
            match spec_parse_i64_field(r) {
                Ok((offset, r)) => match spec_parse_uuid_field(r) {
                    Ok((sy, r)) => Ok(
                        (
                            SymbolicExpression::SymAddrConst(
                                SymAddrConst { offset, symbol: crate::ident::Uuid(sy) },
                            ),
                            r,
                        ),
                    ),
                    Err(e) => Err(e),
                },
                Err(e) => Err(e),
            }
        } else if d == 3 {
            match spec_parse_i64_field(r) {
                Ok((offset, r)) => match spec_parse_uuid_field(r) {
                    Ok((sy, r)) => Ok(
                        (
                            SymbolicExpression::SymStackConst(
                                SymStackConst { offset, symbol: crate::ident::Uuid(sy) },
                            ),
                            r,
                        ),
                    ),
                    Err(e) => Err(e),
                },
                Err(e) => Err(e),
            }
        } else {
            Err(Error::StructuralDecodeError)
        }
    }
}

pub proof fn lemma_symexpr_round_trip(e: SymbolicExpression, rest: Seq<u8>)
    ensures
        spec_parse_symexpr(spec_encode_symexpr(e) + rest) == Ok::<
            (SymbolicExpression, Seq<u8>),
            Error,
        >((e, rest)),
{
    reveal(spec_encode_symexpr);
    reveal(spec_parse_symexpr);
    match e {
        SymbolicExpression::SymAddrAddr(x) => {
            let t4 = spec_uuid_field(x.symbol2.0) + rest;
            let t3 = spec_uuid_field(x.symbol1.0) + t4;
            let t2 = spec_i64_field(x.offset) + t3;
            let t1 = spec_i64_field(x.scale) + t2;
            let s = spec_encode_symexpr(e) + rest;
            assert(s[0] == 1);
            assert(s.drop_first() =~= t1);
            crate::wire::lemma_i64_field_round_trip(x.scale, t2);
            crate::wire::lemma_i64_field_round_trip(x.offset, t3);
            crate::wire::lemma_uuid_field_round_trip(x.symbol1.0, t4);
            crate::wire::lemma_uuid_field_round_trip(x.symbol2.0, rest);
        },
        SymbolicExpression::SymAddrConst(x) => {
            let t2 = spec_uuid_field(x.symbol.0) + rest;
            let t1 = spec_i64_field(x.offset) + t2;
            let s = spec_encode_symexpr(e) + rest;
            assert(s[0] == 2);
            assert(s.drop_first() =~= t1);
            crate::wire::lemma_i64_field_round_trip(x.offset, t2);
            crate::wire::lemma_uuid_field_round_trip(x.symbol.0, rest);
        },
        SymbolicExpression::SymStackConst(x) => {
            let t2 = spec_uuid_field(x.symbol.0) + rest;
            let t1 = spec_i64_field(x.offset) + t2;
            let s = spec_encode_symexpr(e) + rest;
            assert(s[0] == 3);
            assert(s.drop_first() =~= t1);
            crate::wire::lemma_i64_field_round_trip(x.offset, t2);
            crate::wire::lemma_uuid_field_round_trip(x.symbol.0, rest);
        },
    }
}

/// The encoding of one symbolic-expression map entry: offset, then
/// expression.
pub open spec fn spec_encode_symexpr_entry(e: (u64, SymbolicExpression)) -> Seq<u8> {
    spec_varint(e.0) + spec_encode_symexpr(e.1)
}

pub open spec fn spec_parse_symexpr_entry(s: Seq<u8>) -> Result<
    ((u64, SymbolicExpression), Seq<u8>),
    Error,
> {
    match spec_parse_varint(s, 10) {
        Ok((off, r)) => match spec_parse_symexpr(r) {
            Ok((e, r)) => Ok(((off, e), r)),
            Err(e) => Err(e),
        },
        Err(e) => Err(e),
    }
}

pub proof fn lemma_symexpr_entry_round_trip(e: (u64, SymbolicExpression), rest: Seq<u8>)
    ensures
        spec_parse_symexpr_entry(spec_encode_symexpr_entry(e) + rest) == Ok::<
            ((u64, SymbolicExpression), Seq<u8>),
            Error,
        >((e, rest)),
{
    let t1 = spec_encode_symexpr(e.1) + rest;
    assert(spec_encode_symexpr_entry(e) + rest =~= spec_varint(e.0) + t1);
    crate::wire::lemma_varint_round_trip(e.0, t1);
    lemma_symexpr_round_trip(e.1, rest);
}

/// The encoding of a block record: offset, a body byte (one for code, two
/// for data), identifier, size, and for code the decode mode.
#[verifier::opaque]
pub open spec fn spec_encode_block(b: Block) -> Seq<u8> {
    match b.body {
        BlockBody::Code { uuid, size, decode_mode } => spec_varint(b.offset) + seq![1u8]
            + spec_uuid_field(uuid) + spec_varint(size) + spec_varint(decode_mode),
        BlockBody::Data { uuid, size } => spec_varint(b.offset) + seq![2u8] + spec_uuid_field(
            uuid,
        ) + spec_varint(size),
    }
}

#[verifier::opaque]
pub open spec fn spec_parse_block(s: Seq<u8>) -> Result<(Block, Seq<u8>), Error> {
    match spec_parse_varint(s, 10) {
        Ok((offset, r)) => {
            if r.len() == 0 {
                Err(Error::TruncatedInput)
            } else {
                let d = r[0];
                let r = r.drop_first();
                if d == 1 {
                    match spec_parse_uuid_field(r) {
                        Ok((uuid, r)) => match spec_parse_varint(r, 10) {
                            Ok((size, r)) => match spec_parse_varint(r, 10) {
                                Ok((decode_mode, r)) => Ok(
                                    (
                                        Block {
                                            offset,
                                            body: BlockBody::Code { uuid, size, decode_mode },
                                        },
                                        r,
                                    ),
                                ),
                                Err(e) => Err(e),
                            },
                            Err(e) => Err(e),
                        },
                        Err(e) => Err(e),
                    }
                } else if d == 2 {
                    match spec_parse_uuid_field(r) {
                        Ok((uuid, r)) => match spec_parse_varint(r, 10) {
                            Ok((size, r)) => Ok(
                                (Block { offset, body: BlockBody::Data { uuid, size } }, r),
                            ),
                            Err(e) => Err(e),
                        },
                        Err(e) => Err(e),
                    }
                } else {
                    Err(Error::InvalidBlockRecord)
                }
            }
        },
        Err(e) => Err(e),
    }
}

pub proof fn lemma_block_round_trip(b: Block, rest: Seq<u8>)
    ensures
        spec_parse_block(spec_encode_block(b) + rest) == Ok::<(Block, Seq<u8>), Error>(
            (b, rest),
        ),
{
    reveal(spec_encode_block);
    reveal(spec_parse_block);
    match b.body {
        BlockBody::Code { uuid, size, decode_mode } => {
            let t3 = spec_varint(decode_mode) + rest;
            let t2 = spec_varint(size) + t3;
            let t1 = spec_uuid_field(uuid) + t2;
            let t0 = seq![1u8] + t1;
            assert(spec_encode_block(b) + rest =~= spec_varint(b.offset) + t0);
            crate::wire::lemma_varint_round_trip(b.offset, t0);
            assert(t0[0] == 1);
            assert(t0.drop_first() =~= t1);
            crate::wire::lemma_uuid_field_round_trip(uuid, t2);
            crate::wire::lemma_varint_round_trip(size, t3);
            crate::wire::lemma_varint_round_trip(decode_mode, rest);
        },
        BlockBody::Data { uuid, size } => {
            let t2 = spec_varint(size) + rest;
            let t1 = spec_uuid_field(uuid) + t2;
            let t0 = seq![2u8] + t1;
            assert(spec_encode_block(b) + rest =~= spec_varint(b.offset) + t0);
            crate::wire::lemma_varint_round_trip(b.offset, t0);
            assert(t0[0] == 2);
            assert(t0.drop_first() =~= t1);
            crate::wire::lemma_uuid_field_round_trip(uuid, t2);
            crate::wire::lemma_varint_round_trip(size, rest);
        },
    }
}

/// The encoding of a symbol record: identifier, name, payload (a shape
/// byte, then an inline value or a referent identifier).
#[verifier::opaque]
pub open spec fn spec_encode_symbol(v: SymbolV) -> Seq<u8> {
    spec_uuid_field(v.uuid) + spec_string_field(v.name) + match v.payload {
        None => seq![0u8],
        Some(Payload::Value(a)) => seq![1u8] + spec_varint(a.0),
        Some(Payload::Referent(r)) => seq![2u8] + spec_uuid_field(r.0),
    }
}

#[verifier::opaque]
pub open spec fn spec_parse_symbol(s: Seq<u8>) -> Result<(SymbolV, Seq<u8>), Error> {
    match spec_parse_uuid_field(s) {
        Ok((uuid, r)) => match spec_parse_string_field(r) {
            Ok((name, r)) => {
                if r.len() == 0 {
                    Err(Error::TruncatedInput)
                } else {
                    let d = r[0];
                    let r = r.drop_first();
                    if d == 0 {
                        Ok((SymbolV { uuid, name, payload: None }, r))
                    } else if d == 1 {
                        match spec_parse_varint(r, 10) {
                            Ok((a, r)) => Ok(
                                (
                                    SymbolV {
                                        uuid,
                                        name,
                                        payload: Some(Payload::Value(crate::addr::Addr(a))),
                                    },
                                    r,
                                ),
                            ),
                            Err(e) => Err(e),
                        }
                    } else if d == 2 {
                        match spec_parse_uuid_field(r) {
                            Ok((t, r)) => Ok(
                                (
                                    SymbolV {
                                        uuid,
                                        name,
                                        payload: Some(
                                            Payload::Referent(crate::ident::Uuid(t)),
                                        ),
                                    },
                                    r,
                                ),
                            ),
                            Err(e) => Err(e),
                        }
                    } else {
                        Err(Error::StructuralDecodeError)
                    }
                }
            },
            Err(e) => Err(e),
        },
        Err(e) => Err(e),
    }
}

/// The strings of a symbol fit a length prefix.
pub open spec fn symbol_bounded(v: SymbolV) -> bool {
    vstd::utf8::encode_utf8(v.name).len() <= u64::MAX
}

pub proof fn lemma_symbol_round_trip(v: SymbolV, rest: Seq<u8>)
    requires
        symbol_bounded(v),
    ensures
        spec_parse_symbol(spec_encode_symbol(v) + rest) == Ok::<(SymbolV, Seq<u8>), Error>(
            (v, rest),
        ),
{
    reveal(spec_encode_symbol);
    reveal(spec_parse_symbol);
    let pl: Seq<u8> = match v.payload {
        None => seq![0u8],
        Some(Payload::Value(a)) => seq![1u8] + spec_varint(a.0),
        Some(Payload::Referent(r)) => seq![2u8] + spec_uuid_field(r.0),
    };
    let t1 = spec_string_field(v.name) + (pl + rest);
    assert(spec_encode_symbol(v) + rest =~= spec_uuid_field(v.uuid) + t1);
    crate::wire::lemma_uuid_field_round_trip(v.uuid, t1);
    crate::wire::lemma_string_field_round_trip(v.name, pl + rest);
    match v.payload {
        None => {
            assert((pl + rest)[0] == 0);
            assert((pl + rest).drop_first() =~= rest);
        },
        Some(Payload::Value(a)) => {
            assert((pl + rest)[0] == 1);
            assert((pl + rest).drop_first() =~= spec_varint(a.0) + rest);
            crate::wire::lemma_varint_round_trip(a.0, rest);
        },
        Some(Payload::Referent(r)) => {
            assert((pl + rest)[0] == 2);
            assert((pl + rest).drop_first() =~= spec_uuid_field(r.0) + rest);
            crate::wire::lemma_uuid_field_round_trip(r.0, rest);
        },
    }
}

/// The encoding of one auxiliary-data entry: key, then blob.
#[verifier::opaque]
pub open spec fn spec_encode_aux(a: AuxEntryV) -> Seq<u8> {
    spec_string_field(a.key) + spec_bytes_field(a.value)
}

#[verifier::opaque]
pub open spec fn spec_parse_aux(s: Seq<u8>) -> Result<(AuxEntryV, Seq<u8>), Error> {
    match spec_parse_string_field(s) {
        Ok((key, r)) => match spec_parse_bytes_field(r) {
            Ok((value, r)) => Ok((AuxEntryV { key, value }, r)),
            Err(e) => Err(e),
        },
        Err(e) => Err(e),
    }
}

/// The strings and blob of an auxiliary-data entry fit a length prefix.
pub open spec fn aux_bounded(a: AuxEntryV) -> bool {
    vstd::utf8::encode_utf8(a.key).len() <= u64::MAX && a.value.len() <= u64::MAX
}

pub proof fn lemma_aux_round_trip(a: AuxEntryV, rest: Seq<u8>)
    requires
        aux_bounded(a),
    ensures
        spec_parse_aux(spec_encode_aux(a) + rest) == Ok::<(AuxEntryV, Seq<u8>), Error>(
            (a, rest),
        ),
{
    reveal(spec_encode_aux);
    reveal(spec_parse_aux);
    let t1 = spec_bytes_field(a.value) + rest;
    assert(spec_encode_aux(a) + rest =~= spec_string_field(a.key) + t1);
    crate::wire::lemma_string_field_round_trip(a.key, t1);
    crate::wire::lemma_bytes_field_round_trip(a.value, rest);
}

/// The encoding of a proxy-block record: just the identifier.
pub open spec fn spec_encode_proxy(u: u128) -> Seq<u8> {
    spec_uuid_field(u)
}

pub open spec fn spec_parse_proxy(s: Seq<u8>) -> Result<(u128, Seq<u8>), Error> {
    spec_parse_uuid_field(s)
}

/// The encoding of one section-flag tag.
pub open spec fn spec_encode_flag(c: u64) -> Seq<u8> {
    spec_varint(c)
}

pub open spec fn spec_parse_flag(s: Seq<u8>) -> Result<(u64, Seq<u8>), Error> {
    spec_parse_varint(s, 10)
}

/// The encoding of a byte-interval record: identifier, address presence
/// and value, size, contents, blocks, symbolic-expression entries.
#[verifier::opaque]
pub open spec fn spec_encode_interval(v: ByteIntervalV) -> Seq<u8> {
    spec_uuid_field(v.uuid) + spec_bool_field(v.has_address) + spec_varint(v.address)
        + spec_varint(v.size) + spec_bytes_field(v.contents) + spec_encode_interval_tail(v)
}

/// The list portion of an encoded byte-interval record.
#[verifier::opaque]
pub open spec fn spec_encode_interval_tail(v: ByteIntervalV) -> Seq<u8> {
    spec_varint(v.blocks.len() as u64) + spec_encode_list(v.blocks, |b: Block| spec_encode_block(b))
        + spec_varint(v.symbolic_expressions.len() as u64) + spec_encode_list(
        v.symbolic_expressions,
        |e: (u64, SymbolicExpression)| spec_encode_symexpr_entry(e),
    )
}

#[verifier::opaque]
pub open spec fn spec_parse_interval(s: Seq<u8>) -> Result<(ByteIntervalV, Seq<u8>), Error> {
    match spec_parse_uuid_field(s) {
        Ok((uuid, r)) => match spec_parse_bool_field(r) {
            Ok((has_address, r)) => match spec_parse_varint(r, 10) {
                Ok((address, r)) => match spec_parse_varint(r, 10) {
                    Ok((size, r)) => match spec_parse_bytes_field(r) {
                        Ok((contents, r)) => spec_parse_interval_tail(
                            uuid,
                            has_address,
                            address,
                            size,
                            contents,
                            r,
                        ),
                        Err(e) => Err(e),
                    },
                    Err(e) => Err(e),
                },
                Err(e) => Err(e),
            },
            Err(e) => Err(e),
        },
        Err(e) => Err(e),
    }
}

/// Parse the list portion of a byte-interval record, completing it with
/// the already-parsed scalar fields.
#[verifier::opaque]
pub open spec fn spec_parse_interval_tail(
    uuid: u128,
    has_address: bool,
    address: u64,
    size: u64,
    contents: Seq<u8>,
    s: Seq<u8>,
) -> Result<(ByteIntervalV, Seq<u8>), Error> {
    match spec_parse_varint(s, 10) {
        Ok((nb, r)) => match spec_parse_list(r, nb as nat, |t: Seq<u8>| spec_parse_block(t)) {
            Ok((blocks, r)) => match spec_parse_varint(r, 10) {
                Ok((ns, r)) => match spec_parse_list(
                    r,
                    ns as nat,
                    |t: Seq<u8>| spec_parse_symexpr_entry(t),
                ) {
                    Ok((symexprs, r)) => Ok(
                        (
                            ByteIntervalV {
                                uuid,
                                blocks,
                                has_address,
                                address,
                                size,
                                contents,
                                symbolic_expressions: symexprs,
                            },
                            r,
                        ),
                    ),
                    Err(e) => Err(e),
                },
                Err(e) => Err(e),
            },
            Err(e) => Err(e),
        },
        Err(e) => Err(e),
    }
}

/// The contents and lists of a byte-interval record fit a length prefix.
pub open spec fn interval_bounded(v: ByteIntervalV) -> bool {
    &&& v.contents.len() <= u64::MAX
    &&& v.blocks.len() <= u64::MAX
    &&& v.symbolic_expressions.len() <= u64::MAX
}

#[verifier::rlimit(100)]
proof fn lemma_interval_tail_round_trip(v: ByteIntervalV, rest: Seq<u8>)
    requires
        interval_bounded(v),
    ensures
        spec_parse_interval_tail(
            v.uuid,
            v.has_address,
            v.address,
            v.size,
            v.contents,
            spec_encode_interval_tail(v) + rest,
        ) == Ok::<(ByteIntervalV, Seq<u8>), Error>((v, rest)),
{
    reveal(spec_encode_interval_tail);
    reveal(spec_parse_interval_tail);
    let fb = |b: Block| spec_encode_block(b);
    let pb = |t: Seq<u8>| spec_parse_block(t);
    let fe = |e: (u64, SymbolicExpression)| spec_encode_symexpr_entry(e);
    let pe = |t: Seq<u8>| spec_parse_symexpr_entry(t);
    let t8 = spec_encode_list(v.symbolic_expressions, fe) + rest;
    let t7 = spec_varint(v.symbolic_expressions.len() as u64) + t8;
    let t6 = spec_encode_list(v.blocks, fb) + t7;
    assert(spec_encode_interval_tail(v) + rest =~= spec_varint(v.blocks.len() as u64) + t6);
    crate::wire::lemma_varint_round_trip(v.blocks.len() as u64, t6);
    assert forall|i: int, r2: Seq<u8>| 0 <= i < v.blocks.len() implies #[trigger] pb(
        fb(v.blocks[i]) + r2,
    ) == Ok::<(Block, Seq<u8>), Error>((v.blocks[i], r2)) by {
        lemma_block_round_trip(v.blocks[i], r2);
    }
    lemma_list_round_trip(v.blocks, t7, fb, pb);
    crate::wire::lemma_varint_round_trip(v.symbolic_expressions.len() as u64, t8);
    assert forall|i: int, r2: Seq<u8>| 0 <= i < v.symbolic_expressions.len() implies #[trigger] pe(
        fe(v.symbolic_expressions[i]) + r2,
    ) == Ok::<((u64, SymbolicExpression), Seq<u8>), Error>((v.symbolic_expressions[i], r2)) by {
        lemma_symexpr_entry_round_trip(v.symbolic_expressions[i], r2);
    }
    lemma_list_round_trip(v.symbolic_expressions, rest, fe, pe);
}

#[verifier::rlimit(100)]
pub proof fn lemma_interval_round_trip(v: ByteIntervalV, rest: Seq<u8>)
    requires
        interval_bounded(v),
    ensures
        spec_parse_interval(spec_encode_interval(v) + rest) == Ok::<
            (ByteIntervalV, Seq<u8>),
            Error,
        >((v, rest)),
{
    reveal(spec_encode_interval);
    reveal(spec_parse_interval);
    let t5 = spec_encode_interval_tail(v) + rest;
    let t4 = spec_bytes_field(v.contents) + t5;
    let t3 = spec_varint(v.size) + t4;
    let t2 = spec_varint(v.address) + t3;
    let t1 = spec_bool_field(v.has_address) + t2;
    assert(spec_encode_interval(v) + rest =~= spec_uuid_field(v.uuid) + t1);
    crate::wire::lemma_uuid_field_round_trip(v.uuid, t1);
    crate::wire::lemma_bool_field_round_trip(v.has_address, t2);
    crate::wire::lemma_varint_round_trip(v.address, t3);
    crate::wire::lemma_varint_round_trip(v.size, t4);
    crate::wire::lemma_bytes_field_round_trip(v.contents, t5);
    lemma_interval_tail_round_trip(v, rest);
}

/// The encoding of a section record: identifier, name, flags, byte
/// intervals.
#[verifier::opaque]
pub open spec fn spec_encode_section(v: SectionV) -> Seq<u8> {
    spec_uuid_field(v.uuid) + spec_string_field(v.name) + spec_varint(
        v.section_flags.len() as u64,
    ) + spec_encode_list(v.section_flags, |c: u64| spec_encode_flag(c)) + spec_varint(
        v.byte_intervals.len() as u64,
    ) + spec_encode_list(v.byte_intervals, |b: ByteIntervalV| spec_encode_interval(b))
}

#[verifier::opaque]
pub open spec fn spec_parse_section(s: Seq<u8>) -> Result<(SectionV, Seq<u8>), Error> {
    match spec_parse_uuid_field(s) {
        Ok((uuid, r)) => match spec_parse_string_field(r) {
            Ok((name, r)) => match spec_parse_varint(r, 10) {
                Ok((nf, r)) => match spec_parse_list(
                    r,
                    nf as nat,
                    |t: Seq<u8>| spec_parse_flag(t),
                ) {
                    Ok((flags, r)) => match spec_parse_varint(r, 10) {
                        Ok((ni, r)) => match spec_parse_list(
                            r,
                            ni as nat,
                            |t: Seq<u8>| spec_parse_interval(t),
                        ) {
                            Ok((ivs, r)) => Ok(
                                (
                                    SectionV {
                                        uuid,
                                        name,
                                        section_flags: flags,
                                        byte_intervals: ivs,
                                    },
                                    r,
                                ),
                            ),
                            Err(e) => Err(e),
                        },
                        Err(e) => Err(e),
                    },
                    Err(e) => Err(e),
                },
                Err(e) => Err(e),
            },
            Err(e) => Err(e),
        },
        Err(e) => Err(e),
    }
}

/// The strings and lists of a section record fit a length prefix,
/// recursively.
pub open spec fn section_bounded(v: SectionV) -> bool {
    &&& vstd::utf8::encode_utf8(v.name).len() <= u64::MAX
    &&& v.section_flags.len() <= u64::MAX
    &&& v.byte_intervals.len() <= u64::MAX
    &&& forall|i: int|
        0 <= i < v.byte_intervals.len() ==> interval_bounded(#[trigger] v.byte_intervals[i])
}

#[verifier::rlimit(100)]
pub proof fn lemma_section_round_trip(v: SectionV, rest: Seq<u8>)
    requires
        section_bounded(v),
    ensures
        spec_parse_section(spec_encode_section(v) + rest) == Ok::<(SectionV, Seq<u8>), Error>(
            (v, rest),
        ),
{
    reveal(spec_encode_section);
    reveal(spec_parse_section);
    let ff = |c: u64| spec_encode_flag(c);
    let pf = |t: Seq<u8>| spec_parse_flag(t);
    let fi = |b: ByteIntervalV| spec_encode_interval(b);
    let pi = |t: Seq<u8>| spec_parse_interval(t);
    let t5 = spec_encode_list(v.byte_intervals, fi) + rest;
    let t4 = spec_varint(v.byte_intervals.len() as u64) + t5;
    let t3 = spec_encode_list(v.section_flags, ff) + t4;
    let t2 = spec_varint(v.section_flags.len() as u64) + t3;
    let t1 = spec_string_field(v.name) + t2;
    assert(spec_encode_section(v) + rest =~= spec_uuid_field(v.uuid) + t1);
    crate::wire::lemma_uuid_field_round_trip(v.uuid, t1);
    crate::wire::lemma_string_field_round_trip(v.name, t2);
    crate::wire::lemma_varint_round_trip(v.section_flags.len() as u64, t3);
    assert forall|i: int, r2: Seq<u8>| 0 <= i < v.section_flags.len() implies #[trigger] pf(
        ff(v.section_flags[i]) + r2,
    ) == Ok::<(u64, Seq<u8>), Error>((v.section_flags[i], r2)) by {
        crate::wire::lemma_varint_round_trip(v.section_flags[i], r2);
    }
    lemma_list_round_trip(v.section_flags, t4, ff, pf);
    crate::wire::lemma_varint_round_trip(v.byte_intervals.len() as u64, t5);
    assert forall|i: int, r2: Seq<u8>| 0 <= i < v.byte_intervals.len() implies #[trigger] pi(
        fi(v.byte_intervals[i]) + r2,
    ) == Ok::<(ByteIntervalV, Seq<u8>), Error>((v.byte_intervals[i], r2)) by {
        lemma_interval_round_trip(v.byte_intervals[i], r2);
    }
    lemma_list_round_trip(v.byte_intervals, rest, fi, pi);
}

/// The encoding of a module record: identifier, names, scalar tags, the
/// optional entry point, symbols, proxy blocks, sections, auxiliary data.
#[verifier::opaque]
pub open spec fn spec_encode_module(v: ModuleV) -> Seq<u8> {
    spec_uuid_field(v.uuid) + spec_string_field(v.name) + spec_string_field(v.binary_path)
        + spec_encode_module_mid(v)
}

/// The scalar-tag portion of an encoded module record.
#[verifier::opaque]
pub open spec fn spec_encode_module_mid(v: ModuleV) -> Seq<u8> {
    spec_varint(v.preferred_addr) + spec_i64_field(v.rebase_delta) + spec_varint(v.file_format)
        + spec_varint(v.isa) + spec_varint(v.byte_order) + (match v.entry_point {
        None => spec_bool_field(false),
        Some(u) => spec_bool_field(true) + spec_uuid_field(u),
    }) + spec_encode_module_tail(v)
}

/// The list portion of an encoded module record.
#[verifier::opaque]
pub open spec fn spec_encode_module_tail(v: ModuleV) -> Seq<u8> {
    spec_varint(v.symbols.len() as u64) + spec_encode_list(
        v.symbols,
        |x: SymbolV| spec_encode_symbol(x),
    ) + spec_varint(v.proxies.len() as u64) + spec_encode_list(
        v.proxies,
        |x: u128| spec_encode_proxy(x),
    ) + spec_encode_module_tail2(v)
}

/// The section and auxiliary-data portion of an encoded module record.
#[verifier::opaque]
pub open spec fn spec_encode_module_tail2(v: ModuleV) -> Seq<u8> {
    spec_varint(v.sections.len() as u64) + spec_encode_list(
        v.sections,
        |x: SectionV| spec_encode_section(x),
    ) + spec_varint(v.aux_data.len() as u64) + spec_encode_list(
        v.aux_data,
        |x: AuxEntryV| spec_encode_aux(x),
    )
}

#[verifier::opaque]
pub open spec fn spec_parse_module(s: Seq<u8>) -> Result<(ModuleV, Seq<u8>), Error> {
    match spec_parse_uuid_field(s) {
        Ok((uuid, r)) => match spec_parse_string_field(r) {
            Ok((name, r)) => match spec_parse_string_field(r) {
                Ok((binary_path, r)) => spec_parse_module_mid(uuid, name, binary_path, r),
                Err(e) => Err(e),
            },
            Err(e) => Err(e),
        },
        Err(e) => Err(e),
    }
}

/// Parse the scalar tags of a module record.
#[verifier::opaque]
pub open spec fn spec_parse_module_mid(
    uuid: u128,
    name: Seq<char>,
    binary_path: Seq<char>,
    s: Seq<u8>,
) -> Result<(ModuleV, Seq<u8>), Error> {
    match spec_parse_varint(s, 10) {
        Ok((preferred_addr, r)) => match spec_parse_i64_field(r) {
            Ok((rebase_delta, r)) => match spec_parse_varint(r, 10) {
                Ok((file_format, r)) => match spec_parse_varint(r, 10) {
                    Ok((isa, r)) => match spec_parse_varint(r, 10) {
                        Ok((byte_order, r)) => match spec_parse_entry_point(r) {
                            Ok((entry_point, r)) => spec_parse_module_tail(
                                uuid,
                                name,
                                binary_path,
                                preferred_addr,
                                rebase_delta,
                                file_format,
                                isa,
                                byte_order,
                                entry_point,
                                r,
                            ),
                            Err(e) => Err(e),
                        },
                        Err(e) => Err(e),
                    },
                    Err(e) => Err(e),
                },
                Err(e) => Err(e),
            },
            Err(e) => Err(e),
        },
        Err(e) => Err(e),
    }
}

/// Parse the symbol and proxy lists of a module record.
#[verifier::opaque]
pub open spec fn spec_parse_module_tail(
    uuid: u128,
    name: Seq<char>,
    binary_path: Seq<char>,
    preferred_addr: u64,
    rebase_delta: i64,
    file_format: u64,
    isa: u64,
    byte_order: u64,
    entry_point: Option<u128>,
    s: Seq<u8>,
) -> Result<(ModuleV, Seq<u8>), Error> {
    match spec_parse_varint(s, 10) {
        Ok((nsy, r)) => match spec_parse_list(r, nsy as nat, |t: Seq<u8>| spec_parse_symbol(t)) {
            Ok((symbols, r)) => match spec_parse_varint(r, 10) {
                Ok((np, r)) => match spec_parse_list(
                    r,
                    np as nat,
                    |t: Seq<u8>| spec_parse_proxy(t),
                ) {
                    Ok((proxies, r)) => spec_parse_module_tail2(
                        uuid,
                        name,
                        binary_path,
                        preferred_addr,
                        rebase_delta,
                        file_format,
                        isa,
                        byte_order,
                        entry_point,
                        symbols,
                        proxies,
                        r,
                    ),
                    Err(e) => Err(e),
                },
                Err(e) => Err(e),
            },
            Err(e) => Err(e),
        },
        Err(e) => Err(e),
    }
}

/// Parse the section and auxiliary-data lists of a module record,
/// completing it.
#[verifier::opaque]
pub open spec fn spec_parse_module_tail2(
    uuid: u128,
    name: Seq<char>,
    binary_path: Seq<char>,
    preferred_addr: u64,
    rebase_delta: i64,
    file_format: u64,
    isa: u64,
    byte_order: u64,
    entry_point: Option<u128>,
    symbols: Seq<SymbolV>,
    proxies: Seq<u128>,
    s: Seq<u8>,
) -> Result<(ModuleV, Seq<u8>), Error> {
    match spec_parse_varint(s, 10) {
        Ok((nsec, r)) => match spec_parse_list(
            r,
            nsec as nat,
            |t: Seq<u8>| spec_parse_section(t),
        ) {
            Ok((sections, r)) => match spec_parse_varint(r, 10) {
                Ok((na, r)) => match spec_parse_list(
                    r,
                    na as nat,
                    |t: Seq<u8>| spec_parse_aux(t),
                ) {
                    Ok((aux_data, r)) => Ok(
                        (
                            ModuleV {
                                uuid,
                                name,
                                binary_path,
                                preferred_addr,
                                rebase_delta,
                                file_format,
                                isa,
                                byte_order,
                                entry_point,
                                symbols,
                                proxies,
                                sections,
                                aux_data,
                            },
                            r,
                        ),
                    ),
                    Err(e) => Err(e),
                },
                Err(e) => Err(e),
            },
            Err(e) => Err(e),
        },
        Err(e) => Err(e),
    }
}

/// Parse an optional entry-point referent: a presence byte, then an
/// identifier when present.
pub open spec fn spec_parse_entry_point(s: Seq<u8>) -> Result<(Option<u128>, Seq<u8>), Error> {
    match spec_parse_bool_field(s) {
        Ok((has, r)) => {
            if has {
                match spec_parse_uuid_field(r) {
                    Ok((u, r)) => Ok((Some(u), r)),
                    Err(e) => Err(e),
                }
            } else {
                Ok((None, r))
            }
        },
        Err(e) => Err(e),
    }
}

/// The strings and lists of a module record fit a length prefix,
/// recursively.
pub open spec fn module_bounded(v: ModuleV) -> bool {
    &&& vstd::utf8::encode_utf8(v.name).len() <= u64::MAX
    &&& vstd::utf8::encode_utf8(v.binary_path).len() <= u64::MAX
    &&& v.symbols.len() <= u64::MAX
    &&& v.proxies.len() <= u64::MAX
    &&& v.sections.len() <= u64::MAX
    &&& v.aux_data.len() <= u64::MAX
    &&& (forall|i: int| 0 <= i < v.symbols.len() ==> symbol_bounded(#[trigger] v.symbols[i]))
    &&& (forall|i: int| 0 <= i < v.sections.len() ==> section_bounded(#[trigger] v.sections[i]))
    &&& (forall|i: int| 0 <= i < v.aux_data.len() ==> aux_bounded(#[trigger] v.aux_data[i]))
}

#[verifier::rlimit(100)]
proof fn lemma_module_tail2_round_trip(v: ModuleV, rest: Seq<u8>)
    requires
        module_bounded(v),
    ensures
        spec_parse_module_tail2(
            v.uuid,
            v.name,
            v.binary_path,
            v.preferred_addr,
            v.rebase_delta,
            v.file_format,
            v.isa,
            v.byte_order,
            v.entry_point,
            v.symbols,
            v.proxies,
            spec_encode_module_tail2(v) + rest,
        ) == Ok::<(ModuleV, Seq<u8>), Error>((v, rest)),
{
    reveal(spec_encode_module_tail2);
    reveal(spec_parse_module_tail2);
    let fsec = |x: SectionV| spec_encode_section(x);
    let psec = |t: Seq<u8>| spec_parse_section(t);
    let fa = |x: AuxEntryV| spec_encode_aux(x);
    let pa = |t: Seq<u8>| spec_parse_aux(t);
    let t16 = spec_encode_list(v.aux_data, fa) + rest;
    let t15 = spec_varint(v.aux_data.len() as u64) + t16;
    let t14 = spec_encode_list(v.sections, fsec) + t15;
    assert(spec_encode_module_tail2(v) + rest =~= spec_varint(v.sections.len() as u64) + t14);
    crate::wire::lemma_varint_round_trip(v.sections.len() as u64, t14);
    assert forall|i: int, r2: Seq<u8>| 0 <= i < v.sections.len() implies #[trigger] psec(
        fsec(v.sections[i]) + r2,
    ) == Ok::<(SectionV, Seq<u8>), Error>((v.sections[i], r2)) by {
        lemma_section_round_trip(v.sections[i], r2);
    }
    lemma_list_round_trip(v.sections, t15, fsec, psec);
    crate::wire::lemma_varint_round_trip(v.aux_data.len() as u64, t16);
    assert forall|i: int, r2: Seq<u8>| 0 <= i < v.aux_data.len() implies #[trigger] pa(
        fa(v.aux_data[i]) + r2,
    ) == Ok::<(AuxEntryV, Seq<u8>), Error>((v.aux_data[i], r2)) by {
        lemma_aux_round_trip(v.aux_data[i], r2);
    }
    lemma_list_round_trip(v.aux_data, rest, fa, pa);
}

#[verifier::rlimit(100)]
proof fn lemma_module_tail_round_trip(v: ModuleV, rest: Seq<u8>)
    requires
        module_bounded(v),
    ensures
        spec_parse_module_tail(
            v.uuid,
            v.name,
            v.binary_path,
            v.preferred_addr,
            v.rebase_delta,
            v.file_format,
            v.isa,
            v.byte_order,
            v.entry_point,
            spec_encode_module_tail(v) + rest,
        ) == Ok::<(ModuleV, Seq<u8>), Error>((v, rest)),
{
    reveal(spec_encode_module_tail);
    reveal(spec_parse_module_tail);
    let fsy = |x: SymbolV| spec_encode_symbol(x);
    let psy = |t: Seq<u8>| spec_parse_symbol(t);
    let fp = |x: u128| spec_encode_proxy(x);
    let pp = |t: Seq<u8>| spec_parse_proxy(t);
    let t13 = spec_encode_module_tail2(v) + rest;
    let t12 = spec_encode_list(v.proxies, fp) + t13;
    let t11 = spec_varint(v.proxies.len() as u64) + t12;
    let t10 = spec_encode_list(v.symbols, fsy) + t11;
    assert(spec_encode_module_tail(v) + rest =~= spec_varint(v.symbols.len() as u64) + t10);
    crate::wire::lemma_varint_round_trip(v.symbols.len() as u64, t10);
    assert forall|i: int, r2: Seq<u8>| 0 <= i < v.symbols.len() implies #[trigger] psy(
        fsy(v.symbols[i]) + r2,
    ) == Ok::<(SymbolV, Seq<u8>), Error>((v.symbols[i], r2)) by {
        lemma_symbol_round_trip(v.symbols[i], r2);
    }
    lemma_list_round_trip(v.symbols, t11, fsy, psy);
    crate::wire::lemma_varint_round_trip(v.proxies.len() as u64, t12);
    assert forall|i: int, r2: Seq<u8>| 0 <= i < v.proxies.len() implies #[trigger] pp(
        fp(v.proxies[i]) + r2,
    ) == Ok::<(u128, Seq<u8>), Error>((v.proxies[i], r2)) by {
        crate::wire::lemma_uuid_field_round_trip(v.proxies[i], r2);
    }
    lemma_list_round_trip(v.proxies, t13, fp, pp);
    lemma_module_tail2_round_trip(v, rest);
}

#[verifier::rlimit(100)]
#[verifier::spinoff_prover]
proof fn lemma_module_mid_round_trip(v: ModuleV, rest: Seq<u8>)
    requires
        module_bounded(v),
    ensures
        spec_parse_module_mid(
            v.uuid,
            v.name,
            v.binary_path,
            spec_encode_module_mid(v) + rest,
        ) == Ok::<(ModuleV, Seq<u8>), Error>((v, rest)),
{
    reveal(spec_encode_module_mid);
    reveal(spec_parse_module_mid);
    let ep: Seq<u8> = match v.entry_point {
        None => spec_bool_field(false),
        Some(u) => spec_bool_field(true) + spec_uuid_field(u),
    };
    let t9 = spec_encode_module_tail(v) + rest;
    let t8 = ep + t9;
    let t7 = spec_varint(v.byte_order) + t8;
    let t6 = spec_varint(v.isa) + t7;
    let t5 = spec_varint(v.file_format) + t6;
    let t4 = spec_i64_field(v.rebase_delta) + t5;
    assert(spec_encode_module_mid(v) + rest =~= spec_varint(v.preferred_addr) + t4);
    crate::wire::lemma_varint_round_trip(v.preferred_addr, t4);
    crate::wire::lemma_i64_field_round_trip(v.rebase_delta, t5);
    crate::wire::lemma_varint_round_trip(v.file_format, t6);
    crate::wire::lemma_varint_round_trip(v.isa, t7);
    crate::wire::lemma_varint_round_trip(v.byte_order, t8);
    match v.entry_point {
        None => {
            crate::wire::lemma_bool_field_round_trip(false, t9);
            assert(t8 =~= spec_bool_field(false) + t9);
        },
        Some(u) => {
            assert(t8 =~= spec_bool_field(true) + (spec_uuid_field(u) + t9));
            crate::wire::lemma_bool_field_round_trip(true, spec_uuid_field(u) + t9);
            crate::wire::lemma_uuid_field_round_trip(u, t9);
        },
    }
    lemma_module_tail_round_trip(v, rest);
}

#[verifier::rlimit(100)]
pub proof fn lemma_module_round_trip(v: ModuleV, rest: Seq<u8>)
    requires
        module_bounded(v),
    ensures
        spec_parse_module(spec_encode_module(v) + rest) == Ok::<(ModuleV, Seq<u8>), Error>(
            (v, rest),
        ),
{
    reveal(spec_encode_module);
    reveal(spec_parse_module);
    let t3 = spec_encode_module_mid(v) + rest;
    let t2 = spec_string_field(v.binary_path) + t3;
    let t1 = spec_string_field(v.name) + t2;
    assert(spec_encode_module(v) + rest =~= spec_uuid_field(v.uuid) + t1);
    crate::wire::lemma_uuid_field_round_trip(v.uuid, t1);
    crate::wire::lemma_string_field_round_trip(v.name, t2);
    crate::wire::lemma_string_field_round_trip(v.binary_path, t3);
    lemma_module_mid_round_trip(v, rest);
}

/// The encoding of the top-level record: identifier, version, modules,
/// auxiliary data.
#[verifier::opaque]
pub open spec fn spec_encode_ir(v: IrV) -> Seq<u8> {
    spec_uuid_field(v.uuid) + spec_varint(v.version as u64) + spec_varint(v.modules.len() as u64)
        + spec_encode_list(v.modules, |m: ModuleV| spec_encode_module(m)) + spec_varint(
        v.aux_data.len() as u64,
    ) + spec_encode_list(v.aux_data, |x: AuxEntryV| spec_encode_aux(x))
}

#[verifier::opaque]
pub open spec fn spec_parse_ir(s: Seq<u8>) -> Result<(IrV, Seq<u8>), Error> {
    match spec_parse_uuid_field(s) {
        Ok((uuid, r)) => match spec_parse_varint(r, 10) {
            Ok((version, r)) => {
                if version > u32::MAX as u64 {
                    Err(Error::StructuralDecodeError)
                } else {
                    match spec_parse_varint(r, 10) {
                        Ok((nm, r)) => match spec_parse_list(
                            r,
                            nm as nat,
                            |t: Seq<u8>| spec_parse_module(t),
                        ) {
                            Ok((modules, r)) => match spec_parse_varint(r, 10) {
                                Ok((na, r)) => match spec_parse_list(
                                    r,
                                    na as nat,
                                    |t: Seq<u8>| spec_parse_aux(t),
                                ) {
                                    Ok((aux_data, r)) => Ok(
                                        (
                                            IrV {
                                                uuid,
                                                version: version as u32,
                                                modules,
                                                aux_data,
                                            },
                                            r,
                                        ),
                                    ),
                                    Err(e) => Err(e),
                                },
                                Err(e) => Err(e),
                            },
                            Err(e) => Err(e),
                        },
                        Err(e) => Err(e),
                    }
                }
            },
            Err(e) => Err(e),
        },
        Err(e) => Err(e),
    }
}

/// The lists of a top-level record fit a length prefix, recursively.
pub open spec fn ir_bounded(v: IrV) -> bool {
    &&& v.modules.len() <= u64::MAX
    &&& v.aux_data.len() <= u64::MAX
    &&& (forall|i: int| 0 <= i < v.modules.len() ==> module_bounded(#[trigger] v.modules[i]))
    &&& (forall|i: int| 0 <= i < v.aux_data.len() ==> aux_bounded(#[trigger] v.aux_data[i]))
}

#[verifier::rlimit(100)]
pub proof fn lemma_ir_round_trip(v: IrV, rest: Seq<u8>)
    requires
        ir_bounded(v),
    ensures
        spec_parse_ir(spec_encode_ir(v) + rest) == Ok::<(IrV, Seq<u8>), Error>((v, rest)),
{
    reveal(spec_encode_ir);
    reveal(spec_parse_ir);
    let fm = |m: ModuleV| spec_encode_module(m);
    let pm = |t: Seq<u8>| spec_parse_module(t);
    let fa = |x: AuxEntryV| spec_encode_aux(x);
    let pa = |t: Seq<u8>| spec_parse_aux(t);
    let t5 = spec_encode_list(v.aux_data, fa) + rest;
    let t4 = spec_varint(v.aux_data.len() as u64) + t5;
    let t3 = spec_encode_list(v.modules, fm) + t4;
    let t2 = spec_varint(v.modules.len() as u64) + t3;
    let t1 = spec_varint(v.version as u64) + t2;
    assert(spec_encode_ir(v) + rest =~= spec_uuid_field(v.uuid) + t1);
    crate::wire::lemma_uuid_field_round_trip(v.uuid, t1);
    crate::wire::lemma_varint_round_trip(v.version as u64, t2);
    crate::wire::lemma_varint_round_trip(v.modules.len() as u64, t3);
    assert forall|i: int, r2: Seq<u8>| 0 <= i < v.modules.len() implies #[trigger] pm(
        fm(v.modules[i]) + r2,
    ) == Ok::<(ModuleV, Seq<u8>), Error>((v.modules[i], r2)) by {
        lemma_module_round_trip(v.modules[i], r2);
    }
    lemma_list_round_trip(v.modules, t4, fm, pm);
    crate::wire::lemma_varint_round_trip(v.aux_data.len() as u64, t5);
    assert forall|i: int, r2: Seq<u8>| 0 <= i < v.aux_data.len() implies #[trigger] pa(
        fa(v.aux_data[i]) + r2,
    ) == Ok::<(AuxEntryV, Seq<u8>), Error>((v.aux_data[i], r2)) by {
        lemma_aux_round_trip(v.aux_data[i], r2);
    }
    lemma_list_round_trip(v.aux_data, rest, fa, pa);
}

/// The encoding of a whole file: a length prefix, then exactly the
/// top-level record.
pub open spec fn spec_encode_file(v: IrV) -> Seq<u8> {
    spec_varint(spec_encode_ir(v).len() as u64) + spec_encode_ir(v)
}

/// Parse a whole file: the length prefix must cover exactly the rest of
/// the input, which must hold exactly one top-level record.
pub open spec fn spec_parse_file(s: Seq<u8>) -> Result<IrV, Error> {
    match spec_parse_varint(s, 10) {
        Ok((n, r)) => {
            if n != r.len() {
                Err(Error::StructuralDecodeError)
            } else {
                match spec_parse_ir(r) {
                    Ok((v, r2)) => {
                        if r2.len() == 0 {
                            Ok(v)
                        } else {
                            Err(Error::StructuralDecodeError)
                        }
                    },
                    Err(e) => Err(e),
                }
            }
        },
        Err(e) => Err(e),
    }
}

/// The file-level round trip: parsing an encoded tree yields the tree.
pub proof fn lemma_file_round_trip(v: IrV)
    requires
        ir_bounded(v),
        spec_encode_ir(v).len() <= u64::MAX,
    ensures
        spec_parse_file(spec_encode_file(v)) == Ok::<IrV, Error>(v),
{
    let body = spec_encode_ir(v);
    crate::wire::lemma_varint_round_trip(body.len() as u64, body);
    assert(spec_encode_file(v) =~= spec_varint(body.len() as u64) + body);
    lemma_ir_round_trip(v, Seq::empty());
    assert(body + Seq::<u8>::empty() =~= body);
}


// Views of the registered tree as wire records.

/// The wire record of a live code block.
pub open spec fn code_block_rec_view(c: Context, u: u128) -> Block {
    Block {
        offset: c.code_block_nodes()[u].offset,
        body: BlockBody::Code {
            uuid: u,
            size: c.code_block_nodes()[u].size,
            decode_mode: c.code_block_nodes()[u].decode_mode,
        },
    }
}

/// The wire record of a live data block.
pub open spec fn data_block_rec_view(c: Context, u: u128) -> Block {
    Block {
        offset: c.data_block_nodes()[u].offset,
        body: BlockBody::Data { uuid: u, size: c.data_block_nodes()[u].size },
    }
}

/// The wire records of an interval's blocks: code blocks, then data
/// blocks.
pub open spec fn blocks_view(c: Context, cbs: Seq<u128>, dbs: Seq<u128>) -> Seq<Block> {
    cbs.map_values(|u: u128| code_block_rec_view(c, u)) + dbs.map_values(
        |u: u128| data_block_rec_view(c, u),
    )
}

/// The wire record of a live byte interval.
pub open spec fn interval_msg_view(c: Context, u: u128) -> ByteIntervalV {
    let n = c.interval_nodes()[u];
    ByteIntervalV {
        uuid: u,
        blocks: blocks_view(c, n.code_blocks, n.data_blocks),
        has_address: n.address is Some,
        address: match n.address {
            Some(a) => a.0,
            None => 0,
        },
        size: n.size,
        contents: n.bytes,
        symbolic_expressions: n.symbolic_expressions,
    }
}

/// The wire record of a live symbol.
pub open spec fn symbol_msg_view(c: Context, u: u128) -> SymbolV {
    SymbolV { uuid: u, name: c.symbol_nodes()[u].name, payload: c.symbol_nodes()[u].payload }
}

/// The wire record of a live section.
pub open spec fn section_msg_view(c: Context, u: u128) -> SectionV {
    let n = c.section_nodes()[u];
    SectionV {
        uuid: u,
        name: n.name,
        section_flags: n.flags.map_values(
            |f: crate::tags::SectionFlag| crate::tags::spec_section_flag_code(f),
        ),
        byte_intervals: n.byte_intervals.map_values(|i: u128| interval_msg_view(c, i)),
    }
}

/// The wire record of a live module.
pub open spec fn module_msg_view(c: Context, u: u128) -> ModuleV {
    let n = c.module_nodes()[u];
    ModuleV {
        uuid: u,
        name: n.name,
        binary_path: n.binary_path,
        preferred_addr: n.preferred_address.0,
        rebase_delta: n.rebase_delta,
        file_format: crate::tags::spec_file_format_code(n.file_format),
        isa: crate::tags::spec_isa_code(n.isa),
        byte_order: crate::tags::spec_byte_order_code(n.byte_order),
        entry_point: n.entry_point,
        symbols: n.symbols.map_values(|s: u128| symbol_msg_view(c, s)),
        proxies: n.proxy_blocks,
        sections: n.sections.map_values(|s: u128| section_msg_view(c, s)),
        aux_data: n.aux_data,
    }
}

/// The wire record of a live root.
pub open spec fn ir_msg_view(c: Context, u: u128) -> IrV {
    let n = c.ir_nodes()[u];
    IrV {
        uuid: u,
        version: n.version,
        modules: n.modules.map_values(|m: u128| module_msg_view(c, m)),
        aux_data: n.aux_data,
    }
}

/// Machine limit: an interval's block records must fit one count prefix.
pub open spec fn interval_counts_ok(c: Context, u: u128) -> bool {
    c.interval_nodes()[u].code_blocks.len() + c.interval_nodes()[u].data_blocks.len()
        <= u64::MAX
}

/// Machine limit, lifted over a section's intervals.
pub open spec fn section_counts_ok(c: Context, u: u128) -> bool {
    forall|j: int|
        0 <= j < c.section_nodes()[u].byte_intervals.len() ==> interval_counts_ok(
            c,
            #[trigger] c.section_nodes()[u].byte_intervals[j],
        )
}

/// Machine limit, lifted over a module's sections.
pub open spec fn module_counts_ok(c: Context, u: u128) -> bool {
    forall|i: int|
        0 <= i < c.module_nodes()[u].sections.len() ==> section_counts_ok(
            c,
            #[trigger] c.module_nodes()[u].sections[i],
        )
}

/// Machine limit, lifted over a whole tree.
pub open spec fn ir_counts_ok(c: Context, u: u128) -> bool {
    forall|i: int|
        0 <= i < c.ir_nodes()[u].modules.len() ==> module_counts_ok(
            c,
            #[trigger] c.ir_nodes()[u].modules[i],
        )
}

// Executable serializers, walking the registered tree in wire order.

/// Append the wire record of one symbolic expression.
fn write_symexpr(e: &SymbolicExpression, out: &mut Vec<u8>)
    ensures
        final(out)@ == old(out)@ + spec_encode_symexpr(*e),
{
    proof {
        reveal(spec_encode_symexpr);
    }
    match e {
        SymbolicExpression::SymAddrAddr(x) => {
            out.push(1);
            crate::wire::write_i64_field(out, x.scale);
            crate::wire::write_i64_field(out, x.offset);
            crate::wire::write_uuid_field(out, x.symbol1.0);
            crate::wire::write_uuid_field(out, x.symbol2.0);
            proof {
                assert(final(out)@ =~= old(out)@ + spec_encode_symexpr(*e));
            }
        },
        SymbolicExpression::SymAddrConst(x) => {
            out.push(2);
            crate::wire::write_i64_field(out, x.offset);
            crate::wire::write_uuid_field(out, x.symbol.0);
            proof {
                assert(final(out)@ =~= old(out)@ + spec_encode_symexpr(*e));
            }
        },
        SymbolicExpression::SymStackConst(x) => {
            out.push(3);
            crate::wire::write_i64_field(out, x.offset);
            crate::wire::write_uuid_field(out, x.symbol.0);
            proof {
                assert(final(out)@ =~= old(out)@ + spec_encode_symexpr(*e));
            }
        },
    }
}

/// Append the wire records of an interval's symbolic-expression entries.
fn write_symexprs(entries: &Vec<(u64, SymbolicExpression)>, out: &mut Vec<u8>)
    ensures
        final(out)@ == old(out)@ + spec_encode_list(
            entries@,
            |e: (u64, SymbolicExpression)| spec_encode_symexpr_entry(e),
        ),
{
    let ghost fe = |e: (u64, SymbolicExpression)| spec_encode_symexpr_entry(e);
    let n = entries.len();
    let mut k: usize = 0;
    proof {
        assert(entries@.take(0) =~= Seq::<(u64, SymbolicExpression)>::empty());
    }
    while k < n
        invariant
            k <= n,
            n == entries@.len(),
            out@ == old(out)@ + spec_encode_list(entries@.take(k as int), fe),
            fe == (|e: (u64, SymbolicExpression)| spec_encode_symexpr_entry(e)),
        decreases n - k,
    {
        let (off, e) = entries[k];
        crate::wire::write_varint(out, off);
        write_symexpr(&e, out);
        proof {
            lemma_encode_list_take(entries@, fe, k as int);
            assert(out@ =~= old(out)@ + spec_encode_list(entries@.take(k as int + 1), fe));
        }
        k = k + 1;
    }
    proof {
        assert(entries@.take(n as int) =~= entries@);
    }
}

/// Append the wire record of one live byte interval, blocks included.
#[verifier::rlimit(100)]
#[verifier::spinoff_prover]
fn write_interval(context: &Context, u: u128, out: &mut Vec<u8>)
    requires
        context.wf(),
        context.interval_live(u),
        interval_counts_ok(*context, u),
    ensures
        final(out)@ == old(out)@ + spec_encode_interval(interval_msg_view(*context, u)),
{
    proof {
        reveal(spec_encode_interval);
        reveal(spec_encode_interval_tail);
    }
    let ghost v = interval_msg_view(*context, u);
    let node = context.byte_intervals.get(&u).unwrap();
    crate::wire::write_uuid_field(out, u);
    match node.address {
        Some(a) => {
            crate::wire::write_bool_field(out, true);
            crate::wire::write_varint(out, a.0);
        },
        None => {
            crate::wire::write_bool_field(out, false);
            crate::wire::write_varint(out, 0);
        },
    }
    crate::wire::write_varint(out, node.size);
    crate::wire::write_bytes_field(out, node.bytes.as_slice());
    // blocks: code blocks first, then data blocks
    let ghost fb = |b: Block| spec_encode_block(b);
    let ncb = node.code_blocks.len();
    let ndb = node.data_blocks.len();
    proof {
        assert(v.blocks.len() == ncb + ndb);
    }
    crate::wire::write_varint(out, (ncb as u64) + (ndb as u64));
    let ghost mid = out@;
    let mut k: usize = 0;
    proof {
        assert(v.blocks.take(0) =~= Seq::<Block>::empty());
    }
    while k < ncb
        invariant
            context.wf(),
            context.interval_live(u),
            context.byte_intervals@.contains_key(u),
            node.code_blocks@ == context.interval_nodes()[u].code_blocks,
            node.data_blocks@ == context.interval_nodes()[u].data_blocks,
            v == interval_msg_view(*context, u),
            k <= ncb,
            ncb == node.code_blocks@.len(),
            ndb == node.data_blocks@.len(),
            out@ == mid + spec_encode_list(v.blocks.take(k as int), fb),
            fb == (|b: Block| spec_encode_block(b)),
        decreases ncb - k,
    {
        let cu = node.code_blocks[k];
        proof {
            assert(context.interval_node_ok(u));
            assert(context.code_block_child_ok(node.code_blocks@[k as int], u));
            assert(v.blocks[k as int] == code_block_rec_view(*context, cu));
            reveal(spec_encode_block);
        }
        let cnode = context.code_blocks.get(&cu).unwrap();
        crate::wire::write_varint(out, cnode.offset);
        out.push(1);
        crate::wire::write_uuid_field(out, cu);
        crate::wire::write_varint(out, cnode.size);
        crate::wire::write_varint(out, cnode.decode_mode);
        proof {
            lemma_encode_list_take(v.blocks, fb, k as int);
            assert(out@ =~= mid + spec_encode_list(v.blocks.take(k as int + 1), fb));
        }
        k = k + 1;
    }
    let mut k2: usize = 0;
    while k2 < ndb
        invariant
            context.wf(),
            context.interval_live(u),
            context.byte_intervals@.contains_key(u),
            node.code_blocks@ == context.interval_nodes()[u].code_blocks,
            node.data_blocks@ == context.interval_nodes()[u].data_blocks,
            v == interval_msg_view(*context, u),
            k2 <= ndb,
            ncb == node.code_blocks@.len(),
            ndb == node.data_blocks@.len(),
            out@ == mid + spec_encode_list(v.blocks.take(ncb as int + k2 as int), fb),
            fb == (|b: Block| spec_encode_block(b)),
        decreases ndb - k2,
    {
        let du = node.data_blocks[k2];
        proof {
            assert(context.interval_node_ok(u));
            assert(context.data_block_child_ok(node.data_blocks@[k2 as int], u));
            assert(v.blocks[ncb + k2] == data_block_rec_view(*context, du));
            reveal(spec_encode_block);
        }
        let dnode = context.data_blocks.get(&du).unwrap();
        crate::wire::write_varint(out, dnode.offset);
        out.push(2);
        crate::wire::write_uuid_field(out, du);
        crate::wire::write_varint(out, dnode.size);
        proof {
            lemma_encode_list_take(v.blocks, fb, ncb as int + k2 as int);
            assert(out@ =~= mid + spec_encode_list(v.blocks.take(ncb as int + k2 as int + 1), fb));
        }
        k2 = k2 + 1;
    }
    proof {
        assert(v.blocks.take(ncb as int + ndb as int) =~= v.blocks);
    }
    crate::wire::write_varint(out, node.symbolic_expressions.len() as u64);
    write_symexprs(&node.symbolic_expressions, out);
    proof {
        assert(final(out)@ =~= old(out)@ + spec_encode_interval(v));
    }
}

/// Append the wire record of one live symbol.
fn write_symbol(context: &Context, u: u128, out: &mut Vec<u8>)
    requires
        context.wf(),
        context.symbol_live(u),
    ensures
        final(out)@ == old(out)@ + spec_encode_symbol(symbol_msg_view(*context, u)),
{
    proof {
        reveal(spec_encode_symbol);
    }
    let node = context.symbols.get(&u).unwrap();
    crate::wire::write_uuid_field(out, u);
    crate::wire::write_string_field(out, node.name.as_str());
    match node.payload {
        None => {
            out.push(0);
        },
        Some(Payload::Value(a)) => {
            out.push(1);
            crate::wire::write_varint(out, a.0);
        },
        Some(Payload::Referent(r)) => {
            out.push(2);
            crate::wire::write_uuid_field(out, r.0);
        },
    }
    proof {
        assert(final(out)@ =~= old(out)@ + spec_encode_symbol(symbol_msg_view(*context, u)));
    }
}

/// Append one auxiliary-data entry.
fn write_aux(entry: &crate::aux_data::AuxEntry, out: &mut Vec<u8>)
    ensures
        final(out)@ == old(out)@ + spec_encode_aux(entry@),
{
    proof {
        reveal(spec_encode_aux);
    }
    crate::wire::write_string_field(out, entry.key.as_str());
    crate::wire::write_bytes_field(out, entry.value.as_slice());
    proof {
        assert(final(out)@ =~= old(out)@ + spec_encode_aux(entry@));
    }
}

/// Append an auxiliary-data list with its count prefix.
fn write_aux_list(entries: &Vec<crate::aux_data::AuxEntry>, out: &mut Vec<u8>)
    ensures
        final(out)@ == old(out)@ + spec_varint(crate::aux_data::aux_view(entries@).len() as u64)
            + spec_encode_list(
            crate::aux_data::aux_view(entries@),
            |x: AuxEntryV| spec_encode_aux(x),
        ),
{
    let ghost av = crate::aux_data::aux_view(entries@);
    let ghost fa = |x: AuxEntryV| spec_encode_aux(x);
    crate::wire::write_varint(out, entries.len() as u64);
    let ghost mid = out@;
    let n = entries.len();
    let mut k: usize = 0;
    proof {
        assert(av.take(0) =~= Seq::<AuxEntryV>::empty());
    }
    while k < n
        invariant
            k <= n,
            n == entries@.len(),
            av == crate::aux_data::aux_view(entries@),
            av.len() == n,
            out@ == mid + spec_encode_list(av.take(k as int), fa),
            fa == (|x: AuxEntryV| spec_encode_aux(x)),
        decreases n - k,
    {
        proof {
            assert(av[k as int] == entries@[k as int]@);
        }
        write_aux(&entries[k], out);
        proof {
            lemma_encode_list_take(av, fa, k as int);
            assert(out@ =~= mid + spec_encode_list(av.take(k as int + 1), fa));
        }
        k = k + 1;
    }
    proof {
        assert(av.take(n as int) =~= av);
        assert(final(out)@ =~= old(out)@ + spec_varint(av.len() as u64) + spec_encode_list(
            av,
            fa,
        ));
    }
}

/// Append the wire record of one live section, intervals included.
#[verifier::rlimit(100)]
#[verifier::spinoff_prover]
fn write_section(context: &Context, u: u128, out: &mut Vec<u8>)
    requires
        context.wf(),
        context.section_live(u),
        section_counts_ok(*context, u),
    ensures
        final(out)@ == old(out)@ + spec_encode_section(section_msg_view(*context, u)),
{
    proof {
        reveal(spec_encode_section);
    }
    let ghost v = section_msg_view(*context, u);
    let node = context.sections.get(&u).unwrap();
    crate::wire::write_uuid_field(out, u);
    crate::wire::write_string_field(out, node.name.as_str());
    let ghost ff = |c: u64| spec_encode_flag(c);
    crate::wire::write_varint(out, node.flags.len() as u64);
    let ghost mid = out@;
    let nf = node.flags.len();
    let mut k: usize = 0;
    proof {
        assert(v.section_flags.take(0) =~= Seq::<u64>::empty());
    }
    while k < nf
        invariant
            context.wf(),
            context.section_live(u),
            context.sections@.contains_key(u),
            node.flags@ == context.section_nodes()[u].flags,
            v == section_msg_view(*context, u),
            k <= nf,
            nf == node.flags@.len(),
            out@ == mid + spec_encode_list(v.section_flags.take(k as int), ff),
            ff == (|c: u64| spec_encode_flag(c)),
        decreases nf - k,
    {
        proof {
            assert(v.section_flags[k as int] == crate::tags::spec_section_flag_code(
                node.flags@[k as int],
            ));
        }
        let code = crate::tags::section_flag_code(node.flags[k]);
        crate::wire::write_varint(out, code);
        proof {
            lemma_encode_list_take(v.section_flags, ff, k as int);
            assert(out@ =~= mid + spec_encode_list(v.section_flags.take(k as int + 1), ff));
        }
        k = k + 1;
    }
    proof {
        assert(v.section_flags.take(nf as int) =~= v.section_flags);
    }
    let ghost fi = |b: ByteIntervalV| spec_encode_interval(b);
    crate::wire::write_varint(out, node.byte_intervals.len() as u64);
    let ghost mid2 = out@;
    let ni = node.byte_intervals.len();
    let mut k2: usize = 0;
    proof {
        assert(v.byte_intervals.take(0) =~= Seq::<ByteIntervalV>::empty());
    }
    while k2 < ni
        invariant
            context.wf(),
            context.section_live(u),
            context.sections@.contains_key(u),
            node.byte_intervals@ == context.section_nodes()[u].byte_intervals,
            v == section_msg_view(*context, u),
            section_counts_ok(*context, u),
            k2 <= ni,
            ni == node.byte_intervals@.len(),
            out@ == mid2 + spec_encode_list(v.byte_intervals.take(k2 as int), fi),
            fi == (|b: ByteIntervalV| spec_encode_interval(b)),
        decreases ni - k2,
    {
        let iu = node.byte_intervals[k2];
        proof {
            assert(context.section_node_ok(u));
            assert(context.interval_child_ok(node.byte_intervals@[k2 as int], u));
            assert(v.byte_intervals[k2 as int] == interval_msg_view(*context, iu));
            assert(interval_counts_ok(*context, node.byte_intervals@[k2 as int]));
        }
        write_interval(context, iu, out);
        proof {
            lemma_encode_list_take(v.byte_intervals, fi, k2 as int);
            assert(out@ =~= mid2 + spec_encode_list(v.byte_intervals.take(k2 as int + 1), fi));
        }
        k2 = k2 + 1;
    }
    proof {
        assert(v.byte_intervals.take(ni as int) =~= v.byte_intervals);
        assert(final(out)@ =~= old(out)@ + spec_encode_section(v));
    }
}


/// Append the wire record of one live module, children included.
/// Append the list portion of one live module's wire record.
#[verifier::rlimit(100)]
#[verifier::spinoff_prover]
fn write_module_lists(context: &Context, u: u128, out: &mut Vec<u8>)
    requires
        context.wf(),
        context.module_live(u),
        module_counts_ok(*context, u),
    ensures
        final(out)@ == old(out)@ + spec_encode_module_tail(module_msg_view(*context, u)),
{
    proof {
        reveal(spec_encode_module_tail);
        reveal(spec_encode_module_tail2);
    }
    let ghost v = module_msg_view(*context, u);
    let node = context.modules.get(&u).unwrap();
    // symbols
    let ghost fsy = |x: SymbolV| spec_encode_symbol(x);
    crate::wire::write_varint(out, node.symbols.len() as u64);
    let ghost mid = out@;
    let nsy = node.symbols.len();
    let mut k: usize = 0;
    proof {
        assert(v.symbols.take(0) =~= Seq::<SymbolV>::empty());
    }
    while k < nsy
        invariant
            context.wf(),
            context.module_live(u),
            context.modules@.contains_key(u),
            node.symbols@ == context.module_nodes()[u].symbols,
            v == module_msg_view(*context, u),
            k <= nsy,
            nsy == node.symbols@.len(),
            out@ == mid + spec_encode_list(v.symbols.take(k as int), fsy),
            fsy == (|x: SymbolV| spec_encode_symbol(x)),
        decreases nsy - k,
    {
        let su = node.symbols[k];
        proof {
            assert(context.module_node_ok(u));
            assert(context.symbol_child_ok(node.symbols@[k as int], u));
            assert(v.symbols[k as int] == symbol_msg_view(*context, su));
        }
        write_symbol(context, su, out);
        proof {
            lemma_encode_list_take(v.symbols, fsy, k as int);
            assert(out@ =~= mid + spec_encode_list(v.symbols.take(k as int + 1), fsy));
        }
        k = k + 1;
    }
    proof {
        assert(v.symbols.take(nsy as int) =~= v.symbols);
    }
    // proxy blocks
    let ghost fp = |x: u128| spec_encode_proxy(x);
    crate::wire::write_varint(out, node.proxy_blocks.len() as u64);
    let ghost mid2 = out@;
    let np = node.proxy_blocks.len();
    let mut k2: usize = 0;
    proof {
        assert(v.proxies.take(0) =~= Seq::<u128>::empty());
    }
    while k2 < np
        invariant
            node.proxy_blocks@ == v.proxies,
            k2 <= np,
            np == node.proxy_blocks@.len(),
            out@ == mid2 + spec_encode_list(v.proxies.take(k2 as int), fp),
            fp == (|x: u128| spec_encode_proxy(x)),
        decreases np - k2,
    {
        crate::wire::write_uuid_field(out, node.proxy_blocks[k2]);
        proof {
            lemma_encode_list_take(v.proxies, fp, k2 as int);
            assert(out@ =~= mid2 + spec_encode_list(v.proxies.take(k2 as int + 1), fp));
        }
        k2 = k2 + 1;
    }
    proof {
        assert(v.proxies.take(np as int) =~= v.proxies);
    }
    // sections
    let ghost fsec = |x: SectionV| spec_encode_section(x);
    crate::wire::write_varint(out, node.sections.len() as u64);
    let ghost mid3 = out@;
    let nsec = node.sections.len();
    let mut k3: usize = 0;
    proof {
        assert(v.sections.take(0) =~= Seq::<SectionV>::empty());
    }
    while k3 < nsec
        invariant
            context.wf(),
            context.module_live(u),
            context.modules@.contains_key(u),
            node.sections@ == context.module_nodes()[u].sections,
            v == module_msg_view(*context, u),
            module_counts_ok(*context, u),
            k3 <= nsec,
            nsec == node.sections@.len(),
            out@ == mid3 + spec_encode_list(v.sections.take(k3 as int), fsec),
            fsec == (|x: SectionV| spec_encode_section(x)),
        decreases nsec - k3,
    {
        let su = node.sections[k3];
        proof {
            assert(context.module_node_ok(u));
            assert(context.section_child_ok(node.sections@[k3 as int], u));
            assert(v.sections[k3 as int] == section_msg_view(*context, su));
            assert(section_counts_ok(*context, node.sections@[k3 as int]));
        }
        write_section(context, su, out);
        proof {
            lemma_encode_list_take(v.sections, fsec, k3 as int);
            assert(out@ =~= mid3 + spec_encode_list(v.sections.take(k3 as int + 1), fsec));
        }
        k3 = k3 + 1;
    }
    proof {
        assert(v.sections.take(nsec as int) =~= v.sections);
    }
    write_aux_list(&node.aux_data, out);
    proof {
        assert(final(out)@ =~= old(out)@ + spec_encode_module_tail(v));
    }
}

/// Append the wire record of one live module, children included.
#[verifier::rlimit(100)]
#[verifier::spinoff_prover]
fn write_module(context: &Context, u: u128, out: &mut Vec<u8>)
    requires
        context.wf(),
        context.module_live(u),
        module_counts_ok(*context, u),
    ensures
        final(out)@ == old(out)@ + spec_encode_module(module_msg_view(*context, u)),
{
    proof {
        reveal(spec_encode_module);
        reveal(spec_encode_module_mid);
    }
    let ghost v = module_msg_view(*context, u);
    let node = context.modules.get(&u).unwrap();
    crate::wire::write_uuid_field(out, u);
    crate::wire::write_string_field(out, node.name.as_str());
    crate::wire::write_string_field(out, node.binary_path.as_str());
    crate::wire::write_varint(out, node.preferred_address.0);
    crate::wire::write_i64_field(out, node.rebase_delta);
    crate::wire::write_varint(out, crate::tags::file_format_code(node.file_format));
    crate::wire::write_varint(out, crate::tags::isa_code(node.isa));
    crate::wire::write_varint(out, crate::tags::byte_order_code(node.byte_order));
    match node.entry_point {
        Some(e) => {
            crate::wire::write_bool_field(out, true);
            crate::wire::write_uuid_field(out, e);
        },
        None => {
            crate::wire::write_bool_field(out, false);
        },
    }
    write_module_lists(context, u, out);
    proof {
        assert(final(out)@ =~= old(out)@ + spec_encode_module(v));
    }
}

/// Append the wire record of one live root, modules included.
#[verifier::rlimit(100)]
#[verifier::spinoff_prover]
fn write_ir(context: &Context, u: u128, out: &mut Vec<u8>)
    requires
        context.wf(),
        context.ir_live(u),
        ir_counts_ok(*context, u),
    ensures
        final(out)@ == old(out)@ + spec_encode_ir(ir_msg_view(*context, u)),
{
    proof {
        reveal(spec_encode_ir);
    }
    let ghost v = ir_msg_view(*context, u);
    let node = context.irs.get(&u).unwrap();
    crate::wire::write_uuid_field(out, u);
    crate::wire::write_varint(out, node.version as u64);
    let ghost fm = |m: ModuleV| spec_encode_module(m);
    crate::wire::write_varint(out, node.modules.len() as u64);
    let ghost mid = out@;
    let nm = node.modules.len();
    let mut k: usize = 0;
    proof {
        assert(v.modules.take(0) =~= Seq::<ModuleV>::empty());
    }
    while k < nm
        invariant
            context.wf(),
            context.ir_live(u),
            context.irs@.contains_key(u),
            node.modules@ == context.ir_nodes()[u].modules,
            v == ir_msg_view(*context, u),
            ir_counts_ok(*context, u),
            k <= nm,
            nm == node.modules@.len(),
            out@ == mid + spec_encode_list(v.modules.take(k as int), fm),
            fm == (|m: ModuleV| spec_encode_module(m)),
        decreases nm - k,
    {
        let mu = node.modules[k];
        proof {
            assert(context.ir_node_ok(u));
            assert(context.module_child_ok(node.modules@[k as int], u));
            assert(v.modules[k as int] == module_msg_view(*context, mu));
            assert(module_counts_ok(*context, node.modules@[k as int]));
        }
        write_module(context, mu, out);
        proof {
            lemma_encode_list_take(v.modules, fm, k as int);
            assert(out@ =~= mid + spec_encode_list(v.modules.take(k as int + 1), fm));
        }
        k = k + 1;
    }
    proof {
        assert(v.modules.take(nm as int) =~= v.modules);
    }
    write_aux_list(&node.aux_data, out);
    proof {
        assert(final(out)@ =~= old(out)@ + spec_encode_ir(v));
    }
}

/// Encode a whole tree as one length-prefixed byte stream.
///
/// The result is exactly [`spec_encode_file`] of the tree's record view,
/// so decoding recovers the same records (see [`lemma_file_round_trip`]).
pub fn encode(context: &Context, ir: &crate::ir::IRRef) -> (r: Vec<u8>)
    requires
        context.wf(),
        context.ir_live(ir.uuid.0),
        ir_counts_ok(*context, ir.uuid.0),
    ensures
        r@ == spec_encode_file(ir_msg_view(*context, ir.uuid.0)),
{
    let mut body: Vec<u8> = Vec::new();
    write_ir(context, ir.uuid.0, &mut body);
    let mut out: Vec<u8> = Vec::new();
    crate::wire::write_varint(&mut out, body.len() as u64);
    let ghost mid = out@;
    let n = body.len();
    let mut k: usize = 0;
    while k < n
        invariant
            k <= n,
            n == body@.len(),
            out@ == mid + body@.take(k as int),
        decreases n - k,
    {
        out.push(body[k]);
        proof {
            assert(out@ =~= mid + body@.take(k as int + 1));
        }
        k = k + 1;
    }
    proof {
        assert(body@.take(n as int) =~= body@);
        assert(out@ =~= spec_encode_file(ir_msg_view(*context, ir.uuid.0)));
    }
    out
}


// Executable parsers, building record trees from bytes.

fn read_symexpr(b: &[u8], pos: usize) -> (r: Result<(SymbolicExpression, usize), Error>)
    requires
        pos <= b@.len(),
    ensures
        match r {
            Ok((v, end)) => pos <= end <= b@.len() && spec_parse_symexpr(b@.skip(pos as int))
                == Ok::<(SymbolicExpression, Seq<u8>), Error>((v, b@.skip(end as int))),
            Err(e) => spec_parse_symexpr(b@.skip(pos as int)) == Err::<
                (SymbolicExpression, Seq<u8>),
                Error,
            >(e),
        },
{
    proof {
        reveal(spec_parse_symexpr);
    }
    if pos >= b.len() {
        proof {
            assert(b@.skip(pos as int).len() == 0);
        }
        return Err(Error::TruncatedInput);
    }
    let d = b[pos];
    let p1 = pos + 1;
    proof {
        assert(b@.skip(pos as int)[0] == b@[pos as int]);
        assert(b@.skip(pos as int).drop_first() =~= b@.skip(p1 as int));
    }
    if d == 1 {
        let (scale, p2) = match crate::wire::read_i64_field(b, p1) {
            Ok(v) => v,
            Err(e) => {
                return Err(e);
            },
        };
        let (offset, p3) = match crate::wire::read_i64_field(b, p2) {
            Ok(v) => v,
            Err(e) => {
                return Err(e);
            },
        };
        let (s1, p4) = match crate::wire::read_uuid_field(b, p3) {
            Ok(v) => v,
            Err(e) => {
                return Err(e);
            },
        };
        let (s2, p5) = match crate::wire::read_uuid_field(b, p4) {
            Ok(v) => v,
            Err(e) => {
                return Err(e);
            },
        };
        Ok(
            (
                SymbolicExpression::SymAddrAddr(
                    SymAddrAddr {
                        scale,
                        offset,
                        symbol1: crate::ident::Uuid(s1),
                        symbol2: crate::ident::Uuid(s2),
                    },
                ),
                p5,
            ),
        )
    } else if d == 2 {
        let (offset, p2) = match crate::wire::read_i64_field(b, p1) {
            Ok(v) => v,
            Err(e) => {
                return Err(e);
            },
        };
        let (sy, p3) = match crate::wire::read_uuid_field(b, p2) {
            Ok(v) => v,
            Err(e) => {
                return Err(e);
            },
        };
        Ok(
            (
                SymbolicExpression::SymAddrConst(
                    SymAddrConst { offset, symbol: crate::ident::Uuid(sy) },
                ),
                p3,
            ),
        )
    } else if d == 3 {
        let (offset, p2) = match crate::wire::read_i64_field(b, p1) {
            Ok(v) => v,
            Err(e) => {
                return Err(e);
            },
        };
        let (sy, p3) = match crate::wire::read_uuid_field(b, p2) {
            Ok(v) => v,
            Err(e) => {
                return Err(e);
            },
        };
        Ok(
            (
                SymbolicExpression::SymStackConst(
                    SymStackConst { offset, symbol: crate::ident::Uuid(sy) },
                ),
                p3,
            ),
        )
    } else {
        Err(Error::StructuralDecodeError)
    }
}

fn read_symexpr_entry(b: &[u8], pos: usize) -> (r: Result<((u64, SymbolicExpression), usize), Error>)
    requires
        pos <= b@.len(),
    ensures
        match r {
            Ok((v, end)) => pos <= end <= b@.len() && spec_parse_symexpr_entry(
                b@.skip(pos as int),
            ) == Ok::<((u64, SymbolicExpression), Seq<u8>), Error>((v, b@.skip(end as int))),
            Err(e) => spec_parse_symexpr_entry(b@.skip(pos as int)) == Err::<
                ((u64, SymbolicExpression), Seq<u8>),
                Error,
            >(e),
        },
{
    let (off, p1) = match crate::wire::read_varint(b, pos) {
        Ok(v) => v,
        Err(e) => {
            return Err(e);
        },
    };
    let (e, p2) = match read_symexpr(b, p1) {
        Ok(v) => v,
        Err(e) => {
            return Err(e);
        },
    };
    Ok(((off, e), p2))
}

fn read_block(b: &[u8], pos: usize) -> (r: Result<(Block, usize), Error>)
    requires
        pos <= b@.len(),
    ensures
        match r {
            Ok((v, end)) => pos <= end <= b@.len() && spec_parse_block(b@.skip(pos as int))
                == Ok::<(Block, Seq<u8>), Error>((v, b@.skip(end as int))),
            Err(e) => spec_parse_block(b@.skip(pos as int)) == Err::<(Block, Seq<u8>), Error>(
                e,
            ),
        },
{
    proof {
        reveal(spec_parse_block);
    }
    let (offset, p1) = match crate::wire::read_varint(b, pos) {
        Ok(v) => v,
        Err(e) => {
            return Err(e);
        },
    };
    if p1 >= b.len() {
        proof {
            assert(b@.skip(p1 as int).len() == 0);
        }
        return Err(Error::TruncatedInput);
    }
    let d = b[p1];
    let p2 = p1 + 1;
    proof {
        assert(b@.skip(p1 as int)[0] == b@[p1 as int]);
        assert(b@.skip(p1 as int).drop_first() =~= b@.skip(p2 as int));
    }
    if d == 1 {
        let (uuid, p3) = match crate::wire::read_uuid_field(b, p2) {
            Ok(v) => v,
            Err(e) => {
                return Err(e);
            },
        };
        let (size, p4) = match crate::wire::read_varint(b, p3) {
            Ok(v) => v,
            Err(e) => {
                return Err(e);
            },
        };
        let (decode_mode, p5) = match crate::wire::read_varint(b, p4) {
            Ok(v) => v,
            Err(e) => {
                return Err(e);
            },
        };
        Ok((Block { offset, body: BlockBody::Code { uuid, size, decode_mode } }, p5))
    } else if d == 2 {
        let (uuid, p3) = match crate::wire::read_uuid_field(b, p2) {
            Ok(v) => v,
            Err(e) => {
                return Err(e);
            },
        };
        let (size, p4) = match crate::wire::read_varint(b, p3) {
            Ok(v) => v,
            Err(e) => {
                return Err(e);
            },
        };
        Ok((Block { offset, body: BlockBody::Data { uuid, size } }, p4))
    } else {
        Err(Error::InvalidBlockRecord)
    }
}

fn read_symbol(b: &[u8], pos: usize) -> (r: Result<(crate::proto::Symbol, usize), Error>)
    requires
        pos <= b@.len(),
    ensures
        match r {
            Ok((v, end)) => pos <= end <= b@.len() && spec_parse_symbol(b@.skip(pos as int))
                == Ok::<(SymbolV, Seq<u8>), Error>((v@, b@.skip(end as int))),
            Err(e) => spec_parse_symbol(b@.skip(pos as int)) == Err::<(SymbolV, Seq<u8>), Error>(
                e,
            ),
        },
{
    proof {
        reveal(spec_parse_symbol);
    }
    let (uuid, p1) = match crate::wire::read_uuid_field(b, pos) {
        Ok(v) => v,
        Err(e) => {
            return Err(e);
        },
    };
    let (name, p2) = match crate::wire::read_string_field(b, p1) {
        Ok(v) => v,
        Err(e) => {
            return Err(e);
        },
    };
    if p2 >= b.len() {
        proof {
            assert(b@.skip(p2 as int).len() == 0);
        }
        return Err(Error::TruncatedInput);
    }
    let d = b[p2];
    let p3 = p2 + 1;
    proof {
        assert(b@.skip(p2 as int)[0] == b@[p2 as int]);
        assert(b@.skip(p2 as int).drop_first() =~= b@.skip(p3 as int));
    }
    if d == 0 {
        Ok((crate::proto::Symbol { uuid, name, payload: None }, p3))
    } else if d == 1 {
        let (a, p4) = match crate::wire::read_varint(b, p3) {
            Ok(v) => v,
            Err(e) => {
                return Err(e);
            },
        };
        Ok(
            (
                crate::proto::Symbol {
                    uuid,
                    name,
                    payload: Some(Payload::Value(crate::addr::Addr(a))),
                },
                p4,
            ),
        )
    } else if d == 2 {
        let (t, p4) = match crate::wire::read_uuid_field(b, p3) {
            Ok(v) => v,
            Err(e) => {
                return Err(e);
            },
        };
        Ok(
            (
                crate::proto::Symbol {
                    uuid,
                    name,
                    payload: Some(Payload::Referent(crate::ident::Uuid(t))),
                },
                p4,
            ),
        )
    } else {
        Err(Error::StructuralDecodeError)
    }
}

fn read_aux(b: &[u8], pos: usize) -> (r: Result<(crate::aux_data::AuxEntry, usize), Error>)
    requires
        pos <= b@.len(),
    ensures
        match r {
            Ok((v, end)) => pos <= end <= b@.len() && spec_parse_aux(b@.skip(pos as int))
                == Ok::<(AuxEntryV, Seq<u8>), Error>((v@, b@.skip(end as int))),
            Err(e) => spec_parse_aux(b@.skip(pos as int)) == Err::<(AuxEntryV, Seq<u8>), Error>(
                e,
            ),
        },
{
    proof {
        reveal(spec_parse_aux);
    }
    let (key, p1) = match crate::wire::read_string_field(b, pos) {
        Ok(v) => v,
        Err(e) => {
            return Err(e);
        },
    };
    let (value, p2) = match crate::wire::read_bytes_field(b, p1) {
        Ok(v) => v,
        Err(e) => {
            return Err(e);
        },
    };
    Ok((crate::aux_data::AuxEntry { key, value }, p2))
}

/// Parse a count-prefixed auxiliary-data list.
fn read_aux_list(b: &[u8], pos: usize) -> (r: Result<(Vec<crate::aux_data::AuxEntry>, usize), Error>)
    requires
        pos <= b@.len(),
    ensures
        match r {
            Ok((v, end)) => pos <= end <= b@.len() && (match spec_parse_varint(
                b@.skip(pos as int),
                10,
            ) {
                Ok((n, rr)) => spec_parse_list(rr, n as nat, |t: Seq<u8>| spec_parse_aux(t))
                    == Ok::<(Seq<AuxEntryV>, Seq<u8>), Error>(
                    (crate::aux_data::aux_view(v@), b@.skip(end as int)),
                ),
                Err(e) => false,
            }),
            Err(e) => (match spec_parse_varint(b@.skip(pos as int), 10) {
                Ok((n, rr)) => spec_parse_list(rr, n as nat, |t: Seq<u8>| spec_parse_aux(t))
                    == Err::<(Seq<AuxEntryV>, Seq<u8>), Error>(e),
                Err(e2) => e == e2,
            }),
        },
{
    let ghost pa = |t: Seq<u8>| spec_parse_aux(t);
    let (n, p0) = match crate::wire::read_varint(b, pos) {
        Ok(v) => v,
        Err(e) => {
            return Err(e);
        },
    };
    let mut out: Vec<crate::aux_data::AuxEntry> = Vec::new();
    let mut cur: usize = p0;
    let mut k: u64 = 0;
    proof {
        assert(crate::aux_data::aux_view(out@) =~= Seq::<AuxEntryV>::empty());
    }
    while k < n
        invariant
            pos <= p0 <= cur,
            cur <= b@.len(),
            k <= n,
            spec_parse_varint(b@.skip(pos as int), 10) == Ok::<(u64, Seq<u8>), Error>(
                (n, b@.skip(p0 as int)),
            ),
            crate::aux_data::aux_view(out@).len() == k,
            pa == (|t: Seq<u8>| spec_parse_aux(t)),
            spec_parse_list(b@.skip(p0 as int), n as nat, pa) == (match spec_parse_list(
                b@.skip(cur as int),
                (n - k) as nat,
                pa,
            ) {
                Ok((xs, rr)) => Ok::<(Seq<AuxEntryV>, Seq<u8>), Error>(
                    (crate::aux_data::aux_view(out@) + xs, rr),
                ),
                Err(e) => Err(e),
            }),
        decreases n - k,
    {
        match read_aux(b, cur) {
            Ok((entry, end)) => {
                proof {
                    let tail = spec_parse_list(b@.skip(end as int), (n - k - 1) as nat, pa);
                    match tail {
                        Ok((xs, rr)) => {
                            assert(crate::aux_data::aux_view(out@) + (seq![entry@] + xs)
                                =~= crate::aux_data::aux_view(out@.push(entry)) + xs);
                        },
                        Err(e) => {},
                    }
                }
                out.push(entry);
                cur = end;
                k = k + 1;
            },
            Err(e) => {
                proof {
                    assert(pa(b@.skip(cur as int)) == spec_parse_aux(b@.skip(cur as int)));
                    assert(spec_parse_list(b@.skip(cur as int), (n - k) as nat, pa) == Err::<
                        (Seq<AuxEntryV>, Seq<u8>),
                        Error,
                    >(e));
                }
                return Err(e);
            },
        }
    }
    proof {
        assert(spec_parse_list(b@.skip(cur as int), 0, pa) == Ok::<
            (Seq<AuxEntryV>, Seq<u8>),
            Error,
        >((Seq::empty(), b@.skip(cur as int))));
        assert(crate::aux_data::aux_view(out@) + Seq::<AuxEntryV>::empty() =~= crate::aux_data::aux_view(out@));
    }
    Ok((out, cur))
}



/// Parse a count-prefixed list of block records.
fn read_block_list(b: &[u8], pos: usize) -> (r: Result<(Vec<Block>, usize), Error>)
    requires
        pos <= b@.len(),
    ensures
        match r {
            Ok((v, end)) => pos <= end <= b@.len() && (match spec_parse_varint(
                b@.skip(pos as int),
                10,
            ) {
                Ok((n, rr)) => spec_parse_list(rr, n as nat, |t: Seq<u8>| spec_parse_block(t)) == Ok::<
                    (Seq<Block>, Seq<u8>),
                    Error,
                >((v@, b@.skip(end as int))),
                Err(e) => false,
            }),
            Err(e) => (match spec_parse_varint(b@.skip(pos as int), 10) {
                Ok((n, rr)) => spec_parse_list(rr, n as nat, |t: Seq<u8>| spec_parse_block(t)) == Err::<
                    (Seq<Block>, Seq<u8>),
                    Error,
                >(e),
                Err(e2) => e == e2,
            }),
        },
{
    let ghost pa = |t: Seq<u8>| spec_parse_block(t);
    let (n, p0) = match crate::wire::read_varint(b, pos) {
        Ok(v) => v,
        Err(e) => {
            return Err(e);
        },
    };
    let mut out: Vec<Block> = Vec::new();
    let mut cur: usize = p0;
    let mut k: u64 = 0;
    proof {
        assert(out@ =~= Seq::<Block>::empty());
    }
    while k < n
        invariant
            pos <= p0 <= cur,
            cur <= b@.len(),
            k <= n,
            spec_parse_varint(b@.skip(pos as int), 10) == Ok::<(u64, Seq<u8>), Error>(
                (n, b@.skip(p0 as int)),
            ),
            out@.len() == k,
            pa == (|t: Seq<u8>| spec_parse_block(t)),
            spec_parse_list(b@.skip(p0 as int), n as nat, pa) == (match spec_parse_list(
                b@.skip(cur as int),
                (n - k) as nat,
                pa,
            ) {
                Ok((xs, rr)) => Ok::<(Seq<Block>, Seq<u8>), Error>((out@ + xs, rr)),
                Err(e) => Err(e),
            }),
        decreases n - k,
    {
        match read_block(b, cur) {
            Ok((entry, end)) => {
                proof {
                    let tail = spec_parse_list(b@.skip(end as int), (n - k - 1) as nat, pa);
                    match tail {
                        Ok((xs, rr)) => {
                            assert(out@ + (seq![entry] + xs) =~= out@.push(entry) + xs);
                        },
                        Err(e) => {},
                    }
                }
                out.push(entry);
                cur = end;
                k = k + 1;
            },
            Err(e) => {
                proof {
                    assert(pa(b@.skip(cur as int)) == spec_parse_block(b@.skip(cur as int)));
                    assert(spec_parse_list(b@.skip(cur as int), (n - k) as nat, pa) == Err::<
                        (Seq<Block>, Seq<u8>),
                        Error,
                    >(e));
                }
                return Err(e);
            },
        }
    }
    proof {
        assert(spec_parse_list(b@.skip(cur as int), 0, pa) == Ok::<(Seq<Block>, Seq<u8>), Error>(
            (Seq::empty(), b@.skip(cur as int)),
        ));
        assert(out@ + Seq::<Block>::empty() =~= out@);
    }
    Ok((out, cur))
}

/// Parse a count-prefixed list of symbolic-expression records.
fn read_symexpr_entry_list(b: &[u8], pos: usize) -> (r: Result<(Vec<(u64, SymbolicExpression)>, usize), Error>)
    requires
        pos <= b@.len(),
    ensures
        match r {
            Ok((v, end)) => pos <= end <= b@.len() && (match spec_parse_varint(
                b@.skip(pos as int),
                10,
            ) {
                Ok((n, rr)) => spec_parse_list(rr, n as nat, |t: Seq<u8>| spec_parse_symexpr_entry(t)) == Ok::<
                    (Seq<(u64, SymbolicExpression)>, Seq<u8>),
                    Error,
                >((v@, b@.skip(end as int))),
                Err(e) => false,
            }),
            Err(e) => (match spec_parse_varint(b@.skip(pos as int), 10) {
                Ok((n, rr)) => spec_parse_list(rr, n as nat, |t: Seq<u8>| spec_parse_symexpr_entry(t)) == Err::<
                    (Seq<(u64, SymbolicExpression)>, Seq<u8>),
                    Error,
                >(e),
                Err(e2) => e == e2,
            }),
        },
{
    let ghost pa = |t: Seq<u8>| spec_parse_symexpr_entry(t);
    let (n, p0) = match crate::wire::read_varint(b, pos) {
        Ok(v) => v,
        Err(e) => {
            return Err(e);
        },
    };
    let mut out: Vec<(u64, SymbolicExpression)> = Vec::new();
    let mut cur: usize = p0;
    let mut k: u64 = 0;
    proof {
        assert(out@ =~= Seq::<(u64, SymbolicExpression)>::empty());
    }
    while k < n
        invariant
            pos <= p0 <= cur,
            cur <= b@.len(),
            k <= n,
            spec_parse_varint(b@.skip(pos as int), 10) == Ok::<(u64, Seq<u8>), Error>(
                (n, b@.skip(p0 as int)),
            ),
            out@.len() == k,
            pa == (|t: Seq<u8>| spec_parse_symexpr_entry(t)),
            spec_parse_list(b@.skip(p0 as int), n as nat, pa) == (match spec_parse_list(
                b@.skip(cur as int),
                (n - k) as nat,
                pa,
            ) {
                Ok((xs, rr)) => Ok::<(Seq<(u64, SymbolicExpression)>, Seq<u8>), Error>((out@ + xs, rr)),
                Err(e) => Err(e),
            }),
        decreases n - k,
    {
        match read_symexpr_entry(b, cur) {
            Ok((entry, end)) => {
                proof {
                    let tail = spec_parse_list(b@.skip(end as int), (n - k - 1) as nat, pa);
                    match tail {
                        Ok((xs, rr)) => {
                            assert(out@ + (seq![entry] + xs) =~= out@.push(entry) + xs);
                        },
                        Err(e) => {},
                    }
                }
                out.push(entry);
                cur = end;
                k = k + 1;
            },
            Err(e) => {
                proof {
                    assert(pa(b@.skip(cur as int)) == spec_parse_symexpr_entry(b@.skip(cur as int)));
                    assert(spec_parse_list(b@.skip(cur as int), (n - k) as nat, pa) == Err::<
                        (Seq<(u64, SymbolicExpression)>, Seq<u8>),
                        Error,
                    >(e));
                }
                return Err(e);
            },
        }
    }
    proof {
        assert(spec_parse_list(b@.skip(cur as int), 0, pa) == Ok::<(Seq<(u64, SymbolicExpression)>, Seq<u8>), Error>(
            (Seq::empty(), b@.skip(cur as int)),
        ));
        assert(out@ + Seq::<(u64, SymbolicExpression)>::empty() =~= out@);
    }
    Ok((out, cur))
}

/// Parse a count-prefixed list of symbol records.
fn read_symbol_list(b: &[u8], pos: usize) -> (r: Result<(Vec<crate::proto::Symbol>, usize), Error>)
    requires
        pos <= b@.len(),
    ensures
        match r {
            Ok((v, end)) => pos <= end <= b@.len() && (match spec_parse_varint(
                b@.skip(pos as int),
                10,
            ) {
                Ok((n, rr)) => spec_parse_list(rr, n as nat, |t: Seq<u8>| spec_parse_symbol(t)) == Ok::<
                    (Seq<SymbolV>, Seq<u8>),
                    Error,
                >((v@.map_values(|x: crate::proto::Symbol| x@), b@.skip(end as int))),
                Err(e) => false,
            }),
            Err(e) => (match spec_parse_varint(b@.skip(pos as int), 10) {
                Ok((n, rr)) => spec_parse_list(rr, n as nat, |t: Seq<u8>| spec_parse_symbol(t)) == Err::<
                    (Seq<SymbolV>, Seq<u8>),
                    Error,
                >(e),
                Err(e2) => e == e2,
            }),
        },
{
    let ghost pa = |t: Seq<u8>| spec_parse_symbol(t);
    let (n, p0) = match crate::wire::read_varint(b, pos) {
        Ok(v) => v,
        Err(e) => {
            return Err(e);
        },
    };
    let mut out: Vec<crate::proto::Symbol> = Vec::new();
    let mut cur: usize = p0;
    let mut k: u64 = 0;
    proof {
        assert(out@.map_values(|x: crate::proto::Symbol| x@) =~= Seq::<SymbolV>::empty());
    }
    while k < n
        invariant
            pos <= p0 <= cur,
            cur <= b@.len(),
            k <= n,
            spec_parse_varint(b@.skip(pos as int), 10) == Ok::<(u64, Seq<u8>), Error>(
                (n, b@.skip(p0 as int)),
            ),
            out@.map_values(|x: crate::proto::Symbol| x@).len() == k,
            pa == (|t: Seq<u8>| spec_parse_symbol(t)),
            spec_parse_list(b@.skip(p0 as int), n as nat, pa) == (match spec_parse_list(
                b@.skip(cur as int),
                (n - k) as nat,
                pa,
            ) {
                Ok((xs, rr)) => Ok::<(Seq<SymbolV>, Seq<u8>), Error>((out@.map_values(|x: crate::proto::Symbol| x@) + xs, rr)),
                Err(e) => Err(e),
            }),
        decreases n - k,
    {
        match read_symbol(b, cur) {
            Ok((entry, end)) => {
                proof {
                    let tail = spec_parse_list(b@.skip(end as int), (n - k - 1) as nat, pa);
                    match tail {
                        Ok((xs, rr)) => {
                            assert(out@.map_values(|x: crate::proto::Symbol| x@) + (seq![entry@] + xs) =~= out@.push(entry).map_values(|x: crate::proto::Symbol| x@) + xs);
                        },
                        Err(e) => {},
                    }
                }
                out.push(entry);
                cur = end;
                k = k + 1;
            },
            Err(e) => {
                proof {
                    assert(pa(b@.skip(cur as int)) == spec_parse_symbol(b@.skip(cur as int)));
                    assert(spec_parse_list(b@.skip(cur as int), (n - k) as nat, pa) == Err::<
                        (Seq<SymbolV>, Seq<u8>),
                        Error,
                    >(e));
                }
                return Err(e);
            },
        }
    }
    proof {
        assert(spec_parse_list(b@.skip(cur as int), 0, pa) == Ok::<(Seq<SymbolV>, Seq<u8>), Error>(
            (Seq::empty(), b@.skip(cur as int)),
        ));
        assert(out@.map_values(|x: crate::proto::Symbol| x@) + Seq::<SymbolV>::empty() =~= out@.map_values(|x: crate::proto::Symbol| x@));
    }
    Ok((out, cur))
}

/// Parse a count-prefixed list of section-flag records.
fn read_flag_list(b: &[u8], pos: usize) -> (r: Result<(Vec<u64>, usize), Error>)
    requires
        pos <= b@.len(),
    ensures
        match r {
            Ok((v, end)) => pos <= end <= b@.len() && (match spec_parse_varint(
                b@.skip(pos as int),
                10,
            ) {
                Ok((n, rr)) => spec_parse_list(rr, n as nat, |t: Seq<u8>| spec_parse_flag(t)) == Ok::<
                    (Seq<u64>, Seq<u8>),
                    Error,
                >((v@, b@.skip(end as int))),
                Err(e) => false,
            }),
            Err(e) => (match spec_parse_varint(b@.skip(pos as int), 10) {
                Ok((n, rr)) => spec_parse_list(rr, n as nat, |t: Seq<u8>| spec_parse_flag(t)) == Err::<
                    (Seq<u64>, Seq<u8>),
                    Error,
                >(e),
                Err(e2) => e == e2,
            }),
        },
{
    let ghost pa = |t: Seq<u8>| spec_parse_flag(t);
    let (n, p0) = match crate::wire::read_varint(b, pos) {
        Ok(v) => v,
        Err(e) => {
            return Err(e);
        },
    };
    let mut out: Vec<u64> = Vec::new();
    let mut cur: usize = p0;
    let mut k: u64 = 0;
    proof {
        assert(out@ =~= Seq::<u64>::empty());
    }
    while k < n
        invariant
            pos <= p0 <= cur,
            cur <= b@.len(),
            k <= n,
            spec_parse_varint(b@.skip(pos as int), 10) == Ok::<(u64, Seq<u8>), Error>(
                (n, b@.skip(p0 as int)),
            ),
            out@.len() == k,
            pa == (|t: Seq<u8>| spec_parse_flag(t)),
            spec_parse_list(b@.skip(p0 as int), n as nat, pa) == (match spec_parse_list(
                b@.skip(cur as int),
                (n - k) as nat,
                pa,
            ) {
                Ok((xs, rr)) => Ok::<(Seq<u64>, Seq<u8>), Error>((out@ + xs, rr)),
                Err(e) => Err(e),
            }),
        decreases n - k,
    {
        match crate::wire::read_varint(b, cur) {
            Ok((entry, end)) => {
                proof {
                    assert(spec_parse_flag(b@.skip(cur as int)) == spec_parse_varint(b@.skip(cur as int), 10));
                    let tail = spec_parse_list(b@.skip(end as int), (n - k - 1) as nat, pa);
                    match tail {
                        Ok((xs, rr)) => {
                            assert(out@ + (seq![entry] + xs) =~= out@.push(entry) + xs);
                        },
                        Err(e) => {},
                    }
                }
                out.push(entry);
                cur = end;
                k = k + 1;
            },
            Err(e) => {
                proof {
                    assert(pa(b@.skip(cur as int)) == spec_parse_flag(b@.skip(cur as int)));
                    assert(spec_parse_list(b@.skip(cur as int), (n - k) as nat, pa) == Err::<
                        (Seq<u64>, Seq<u8>),
                        Error,
                    >(e));
                }
                return Err(e);
            },
        }
    }
    proof {
        assert(spec_parse_list(b@.skip(cur as int), 0, pa) == Ok::<(Seq<u64>, Seq<u8>), Error>(
            (Seq::empty(), b@.skip(cur as int)),
        ));
        assert(out@ + Seq::<u64>::empty() =~= out@);
    }
    Ok((out, cur))
}

/// Parse a count-prefixed list of proxy-block records.
fn read_proxy_list(b: &[u8], pos: usize) -> (r: Result<(Vec<u128>, usize), Error>)
    requires
        pos <= b@.len(),
    ensures
        match r {
            Ok((v, end)) => pos <= end <= b@.len() && (match spec_parse_varint(
                b@.skip(pos as int),
                10,
            ) {
                Ok((n, rr)) => spec_parse_list(rr, n as nat, |t: Seq<u8>| spec_parse_proxy(t)) == Ok::<
                    (Seq<u128>, Seq<u8>),
                    Error,
                >((v@, b@.skip(end as int))),
                Err(e) => false,
            }),
            Err(e) => (match spec_parse_varint(b@.skip(pos as int), 10) {
                Ok((n, rr)) => spec_parse_list(rr, n as nat, |t: Seq<u8>| spec_parse_proxy(t)) == Err::<
                    (Seq<u128>, Seq<u8>),
                    Error,
                >(e),
                Err(e2) => e == e2,
            }),
        },
{
    let ghost pa = |t: Seq<u8>| spec_parse_proxy(t);
    let (n, p0) = match crate::wire::read_varint(b, pos) {
        Ok(v) => v,
        Err(e) => {
            return Err(e);
        },
    };
    let mut out: Vec<u128> = Vec::new();
    let mut cur: usize = p0;
    let mut k: u64 = 0;
    proof {
        assert(out@ =~= Seq::<u128>::empty());
    }
    while k < n
        invariant
            pos <= p0 <= cur,
            cur <= b@.len(),
            k <= n,
            spec_parse_varint(b@.skip(pos as int), 10) == Ok::<(u64, Seq<u8>), Error>(
                (n, b@.skip(p0 as int)),
            ),
            out@.len() == k,
            pa == (|t: Seq<u8>| spec_parse_proxy(t)),
            spec_parse_list(b@.skip(p0 as int), n as nat, pa) == (match spec_parse_list(
                b@.skip(cur as int),
                (n - k) as nat,
                pa,
            ) {
                Ok((xs, rr)) => Ok::<(Seq<u128>, Seq<u8>), Error>((out@ + xs, rr)),
                Err(e) => Err(e),
            }),
        decreases n - k,
    {
        match crate::wire::read_uuid_field(b, cur) {
            Ok((entry, end)) => {
                proof {
                    assert(spec_parse_proxy(b@.skip(cur as int)) == spec_parse_uuid_field(b@.skip(cur as int)));
                    let tail = spec_parse_list(b@.skip(end as int), (n - k - 1) as nat, pa);
                    match tail {
                        Ok((xs, rr)) => {
                            assert(out@ + (seq![entry] + xs) =~= out@.push(entry) + xs);
                        },
                        Err(e) => {},
                    }
                }
                out.push(entry);
                cur = end;
                k = k + 1;
            },
            Err(e) => {
                proof {
                    assert(pa(b@.skip(cur as int)) == spec_parse_proxy(b@.skip(cur as int)));
                    assert(spec_parse_list(b@.skip(cur as int), (n - k) as nat, pa) == Err::<
                        (Seq<u128>, Seq<u8>),
                        Error,
                    >(e));
                }
                return Err(e);
            },
        }
    }
    proof {
        assert(spec_parse_list(b@.skip(cur as int), 0, pa) == Ok::<(Seq<u128>, Seq<u8>), Error>(
            (Seq::empty(), b@.skip(cur as int)),
        ));
        assert(out@ + Seq::<u128>::empty() =~= out@);
    }
    Ok((out, cur))
}

/// Parse one byte-interval record.
#[verifier::rlimit(100)]
#[verifier::spinoff_prover]
fn read_interval(b: &[u8], pos: usize) -> (r: Result<(crate::proto::ByteInterval, usize), Error>)
    requires
        pos <= b@.len(),
    ensures
        match r {
            Ok((v, end)) => pos <= end <= b@.len() && spec_parse_interval(b@.skip(pos as int))
                == Ok::<(ByteIntervalV, Seq<u8>), Error>((v@, b@.skip(end as int))),
            Err(e) => spec_parse_interval(b@.skip(pos as int)) == Err::<
                (ByteIntervalV, Seq<u8>),
                Error,
            >(e),
        },
{
    proof {
        reveal(spec_parse_interval);
        reveal(spec_parse_interval_tail);
    }
    let (uuid, p1) = match crate::wire::read_uuid_field(b, pos) {
        Ok(v) => v,
        Err(e) => {
            return Err(e);
        },
    };
    let (has_address, p2) = match crate::wire::read_bool_field(b, p1) {
        Ok(v) => v,
        Err(e) => {
            return Err(e);
        },
    };
    let (address, p3) = match crate::wire::read_varint(b, p2) {
        Ok(v) => v,
        Err(e) => {
            return Err(e);
        },
    };
    let (size, p4) = match crate::wire::read_varint(b, p3) {
        Ok(v) => v,
        Err(e) => {
            return Err(e);
        },
    };
    let (contents, p5) = match crate::wire::read_bytes_field(b, p4) {
        Ok(v) => v,
        Err(e) => {
            return Err(e);
        },
    };
    let (blocks, p6) = match read_block_list(b, p5) {
        Ok(v) => v,
        Err(e) => {
            return Err(e);
        },
    };
    let (symexprs, p7) = match read_symexpr_entry_list(b, p6) {
        Ok(v) => v,
        Err(e) => {
            return Err(e);
        },
    };
    Ok(
        (
            crate::proto::ByteInterval {
                uuid,
                blocks,
                has_address,
                address,
                size,
                contents,
                symbolic_expressions: symexprs,
            },
            p7,
        ),
    )
}

/// Parse a count-prefixed list of byte-interval records.
fn read_interval_list(b: &[u8], pos: usize) -> (r: Result<
    (Vec<crate::proto::ByteInterval>, usize),
    Error,
>)
    requires
        pos <= b@.len(),
    ensures
        match r {
            Ok((v, end)) => pos <= end <= b@.len() && (match spec_parse_varint(
                b@.skip(pos as int),
                10,
            ) {
                Ok((n, rr)) => spec_parse_list(rr, n as nat, |t: Seq<u8>| spec_parse_interval(t))
                    == Ok::<(Seq<ByteIntervalV>, Seq<u8>), Error>(
                    (v@.map_values(|x: crate::proto::ByteInterval| x@), b@.skip(end as int)),
                ),
                Err(e) => false,
            }),
            Err(e) => (match spec_parse_varint(b@.skip(pos as int), 10) {
                Ok((n, rr)) => spec_parse_list(rr, n as nat, |t: Seq<u8>| spec_parse_interval(t))
                    == Err::<(Seq<ByteIntervalV>, Seq<u8>), Error>(e),
                Err(e2) => e == e2,
            }),
        },
{
    let ghost pa = |t: Seq<u8>| spec_parse_interval(t);
    let (n, p0) = match crate::wire::read_varint(b, pos) {
        Ok(v) => v,
        Err(e) => {
            return Err(e);
        },
    };
    let mut out: Vec<crate::proto::ByteInterval> = Vec::new();
    let mut cur: usize = p0;
    let mut k: u64 = 0;
    proof {
        assert(out@.map_values(|x: crate::proto::ByteInterval| x@) =~= Seq::<
            ByteIntervalV,
        >::empty());
    }
    while k < n
        invariant
            pos <= p0 <= cur,
            cur <= b@.len(),
            k <= n,
            spec_parse_varint(b@.skip(pos as int), 10) == Ok::<(u64, Seq<u8>), Error>(
                (n, b@.skip(p0 as int)),
            ),
            out@.map_values(|x: crate::proto::ByteInterval| x@).len() == k,
            pa == (|t: Seq<u8>| spec_parse_interval(t)),
            spec_parse_list(b@.skip(p0 as int), n as nat, pa) == (match spec_parse_list(
                b@.skip(cur as int),
                (n - k) as nat,
                pa,
            ) {
                Ok((xs, rr)) => Ok::<(Seq<ByteIntervalV>, Seq<u8>), Error>(
                    (out@.map_values(|x: crate::proto::ByteInterval| x@) + xs, rr),
                ),
                Err(e) => Err(e),
            }),
        decreases n - k,
    {
        match read_interval(b, cur) {
            Ok((entry, end)) => {
                proof {
                    let tail = spec_parse_list(b@.skip(end as int), (n - k - 1) as nat, pa);
                    match tail {
                        Ok((xs, rr)) => {
                            assert(out@.map_values(|x: crate::proto::ByteInterval| x@) + (
                            seq![entry@] + xs) =~= out@.push(entry).map_values(
                                |x: crate::proto::ByteInterval| x@,
                            ) + xs);
                        },
                        Err(e) => {},
                    }
                }
                out.push(entry);
                cur = end;
                k = k + 1;
            },
            Err(e) => {
                proof {
                    assert(pa(b@.skip(cur as int)) == spec_parse_interval(b@.skip(cur as int)));
                    assert(spec_parse_list(b@.skip(cur as int), (n - k) as nat, pa) == Err::<
                        (Seq<ByteIntervalV>, Seq<u8>),
                        Error,
                    >(e));
                }
                return Err(e);
            },
        }
    }
    proof {
        assert(spec_parse_list(b@.skip(cur as int), 0, pa) == Ok::<
            (Seq<ByteIntervalV>, Seq<u8>),
            Error,
        >((Seq::empty(), b@.skip(cur as int))));
        assert(out@.map_values(|x: crate::proto::ByteInterval| x@) + Seq::<
            ByteIntervalV,
        >::empty() =~= out@.map_values(|x: crate::proto::ByteInterval| x@));
    }
    Ok((out, cur))
}

/// Parse one section record.
#[verifier::rlimit(100)]
#[verifier::spinoff_prover]
fn read_section(b: &[u8], pos: usize) -> (r: Result<(crate::proto::Section, usize), Error>)
    requires
        pos <= b@.len(),
    ensures
        match r {
            Ok((v, end)) => pos <= end <= b@.len() && spec_parse_section(b@.skip(pos as int))
                == Ok::<(SectionV, Seq<u8>), Error>((v@, b@.skip(end as int))),
            Err(e) => spec_parse_section(b@.skip(pos as int)) == Err::<
                (SectionV, Seq<u8>),
                Error,
            >(e),
        },
{
    proof {
        reveal(spec_parse_section);
    }
    let (uuid, p1) = match crate::wire::read_uuid_field(b, pos) {
        Ok(v) => v,
        Err(e) => {
            return Err(e);
        },
    };
    let (name, p2) = match crate::wire::read_string_field(b, p1) {
        Ok(v) => v,
        Err(e) => {
            return Err(e);
        },
    };
    let (section_flags, p3) = match read_flag_list(b, p2) {
        Ok(v) => v,
        Err(e) => {
            return Err(e);
        },
    };
    let (byte_intervals, p4) = match read_interval_list(b, p3) {
        Ok(v) => v,
        Err(e) => {
            return Err(e);
        },
    };
    Ok((crate::proto::Section { uuid, name, section_flags, byte_intervals }, p4))
}


/// Parse a count-prefixed list of records.
fn read_section_list(b: &[u8], pos: usize) -> (r: Result<(Vec<crate::proto::Section>, usize), Error>)
    requires
        pos <= b@.len(),
    ensures
        match r {
            Ok((v, end)) => pos <= end <= b@.len() && (match spec_parse_varint(
                b@.skip(pos as int),
                10,
            ) {
                Ok((n, rr)) => spec_parse_list(rr, n as nat, |t: Seq<u8>| spec_parse_section(t)) == Ok::<
                    (Seq<SectionV>, Seq<u8>),
                    Error,
                >((v@.map_values(|x: crate::proto::Section| x@), b@.skip(end as int))),
                Err(e) => false,
            }),
            Err(e) => (match spec_parse_varint(b@.skip(pos as int), 10) {
                Ok((n, rr)) => spec_parse_list(rr, n as nat, |t: Seq<u8>| spec_parse_section(t)) == Err::<
                    (Seq<SectionV>, Seq<u8>),
                    Error,
                >(e),
                Err(e2) => e == e2,
            }),
        },
{
    let ghost pa = |t: Seq<u8>| spec_parse_section(t);
    let (n, p0) = match crate::wire::read_varint(b, pos) {
        Ok(v) => v,
        Err(e) => {
            return Err(e);
        },
    };
    let mut out: Vec<crate::proto::Section> = Vec::new();
    let mut cur: usize = p0;
    let mut k: u64 = 0;
    proof {
        assert(out@.map_values(|x: crate::proto::Section| x@) =~= Seq::<SectionV>::empty());
    }
    while k < n
        invariant
            pos <= p0 <= cur,
            cur <= b@.len(),
            k <= n,
            spec_parse_varint(b@.skip(pos as int), 10) == Ok::<(u64, Seq<u8>), Error>(
                (n, b@.skip(p0 as int)),
            ),
            out@.map_values(|x: crate::proto::Section| x@).len() == k,
            pa == (|t: Seq<u8>| spec_parse_section(t)),
            spec_parse_list(b@.skip(p0 as int), n as nat, pa) == (match spec_parse_list(
                b@.skip(cur as int),
                (n - k) as nat,
                pa,
            ) {
                Ok((xs, rr)) => Ok::<(Seq<SectionV>, Seq<u8>), Error>(
                    (out@.map_values(|x: crate::proto::Section| x@) + xs, rr),
                ),
                Err(e) => Err(e),
            }),
        decreases n - k,
    {
        match read_section(b, cur) {
            Ok((entry, end)) => {
                proof {
                    let tail = spec_parse_list(b@.skip(end as int), (n - k - 1) as nat, pa);
                    match tail {
                        Ok((xs, rr)) => {
                            assert(out@.map_values(|x: crate::proto::Section| x@) + (seq![entry@] + xs)
                                =~= out@.push(entry).map_values(|x: crate::proto::Section| x@) + xs);
                        },
                        Err(e) => {},
                    }
                }
                out.push(entry);
                cur = end;
                k = k + 1;
            },
            Err(e) => {
                proof {
                    assert(pa(b@.skip(cur as int)) == spec_parse_section(b@.skip(cur as int)));
                    assert(spec_parse_list(b@.skip(cur as int), (n - k) as nat, pa) == Err::<
                        (Seq<SectionV>, Seq<u8>),
                        Error,
                    >(e));
                }
                return Err(e);
            },
        }
    }
    proof {
        assert(spec_parse_list(b@.skip(cur as int), 0, pa) == Ok::<(Seq<SectionV>, Seq<u8>), Error>(
            (Seq::empty(), b@.skip(cur as int)),
        ));
        assert(out@.map_values(|x: crate::proto::Section| x@) + Seq::<SectionV>::empty() =~= out@.map_values(
            |x: crate::proto::Section| x@,
        ));
    }
    Ok((out, cur))
}

/// Parse one module record.
#[verifier::rlimit(100)]
#[verifier::spinoff_prover]
fn read_module(b: &[u8], pos: usize) -> (r: Result<(crate::proto::Module, usize), Error>)
    requires
        pos <= b@.len(),
    ensures
        match r {
            Ok((v, end)) => pos <= end <= b@.len() && spec_parse_module(b@.skip(pos as int))
                == Ok::<(ModuleV, Seq<u8>), Error>((v@, b@.skip(end as int))),
            Err(e) => spec_parse_module(b@.skip(pos as int)) == Err::<(ModuleV, Seq<u8>), Error>(
                e,
            ),
        },
{
    proof {
        reveal(spec_parse_module);
        reveal(spec_parse_module_mid);
        reveal(spec_parse_module_tail);
        reveal(spec_parse_module_tail2);
    }
    let (uuid, p1) = match crate::wire::read_uuid_field(b, pos) {
        Ok(v) => v,
        Err(e) => {
            return Err(e);
        },
    };
    let (name, p2) = match crate::wire::read_string_field(b, p1) {
        Ok(v) => v,
        Err(e) => {
            return Err(e);
        },
    };
    let (binary_path, p3) = match crate::wire::read_string_field(b, p2) {
        Ok(v) => v,
        Err(e) => {
            return Err(e);
        },
    };
    let (preferred_addr, p4) = match crate::wire::read_varint(b, p3) {
        Ok(v) => v,
        Err(e) => {
            return Err(e);
        },
    };
    let (rebase_delta, p5) = match crate::wire::read_i64_field(b, p4) {
        Ok(v) => v,
        Err(e) => {
            return Err(e);
        },
    };
    let (file_format, p6) = match crate::wire::read_varint(b, p5) {
        Ok(v) => v,
        Err(e) => {
            return Err(e);
        },
    };
    let (isa, p7) = match crate::wire::read_varint(b, p6) {
        Ok(v) => v,
        Err(e) => {
            return Err(e);
        },
    };
    let (byte_order, p8) = match crate::wire::read_varint(b, p7) {
        Ok(v) => v,
        Err(e) => {
            return Err(e);
        },
    };
    let (has_entry, p9) = match crate::wire::read_bool_field(b, p8) {
        Ok(v) => v,
        Err(e) => {
            return Err(e);
        },
    };
    let (entry_point, p10) = if has_entry {
        match crate::wire::read_uuid_field(b, p9) {
            Ok((u, p)) => (Some(u), p),
            Err(e) => {
                return Err(e);
            },
        }
    } else {
        (None, p9)
    };
    let (symbols, p11) = match read_symbol_list(b, p10) {
        Ok(v) => v,
        Err(e) => {
            return Err(e);
        },
    };
    let (proxies, p12) = match read_proxy_list(b, p11) {
        Ok(v) => v,
        Err(e) => {
            return Err(e);
        },
    };
    let (sections, p13) = match read_section_list(b, p12) {
        Ok(v) => v,
        Err(e) => {
            return Err(e);
        },
    };
    let (aux_data, p14) = match read_aux_list(b, p13) {
        Ok(v) => v,
        Err(e) => {
            return Err(e);
        },
    };
    Ok(
        (
            crate::proto::Module {
                uuid,
                name,
                binary_path,
                preferred_addr,
                rebase_delta,
                file_format,
                isa,
                byte_order,
                entry_point,
                symbols,
                proxies,
                sections,
                aux_data,
            },
            p14,
        ),
    )
}

/// Parse a count-prefixed list of records.
fn read_module_list(b: &[u8], pos: usize) -> (r: Result<(Vec<crate::proto::Module>, usize), Error>)
    requires
        pos <= b@.len(),
    ensures
        match r {
            Ok((v, end)) => pos <= end <= b@.len() && (match spec_parse_varint(
                b@.skip(pos as int),
                10,
            ) {
                Ok((n, rr)) => spec_parse_list(rr, n as nat, |t: Seq<u8>| spec_parse_module(t)) == Ok::<
                    (Seq<ModuleV>, Seq<u8>),
                    Error,
                >((v@.map_values(|x: crate::proto::Module| x@), b@.skip(end as int))),
                Err(e) => false,
            }),
            Err(e) => (match spec_parse_varint(b@.skip(pos as int), 10) {
                Ok((n, rr)) => spec_parse_list(rr, n as nat, |t: Seq<u8>| spec_parse_module(t)) == Err::<
                    (Seq<ModuleV>, Seq<u8>),
                    Error,
                >(e),
                Err(e2) => e == e2,
            }),
        },
{
    let ghost pa = |t: Seq<u8>| spec_parse_module(t);
    let (n, p0) = match crate::wire::read_varint(b, pos) {
        Ok(v) => v,
        Err(e) => {
            return Err(e);
        },
    };
    let mut out: Vec<crate::proto::Module> = Vec::new();
    let mut cur: usize = p0;
    let mut k: u64 = 0;
    proof {
        assert(out@.map_values(|x: crate::proto::Module| x@) =~= Seq::<ModuleV>::empty());
    }
    while k < n
        invariant
            pos <= p0 <= cur,
            cur <= b@.len(),
            k <= n,
            spec_parse_varint(b@.skip(pos as int), 10) == Ok::<(u64, Seq<u8>), Error>(
                (n, b@.skip(p0 as int)),
            ),
            out@.map_values(|x: crate::proto::Module| x@).len() == k,
            pa == (|t: Seq<u8>| spec_parse_module(t)),
            spec_parse_list(b@.skip(p0 as int), n as nat, pa) == (match spec_parse_list(
                b@.skip(cur as int),
                (n - k) as nat,
                pa,
            ) {
                Ok((xs, rr)) => Ok::<(Seq<ModuleV>, Seq<u8>), Error>(
                    (out@.map_values(|x: crate::proto::Module| x@) + xs, rr),
                ),
                Err(e) => Err(e),
            }),
        decreases n - k,
    {
        match read_module(b, cur) {
            Ok((entry, end)) => {
                proof {
                    let tail = spec_parse_list(b@.skip(end as int), (n - k - 1) as nat, pa);
                    match tail {
                        Ok((xs, rr)) => {
                            assert(out@.map_values(|x: crate::proto::Module| x@) + (seq![entry@] + xs)
                                =~= out@.push(entry).map_values(|x: crate::proto::Module| x@) + xs);
                        },
                        Err(e) => {},
                    }
                }
                out.push(entry);
                cur = end;
                k = k + 1;
            },
            Err(e) => {
                proof {
                    assert(pa(b@.skip(cur as int)) == spec_parse_module(b@.skip(cur as int)));
                    assert(spec_parse_list(b@.skip(cur as int), (n - k) as nat, pa) == Err::<
                        (Seq<ModuleV>, Seq<u8>),
                        Error,
                    >(e));
                }
                return Err(e);
            },
        }
    }
    proof {
        assert(spec_parse_list(b@.skip(cur as int), 0, pa) == Ok::<(Seq<ModuleV>, Seq<u8>), Error>(
            (Seq::empty(), b@.skip(cur as int)),
        ));
        assert(out@.map_values(|x: crate::proto::Module| x@) + Seq::<ModuleV>::empty() =~= out@.map_values(
            |x: crate::proto::Module| x@,
        ));
    }
    Ok((out, cur))
}

/// Parse one top-level record.
#[verifier::rlimit(100)]
#[verifier::spinoff_prover]
fn read_ir(b: &[u8], pos: usize) -> (r: Result<(crate::proto::Ir, usize), Error>)
    requires
        pos <= b@.len(),
    ensures
        match r {
            Ok((v, end)) => pos <= end <= b@.len() && spec_parse_ir(b@.skip(pos as int)) == Ok::<
                (IrV, Seq<u8>),
                Error,
            >((v@, b@.skip(end as int))),
            Err(e) => spec_parse_ir(b@.skip(pos as int)) == Err::<(IrV, Seq<u8>), Error>(e),
        },
{
    proof {
        reveal(spec_parse_ir);
    }
    let (uuid, p1) = match crate::wire::read_uuid_field(b, pos) {
        Ok(v) => v,
        Err(e) => {
            return Err(e);
        },
    };
    let (version, p2) = match crate::wire::read_varint(b, p1) {
        Ok(v) => v,
        Err(e) => {
            return Err(e);
        },
    };
    if version > u32::MAX as u64 {
        return Err(Error::StructuralDecodeError);
    }
    let (modules, p3) = match read_module_list(b, p2) {
        Ok(v) => v,
        Err(e) => {
            return Err(e);
        },
    };
    let (aux_data, p4) = match read_aux_list(b, p3) {
        Ok(v) => v,
        Err(e) => {
            return Err(e);
        },
    };
    Ok((crate::proto::Ir { uuid, version: version as u32, modules, aux_data }, p4))
}

/// Parse a whole file: the length prefix must cover exactly one top-level
/// record and nothing more.
pub fn read_file(b: &[u8]) -> (r: Result<crate::proto::Ir, Error>)
    ensures
        match r {
            Ok(v) => spec_parse_file(b@) == Ok::<IrV, Error>(v@),
            Err(e) => spec_parse_file(b@) == Err::<IrV, Error>(e),
        },
{
    proof {
        assert(b@.skip(0) =~= b@);
    }
    let (n, p0) = match crate::wire::read_varint(b, 0) {
        Ok(v) => v,
        Err(e) => {
            return Err(e);
        },
    };
    if n != (b.len() - p0) as u64 {
        return Err(Error::StructuralDecodeError);
    }
    let (msg, end) = match read_ir(b, p0) {
        Ok(v) => v,
        Err(e) => {
            return Err(e);
        },
    };
    if end != b.len() {
        proof {
            assert(b@.skip(end as int).len() != 0);
        }
        return Err(Error::StructuralDecodeError);
    }
    proof {
        assert(b@.skip(end as int).len() == 0);
    }
    Ok(msg)
}

/// Filtering keeps everything when the predicate holds everywhere, and
/// nothing when it holds nowhere.
proof fn lemma_filter_all<T>(s: Seq<T>, pred: spec_fn(T) -> bool)
    requires
        forall|i: int| 0 <= i < s.len() ==> pred(#[trigger] s[i]),
    ensures
        s.filter(pred) == s,
    decreases s.len(),
{
    reveal(Seq::filter);
    if s.len() > 0 {
        assert(forall|i: int|
            0 <= i < s.drop_last().len() ==> pred(#[trigger] s.drop_last()[i]));
        lemma_filter_all(s.drop_last(), pred);
        assert(pred(s[s.len() - 1]));
        assert(s.filter(pred) =~= s);
    }
}

proof fn lemma_filter_none<T>(s: Seq<T>, pred: spec_fn(T) -> bool)
    requires
        forall|i: int| 0 <= i < s.len() ==> !pred(#[trigger] s[i]),
    ensures
        s.filter(pred) == Seq::<T>::empty(),
    decreases s.len(),
{
    reveal(Seq::filter);
    if s.len() > 0 {
        assert(forall|i: int|
            0 <= i < s.drop_last().len() ==> !pred(#[trigger] s.drop_last()[i]));
        lemma_filter_none(s.drop_last(), pred);
        assert(!pred(s[s.len() - 1]));
    }
}

/// A live byte interval's record view is already canonical: its blocks
/// are grouped code-first and an absent address reads as zero.
pub proof fn lemma_interval_view_canonical(c: Context, i: u128)
    requires
        c.wf(),
        c.interval_live(i),
    ensures
        canon_interval(interval_msg_view(c, i)) == interval_msg_view(c, i),
{
    let v = interval_msg_view(c, i);
    let n = c.interval_nodes()[i];
    let a = n.code_blocks.map_values(|u: u128| code_block_rec_view(c, u));
    let b = n.data_blocks.map_values(|u: u128| data_block_rec_view(c, u));
    let pc = |blk: Block| blk.body is Code;
    let pd = |blk: Block| blk.body is Data;
    assert(forall|k: int| 0 <= k < a.len() ==> pc(#[trigger] a[k]));
    assert(forall|k: int| 0 <= k < a.len() ==> !pd(#[trigger] a[k]));
    assert(forall|k: int| 0 <= k < b.len() ==> pd(#[trigger] b[k]));
    assert(forall|k: int| 0 <= k < b.len() ==> !pc(#[trigger] b[k]));
    Seq::filter_distributes_over_add(a, b, pc);
    Seq::filter_distributes_over_add(a, b, pd);
    lemma_filter_all(a, pc);
    lemma_filter_none(b, pc);
    lemma_filter_all(b, pd);
    lemma_filter_none(a, pd);
    assert(spec_code_blocks(v.blocks) =~= a);
    assert(spec_data_blocks(v.blocks) =~= b);
    assert(canon_interval(v) == v);
}

/// A live section's record view is already canonical: its flag codes are
/// duplicate-free and its intervals canonical.
pub proof fn lemma_section_view_canonical(c: Context, s: u128)
    requires
        c.wf(),
        c.section_live(s),
    ensures
        canon_section(section_msg_view(c, s)) == section_msg_view(c, s),
{
    let v = section_msg_view(c, s);
    let n = c.section_nodes()[s];
    assert(n.inv());
    assert(c.section_node_ok(s));
    let codes = n.flags.map_values(
        |f: crate::tags::SectionFlag| crate::tags::spec_section_flag_code(f),
    );
    assert forall|i: int, j: int| 0 <= i < j < codes.len() implies codes[i] != codes[j] by {
        crate::tags::lemma_section_flag_round_trip(n.flags[i]);
        crate::tags::lemma_section_flag_round_trip(n.flags[j]);
    }
    assert(codes.no_duplicates());
    lemma_dedup_of_distinct(codes);
    assert forall|k: int| 0 <= k < n.byte_intervals.len() implies canon_interval(
        interval_msg_view(c, #[trigger] n.byte_intervals[k]),
    ) == interval_msg_view(c, n.byte_intervals[k]) by {
        assert(c.interval_child_ok(n.byte_intervals[k], s));
        lemma_interval_view_canonical(c, n.byte_intervals[k]);
    }
    assert(v.byte_intervals.map_values(|b: ByteIntervalV| canon_interval(b))
        =~= v.byte_intervals);
    assert(canon_section(v) == v);
}

/// A live module's record view is already canonical.
pub proof fn lemma_module_view_canonical(c: Context, m: u128)
    requires
        c.wf(),
        c.module_live(m),
    ensures
        canon_module(module_msg_view(c, m)) == module_msg_view(c, m),
{
    let v = module_msg_view(c, m);
    let n = c.module_nodes()[m];
    assert(c.module_node_ok(m));
    assert forall|k: int| 0 <= k < n.sections.len() implies canon_section(
        section_msg_view(c, #[trigger] n.sections[k]),
    ) == section_msg_view(c, n.sections[k]) by {
        assert(c.section_child_ok(n.sections[k], m));
        lemma_section_view_canonical(c, n.sections[k]);
    }
    assert(v.sections.map_values(|s: SectionV| canon_section(s)) =~= v.sections);
    assert(canon_module(v) == v);
}

/// A live tree's record view is already canonical: a decode of its
/// encoding reads back exactly this view.
pub proof fn lemma_ir_view_canonical(c: Context, u: u128)
    requires
        c.wf(),
        c.ir_live(u),
    ensures
        canon_ir(ir_msg_view(c, u)) == ir_msg_view(c, u),
{
    let v = ir_msg_view(c, u);
    let n = c.ir_nodes()[u];
    assert(c.ir_node_ok(u));
    assert forall|k: int| 0 <= k < n.modules.len() implies canon_module(
        module_msg_view(c, #[trigger] n.modules[k]),
    ) == module_msg_view(c, n.modules[k]) by {
        assert(c.module_child_ok(n.modules[k], u));
        lemma_module_view_canonical(c, n.modules[k]);
    }
    assert(v.modules.map_values(|m: ModuleV| canon_module(m)) =~= v.modules);
    assert(canon_ir(v) == v);
}

// Loading parsed records into a context, identifier checks included.
//
// Loading is deterministic: `spec_load_*` below mirror the checks the
// loaders make, record by record, threading the set of live identifiers,
// so that each loader can promise success (and each failure's kind)
// exactly.  `canon_*` give the record value a loaded tree reads back as:
// block records grouped code-first, flag lists deduplicated.

/// The set of identifiers live in a context.
pub open spec fn live_set(c: Context) -> Set<u128> {
    Set::new(|u: u128| c.live(u))
}

/// The code-bodied block records of a list, in order.
pub open spec fn spec_code_blocks(s: Seq<Block>) -> Seq<Block> {
    s.filter(|b: Block| b.body is Code)
}

/// The data-bodied block records of a list, in order.
pub open spec fn spec_data_blocks(s: Seq<Block>) -> Seq<Block> {
    s.filter(|b: Block| b.body is Data)
}

/// A list with later repetitions of a value removed, first occurrences
/// kept in order.
pub open spec fn spec_dedup(s: Seq<u64>) -> Seq<u64>
    decreases s.len(),
{
    if s.len() == 0 {
        s
    } else {
        let pre = spec_dedup(s.drop_last());
        if pre.contains(s.last()) {
            pre
        } else {
            pre.push(s.last())
        }
    }
}

/// Deduplication keeps exactly the values of the list.
pub proof fn lemma_dedup_contains(s: Seq<u64>, x: u64)
    ensures
        spec_dedup(s).contains(x) <==> s.contains(x),
    decreases s.len(),
{
    if s.len() > 0 {
        let dl = s.drop_last();
        let pre = spec_dedup(dl);
        lemma_dedup_contains(dl, x);
        if dl.contains(x) {
            let i = choose|i: int| 0 <= i < dl.len() && dl[i] == x;
            assert(s[i] == x);
        }
        if pre.contains(x) {
            let j = choose|j: int| 0 <= j < pre.len() && pre[j] == x;
            assert(pre.push(s.last())[j] == x);
        }
        if s.contains(x) {
            let i = choose|i: int| 0 <= i < s.len() && s[i] == x;
            if i < s.len() - 1 {
                assert(dl[i] == x);
            } else {
                assert(s.last() == x);
                if !pre.contains(x) {
                    assert(pre.push(s.last())[pre.len() as int] == x);
                }
            }
        }
        if !pre.contains(s.last()) && pre.push(s.last()).contains(x) {
            let j = choose|j: int| 0 <= j < pre.len() + 1 && pre.push(s.last())[j] == x;
            if j < pre.len() {
                assert(pre[j] == x);
            } else {
                assert(s[s.len() - 1] == x);
            }
        }
    }
}

/// A duplicate-free list deduplicates to itself.
pub proof fn lemma_dedup_of_distinct(s: Seq<u64>)
    requires
        s.no_duplicates(),
    ensures
        spec_dedup(s) == s,
    decreases s.len(),
{
    if s.len() > 0 {
        lemma_dedup_of_distinct(s.drop_last());
        if s.drop_last().contains(s.last()) {
            let i = choose|i: int|
                0 <= i < s.drop_last().len() && s.drop_last()[i] == s.last();
            assert(s[i] == s[s.len() - 1]);
        }
        assert(spec_dedup(s) =~= s);
    }
}

/// The record value a loaded byte interval reads back as: the same
/// record, its blocks grouped code-bodied first, the address zero when
/// none is carried.
pub open spec fn canon_interval(v: ByteIntervalV) -> ByteIntervalV {
    ByteIntervalV {
        blocks: spec_code_blocks(v.blocks) + spec_data_blocks(v.blocks),
        address: if v.has_address {
            v.address
        } else {
            0
        },
        ..v
    }
}

/// The record value a loaded section reads back as: flags deduplicated,
/// intervals canonical.
pub open spec fn canon_section(v: SectionV) -> SectionV {
    SectionV {
        section_flags: spec_dedup(v.section_flags),
        byte_intervals: v.byte_intervals.map_values(|b: ByteIntervalV| canon_interval(b)),
        ..v
    }
}

/// The record value a loaded module reads back as.
pub open spec fn canon_module(v: ModuleV) -> ModuleV {
    ModuleV { sections: v.sections.map_values(|s: SectionV| canon_section(s)), ..v }
}

/// The record value a loaded tree reads back as.
pub open spec fn canon_ir(v: IrV) -> IrV {
    IrV { modules: v.modules.map_values(|m: ModuleV| canon_module(m)), ..v }
}

/// The identifier of a block record.
pub open spec fn block_uuid(b: Block) -> u128 {
    match b.body {
        BlockBody::Code { uuid, .. } => uuid,
        BlockBody::Data { uuid, .. } => uuid,
    }
}

/// Sequentially admit a list of block records: each identifier must be
/// fresh.
pub open spec fn spec_load_blocks(live: Set<u128>, s: Seq<Block>) -> Result<Set<u128>, Error>
    decreases s.len(),
{
    if s.len() == 0 {
        Ok(live)
    } else if live.contains(block_uuid(s[0])) {
        Err(Error::StructuralDecodeError)
    } else {
        spec_load_blocks(live.insert(block_uuid(s[0])), s.drop_first())
    }
}

/// The symbolic-expression entries of a record are strictly ascending and
/// lie below the declared size.
pub open spec fn symexprs_admissible(s: Seq<(u64, SymbolicExpression)>, size: u64) -> bool {
    &&& (forall|i: int| 0 <= i < s.len() ==> (#[trigger] s[i]).0 < size)
    &&& (forall|i: int| 0 < i < s.len() ==> s[i - 1].0 < (#[trigger] s[i]).0)
}

/// Admit one byte-interval record: a fresh identifier, contents within
/// the declared size, admissible symbolic expressions, fresh blocks.
pub open spec fn spec_load_interval(live: Set<u128>, v: ByteIntervalV) -> Result<
    Set<u128>,
    Error,
> {
    if live.contains(v.uuid) {
        Err(Error::StructuralDecodeError)
    } else if v.contents.len() > v.size {
        Err(Error::InvalidSizes)
    } else if !symexprs_admissible(v.symbolic_expressions, v.size) {
        Err(Error::InvalidSizes)
    } else {
        spec_load_blocks(live.insert(v.uuid), v.blocks)
    }
}

/// Sequentially admit a list of byte-interval records.
pub open spec fn spec_load_intervals(live: Set<u128>, s: Seq<ByteIntervalV>) -> Result<
    Set<u128>,
    Error,
>
    decreases s.len(),
{
    if s.len() == 0 {
        Ok(live)
    } else {
        match spec_load_interval(live, s[0]) {
            Ok(live2) => spec_load_intervals(live2, s.drop_first()),
            Err(e) => Err(e),
        }
    }
}

/// Every section-flag code of the list is declared.
pub open spec fn spec_check_flags(s: Seq<u64>) -> Result<(), Error>
    decreases s.len(),
{
    if s.len() == 0 {
        Ok(())
    } else if crate::tags::spec_section_flag_from_code(s[0]) is None {
        Err(Error::UnknownEnum(crate::error::TagKind::SectionFlagTag))
    } else {
        spec_check_flags(s.drop_first())
    }
}

/// Admit one section record: a fresh identifier, declared flags, then its
/// intervals.
pub open spec fn spec_load_section(live: Set<u128>, v: SectionV) -> Result<Set<u128>, Error> {
    if live.contains(v.uuid) {
        Err(Error::StructuralDecodeError)
    } else {
        match spec_check_flags(v.section_flags) {
            Ok(()) => spec_load_intervals(live.insert(v.uuid), v.byte_intervals),
            Err(e) => Err(e),
        }
    }
}

/// Sequentially admit a list of section records.
pub open spec fn spec_load_sections(live: Set<u128>, s: Seq<SectionV>) -> Result<
    Set<u128>,
    Error,
>
    decreases s.len(),
{
    if s.len() == 0 {
        Ok(live)
    } else {
        match spec_load_section(live, s[0]) {
            Ok(live2) => spec_load_sections(live2, s.drop_first()),
            Err(e) => Err(e),
        }
    }
}

/// Admit one symbol record: a fresh identifier.
pub open spec fn spec_load_symbol(live: Set<u128>, v: SymbolV) -> Result<Set<u128>, Error> {
    if live.contains(v.uuid) {
        Err(Error::StructuralDecodeError)
    } else {
        Ok(live.insert(v.uuid))
    }
}

/// Sequentially admit a list of symbol records.
pub open spec fn spec_load_symbols(live: Set<u128>, s: Seq<SymbolV>) -> Result<Set<u128>, Error>
    decreases s.len(),
{
    if s.len() == 0 {
        Ok(live)
    } else {
        match spec_load_symbol(live, s[0]) {
            Ok(live2) => spec_load_symbols(live2, s.drop_first()),
            Err(e) => Err(e),
        }
    }
}

/// Sequentially admit a list of proxy-block records.
pub open spec fn spec_load_proxies(live: Set<u128>, s: Seq<u128>) -> Result<Set<u128>, Error>
    decreases s.len(),
{
    if s.len() == 0 {
        Ok(live)
    } else if live.contains(s[0]) {
        Err(Error::StructuralDecodeError)
    } else {
        spec_load_proxies(live.insert(s[0]), s.drop_first())
    }
}

/// Admit one module record: a fresh identifier, declared tags, then its
/// symbols, proxy blocks and sections, in that order.
pub open spec fn spec_load_module(live: Set<u128>, v: ModuleV) -> Result<Set<u128>, Error> {
    if live.contains(v.uuid) {
        Err(Error::StructuralDecodeError)
    } else if crate::tags::spec_file_format_from_code(v.file_format) is None {
        Err(Error::UnknownEnum(crate::error::TagKind::FileFormatTag))
    } else if crate::tags::spec_isa_from_code(v.isa) is None {
        Err(Error::UnknownEnum(crate::error::TagKind::IsaTag))
    } else if crate::tags::spec_byte_order_from_code(v.byte_order) is None {
        Err(Error::UnknownEnum(crate::error::TagKind::ByteOrderTag))
    } else {
        match spec_load_symbols(live.insert(v.uuid), v.symbols) {
            Ok(live2) => match spec_load_proxies(live2, v.proxies) {
                Ok(live3) => spec_load_sections(live3, v.sections),
                Err(e) => Err(e),
            },
            Err(e) => Err(e),
        }
    }
}

/// Sequentially admit a list of module records.
pub open spec fn spec_load_modules(live: Set<u128>, s: Seq<ModuleV>) -> Result<Set<u128>, Error>
    decreases s.len(),
{
    if s.len() == 0 {
        Ok(live)
    } else {
        match spec_load_module(live, s[0]) {
            Ok(live2) => spec_load_modules(live2, s.drop_first()),
            Err(e) => Err(e),
        }
    }
}

/// Admit a whole top-level record against the identifiers already live.
pub open spec fn spec_load_ir(live: Set<u128>, v: IrV) -> Result<Set<u128>, Error> {
    if live.contains(v.uuid) {
        Err(Error::StructuralDecodeError)
    } else {
        spec_load_modules(live.insert(v.uuid), v.modules)
    }
}


/// The registry only ever grows while records are loaded: every node live
/// before a load step is still live afterwards, unchanged.
pub open spec fn grows_only(c1: Context, c2: Context) -> bool {
    &&& (forall|v: u128|
        c1.ir_live(v) ==> c2.ir_live(v) && c2.ir_nodes()[v] == c1.ir_nodes()[v])
    &&& (forall|v: u128|
        c1.module_live(v) ==> c2.module_live(v) && c2.module_nodes()[v] == c1.module_nodes()[v])
    &&& (forall|v: u128|
        c1.section_live(v) ==> c2.section_live(v) && c2.section_nodes()[v]
            == c1.section_nodes()[v])
    &&& (forall|v: u128|
        c1.interval_live(v) ==> c2.interval_live(v) && c2.interval_nodes()[v]
            == c1.interval_nodes()[v])
    &&& (forall|v: u128|
        c1.code_block_live(v) ==> c2.code_block_live(v) && c2.code_block_nodes()[v]
            == c1.code_block_nodes()[v])
    &&& (forall|v: u128|
        c1.data_block_live(v) ==> c2.data_block_live(v) && c2.data_block_nodes()[v]
            == c1.data_block_nodes()[v])
    &&& (forall|v: u128|
        c1.proxy_block_live(v) ==> c2.proxy_block_live(v) && c2.proxy_block_nodes()[v]
            == c1.proxy_block_nodes()[v])
    &&& (forall|v: u128|
        c1.symbol_live(v) ==> c2.symbol_live(v) && c2.symbol_nodes()[v] == c1.symbol_nodes()[v])
}

/// A byte interval's record view is stable under registry growth: it
/// depends only on the interval's own fields (its up-reference aside) and
/// its blocks' records.
pub proof fn lemma_interval_view_frame(c1: Context, c2: Context, i: u128)
    requires
        c1.wf(),
        c1.interval_live(i),
        c2.interval_nodes()[i].size == c1.interval_nodes()[i].size,
        c2.interval_nodes()[i].address == c1.interval_nodes()[i].address,
        c2.interval_nodes()[i].bytes == c1.interval_nodes()[i].bytes,
        c2.interval_nodes()[i].symbolic_expressions == c1.interval_nodes()[
            i
        ].symbolic_expressions,
        c2.interval_nodes()[i].code_blocks == c1.interval_nodes()[i].code_blocks,
        c2.interval_nodes()[i].data_blocks == c1.interval_nodes()[i].data_blocks,
        forall|v: u128|
            c1.code_block_live(v) ==> c2.code_block_live(v) && c2.code_block_nodes()[v]
                == c1.code_block_nodes()[v],
        forall|v: u128|
            c1.data_block_live(v) ==> c2.data_block_live(v) && c2.data_block_nodes()[v]
                == c1.data_block_nodes()[v],
    ensures
        interval_msg_view(c2, i) == interval_msg_view(c1, i),
{
    let n = c1.interval_nodes()[i];
    assert(c1.interval_node_ok(i));
    assert forall|k: int| 0 <= k < n.code_blocks.len() implies code_block_rec_view(
        c2,
        #[trigger] n.code_blocks[k],
    ) == code_block_rec_view(c1, n.code_blocks[k]) by {
        assert(c1.code_block_child_ok(n.code_blocks[k], i));
    }
    assert forall|k: int| 0 <= k < n.data_blocks.len() implies data_block_rec_view(
        c2,
        #[trigger] n.data_blocks[k],
    ) == data_block_rec_view(c1, n.data_blocks[k]) by {
        assert(c1.data_block_child_ok(n.data_blocks[k], i));
    }
    assert(n.code_blocks.map_values(|c: u128| code_block_rec_view(c2, c)) =~= n.code_blocks.map_values(
        |c: u128| code_block_rec_view(c1, c),
    ));
    assert(n.data_blocks.map_values(|c: u128| data_block_rec_view(c2, c)) =~= n.data_blocks.map_values(
        |c: u128| data_block_rec_view(c1, c),
    ));
}

/// A section's record view is stable under registry growth, for the same
/// reason one level up.
pub proof fn lemma_section_view_frame(c1: Context, c2: Context, s: u128)
    requires
        c1.wf(),
        c1.section_live(s),
        c2.section_nodes()[s].name == c1.section_nodes()[s].name,
        c2.section_nodes()[s].flags == c1.section_nodes()[s].flags,
        c2.section_nodes()[s].byte_intervals == c1.section_nodes()[s].byte_intervals,
        forall|v: u128|
            c1.interval_live(v) ==> c2.interval_live(v) && c2.interval_nodes()[v]
                == c1.interval_nodes()[v],
        forall|v: u128|
            c1.code_block_live(v) ==> c2.code_block_live(v) && c2.code_block_nodes()[v]
                == c1.code_block_nodes()[v],
        forall|v: u128|
            c1.data_block_live(v) ==> c2.data_block_live(v) && c2.data_block_nodes()[v]
                == c1.data_block_nodes()[v],
    ensures
        section_msg_view(c2, s) == section_msg_view(c1, s),
{
    let n = c1.section_nodes()[s];
    assert(c1.section_node_ok(s));
    assert forall|k: int| 0 <= k < n.byte_intervals.len() implies interval_msg_view(
        c2,
        #[trigger] n.byte_intervals[k],
    ) == interval_msg_view(c1, n.byte_intervals[k]) by {
        assert(c1.interval_child_ok(n.byte_intervals[k], s));
        lemma_interval_view_frame(c1, c2, n.byte_intervals[k]);
    }
    assert(n.byte_intervals.map_values(|i: u128| interval_msg_view(c2, i))
        =~= n.byte_intervals.map_values(|i: u128| interval_msg_view(c1, i)));
}

/// A module's record view is stable under registry growth, one level
/// further up.
pub proof fn lemma_module_view_frame(c1: Context, c2: Context, m: u128)
    requires
        c1.wf(),
        c1.module_live(m),
        c2.module_nodes()[m].name == c1.module_nodes()[m].name,
        c2.module_nodes()[m].binary_path == c1.module_nodes()[m].binary_path,
        c2.module_nodes()[m].entry_point == c1.module_nodes()[m].entry_point,
        c2.module_nodes()[m].byte_order == c1.module_nodes()[m].byte_order,
        c2.module_nodes()[m].isa == c1.module_nodes()[m].isa,
        c2.module_nodes()[m].rebase_delta == c1.module_nodes()[m].rebase_delta,
        c2.module_nodes()[m].preferred_address == c1.module_nodes()[m].preferred_address,
        c2.module_nodes()[m].file_format == c1.module_nodes()[m].file_format,
        c2.module_nodes()[m].sections == c1.module_nodes()[m].sections,
        c2.module_nodes()[m].symbols == c1.module_nodes()[m].symbols,
        c2.module_nodes()[m].proxy_blocks == c1.module_nodes()[m].proxy_blocks,
        c2.module_nodes()[m].aux_data == c1.module_nodes()[m].aux_data,
        forall|v: u128|
            c1.section_live(v) ==> c2.section_live(v) && c2.section_nodes()[v]
                == c1.section_nodes()[v],
        forall|v: u128|
            c1.interval_live(v) ==> c2.interval_live(v) && c2.interval_nodes()[v]
                == c1.interval_nodes()[v],
        forall|v: u128|
            c1.code_block_live(v) ==> c2.code_block_live(v) && c2.code_block_nodes()[v]
                == c1.code_block_nodes()[v],
        forall|v: u128|
            c1.data_block_live(v) ==> c2.data_block_live(v) && c2.data_block_nodes()[v]
                == c1.data_block_nodes()[v],
        forall|v: u128|
            c1.symbol_live(v) ==> c2.symbol_live(v) && c2.symbol_nodes()[v]
                == c1.symbol_nodes()[v],
    ensures
        module_msg_view(c2, m) == module_msg_view(c1, m),
{
    let n = c1.module_nodes()[m];
    assert(c1.module_node_ok(m));
    assert forall|k: int| 0 <= k < n.sections.len() implies section_msg_view(
        c2,
        #[trigger] n.sections[k],
    ) == section_msg_view(c1, n.sections[k]) by {
        assert(c1.section_child_ok(n.sections[k], m));
        lemma_section_view_frame(c1, c2, n.sections[k]);
    }
    assert forall|k: int| 0 <= k < n.symbols.len() implies symbol_msg_view(
        c2,
        #[trigger] n.symbols[k],
    ) == symbol_msg_view(c1, n.symbols[k]) by {
        assert(c1.symbol_child_ok(n.symbols[k], m));
    }
    assert(n.sections.map_values(|s: u128| section_msg_view(c2, s)) =~= n.sections.map_values(
        |s: u128| section_msg_view(c1, s),
    ));
    assert(n.symbols.map_values(|s: u128| symbol_msg_view(c2, s)) =~= n.symbols.map_values(
        |s: u128| symbol_msg_view(c1, s),
    ));
}

// Feasibility: the records of a live, well-formed subtree are always
// admitted against any identifier set disjoint from the subtree.  The
// subtree sets below are the identifiers a load of the subtree registers.

/// The identifiers of a live byte interval's subtree: the interval and
/// its blocks.
pub open spec fn interval_subtree(c: Context, i: u128) -> Set<u128> {
    Set::new(
        |v: u128|
            v == i || (c.code_block_live(v) && c.code_block_nodes()[v].parent == Some(i)) || (
            c.data_block_live(v) && c.data_block_nodes()[v].parent == Some(i)),
    )
}

/// The identifiers of a run of block records.
pub open spec fn block_uuid_set(s: Seq<Block>) -> Set<u128> {
    Set::new(|v: u128| exists|k: int| 0 <= k < s.len() && block_uuid(#[trigger] s[k]) == v)
}

/// A run of distinct, fresh block records is admitted, and registers
/// exactly its identifiers.
proof fn lemma_load_blocks_ok(l: Set<u128>, s: Seq<Block>)
    requires
        forall|k: int| 0 <= k < s.len() ==> !l.contains(block_uuid(#[trigger] s[k])),
        forall|k1: int, k2: int|
            0 <= k1 < k2 < s.len() ==> block_uuid(s[k1]) != block_uuid(s[k2]),
    ensures
        spec_load_blocks(l, s) == Ok::<Set<u128>, Error>(l.union(block_uuid_set(s))),
    decreases s.len(),
{
    if s.len() == 0 {
        assert(l.union(block_uuid_set(s)) =~= l);
    } else {
        let u0 = block_uuid(s[0]);
        let l2 = l.insert(u0);
        let sdf = s.drop_first();
        assert forall|k: int| 0 <= k < sdf.len() implies !l2.contains(
            block_uuid(#[trigger] sdf[k]),
        ) by {
            assert(sdf[k] == s[k + 1]);
            assert(!l.contains(block_uuid(s[k + 1])));
            assert(block_uuid(s[0]) != block_uuid(s[k + 1]));
        }
        assert forall|k1: int, k2: int| 0 <= k1 < k2 < sdf.len() implies block_uuid(sdf[k1])
            != block_uuid(sdf[k2]) by {
            assert(sdf[k1] == s[k1 + 1]);
            assert(sdf[k2] == s[k2 + 1]);
        }
        lemma_load_blocks_ok(l2, sdf);
        assert(l2.union(block_uuid_set(sdf)) =~= l.union(block_uuid_set(s))) by {
            assert forall|v: u128|
                l2.union(block_uuid_set(sdf)).contains(v) implies l.union(
                block_uuid_set(s),
            ).contains(v) by {
                if v == u0 {
                    assert(block_uuid(s[0]) == v);
                } else if block_uuid_set(sdf).contains(v) {
                    let k = choose|k: int|
                        0 <= k < sdf.len() && block_uuid(#[trigger] sdf[k]) == v;
                    assert(s[k + 1] == sdf[k]);
                    assert(block_uuid(s[k + 1]) == v);
                }
            }
            assert forall|v: u128|
                l.union(block_uuid_set(s)).contains(v) implies l2.union(
                block_uuid_set(sdf),
            ).contains(v) by {
                if !l.contains(v) {
                    let k = choose|k: int| 0 <= k < s.len() && block_uuid(#[trigger] s[k]) == v;
                    if k > 0 {
                        assert(sdf[k - 1] == s[k]);
                        assert(block_uuid(sdf[k - 1]) == v);
                    }
                }
            }
        }
    }
}

/// A live, well-formed byte interval's record is admitted against any
/// set disjoint from its subtree, and registers exactly that subtree.
pub proof fn lemma_load_interval_of_view(c: Context, i: u128, l: Set<u128>)
    requires
        c.wf(),
        c.interval_live(i),
        forall|v: u128| interval_subtree(c, i).contains(v) ==> !l.contains(v),
    ensures
        spec_load_interval(l, interval_msg_view(c, i)) == Ok::<Set<u128>, Error>(
            l.union(interval_subtree(c, i)),
        ),
{
    let v = interval_msg_view(c, i);
    let n = c.interval_nodes()[i];
    assert(n.inv());
    assert(c.interval_node_ok(i));
    assert(interval_subtree(c, i).contains(i));
    assert(!l.contains(i));
    assert(symexprs_admissible(v.symbolic_expressions, v.size)) by {
        assert(forall|k: int|
            0 < k < n.symbolic_expressions.len() ==> n.symbolic_expressions[k - 1].0 < (
            #[trigger] n.symbolic_expressions[k]).0);
    }
    let l2 = l.insert(i);
    let a = n.code_blocks.map_values(|u: u128| code_block_rec_view(c, u));
    let b = n.data_blocks.map_values(|u: u128| data_block_rec_view(c, u));
    assert(v.blocks =~= a + b);
    // every block identifier is in the subtree, hence fresh; and they are
    // pairwise distinct
    assert forall|k: int| 0 <= k < v.blocks.len() implies !l2.contains(
        block_uuid(#[trigger] v.blocks[k]),
    ) && interval_subtree(c, i).contains(block_uuid(v.blocks[k])) by {
        if k < a.len() {
            assert(v.blocks[k] == a[k]);
            assert(block_uuid(a[k]) == n.code_blocks[k]);
            assert(c.code_block_child_ok(n.code_blocks[k], i));
            assert(c.kind_count(n.code_blocks[k]) <= 1);
        } else {
            assert(v.blocks[k] == b[k - a.len()]);
            assert(block_uuid(v.blocks[k]) == n.data_blocks[k - a.len()]);
            assert(c.data_block_child_ok(n.data_blocks[k - a.len()], i));
            assert(c.kind_count(n.data_blocks[k - a.len()]) <= 1);
        }
    }
    assert forall|k1: int, k2: int| 0 <= k1 < k2 < v.blocks.len() implies block_uuid(
        v.blocks[k1],
    ) != block_uuid(v.blocks[k2]) by {
        if k1 < a.len() && k2 < a.len() {
            assert(block_uuid(v.blocks[k1]) == n.code_blocks[k1]);
            assert(block_uuid(v.blocks[k2]) == n.code_blocks[k2]);
        } else if k1 < a.len() && k2 >= a.len() {
            let c1 = n.code_blocks[k1];
            let d2 = n.data_blocks[k2 - a.len()];
            assert(block_uuid(v.blocks[k1]) == c1);
            assert(block_uuid(v.blocks[k2]) == d2);
            assert(c.code_block_child_ok(c1, i));
            assert(c.data_block_child_ok(d2, i));
            assert(c.kind_count(c1) <= 1);
        } else {
            assert(block_uuid(v.blocks[k1]) == n.data_blocks[k1 - a.len()]);
            assert(block_uuid(v.blocks[k2]) == n.data_blocks[k2 - a.len()]);
        }
    }
    lemma_load_blocks_ok(l2, v.blocks);
    assert(l2.union(block_uuid_set(v.blocks)) =~= l.union(interval_subtree(c, i))) by {
        assert forall|w: u128|
            l2.union(block_uuid_set(v.blocks)).contains(w) implies l.union(
            interval_subtree(c, i),
        ).contains(w) by {
            if !l.contains(w) && w != i {
                let k = choose|k: int|
                    0 <= k < v.blocks.len() && block_uuid(#[trigger] v.blocks[k]) == w;
            }
        }
        assert forall|w: u128|
            l.union(interval_subtree(c, i)).contains(w) implies l2.union(
            block_uuid_set(v.blocks),
        ).contains(w) by {
            if !l.contains(w) && w != i {
                if c.code_block_live(w) && c.code_block_nodes()[w].parent == Some(i) {
                    assert(n.code_blocks.contains(w));
                    let k = choose|k: int| 0 <= k < n.code_blocks.len() && n.code_blocks[k] == w;
                    assert(v.blocks[k] == a[k]);
                    assert(block_uuid(v.blocks[k]) == w);
                } else {
                    assert(c.data_block_live(w) && c.data_block_nodes()[w].parent == Some(i));
                    assert(n.data_blocks.contains(w));
                    let k = choose|k: int| 0 <= k < n.data_blocks.len() && n.data_blocks[k] == w;
                    assert(v.blocks[a.len() + k] == b[k]);
                    assert(block_uuid(v.blocks[a.len() + k]) == w);
                }
            }
        }
    }
}

/// The identifiers of a live section's subtree.
pub open spec fn section_subtree(c: Context, s: u128) -> Set<u128> {
    Set::new(
        |v: u128|
            v == s || (c.interval_live(v) && c.interval_nodes()[v].parent == Some(s)) || (
            c.code_block_live(v) && match c.code_block_nodes()[v].parent {
                Some(p) => c.interval_live(p) && c.interval_nodes()[p].parent == Some(s),
                None => false,
            }) || (c.data_block_live(v) && match c.data_block_nodes()[v].parent {
                Some(p) => c.interval_live(p) && c.interval_nodes()[p].parent == Some(s),
                None => false,
            }),
    )
}

/// The identifiers of the subtrees of a run of live intervals.
pub open spec fn intervals_subtrees(c: Context, ivs: Seq<u128>) -> Set<u128> {
    Set::new(
        |v: u128|
            exists|k: int| 0 <= k < ivs.len() && interval_subtree(c, #[trigger] ivs[k]).contains(
                v,
            ),
    )
}

/// Sibling intervals of one section have disjoint subtrees.
proof fn lemma_interval_subtrees_disjoint(c: Context, i1: u128, i2: u128, w: u128)
    requires
        c.wf(),
        c.interval_live(i1),
        c.interval_live(i2),
        i1 != i2,
        interval_subtree(c, i1).contains(w),
    ensures
        !interval_subtree(c, i2).contains(w),
{
    assert(c.kind_count(w) <= 1);
    assert(c.kind_count(i1) <= 1);
    assert(c.kind_count(i2) <= 1);
}

/// A run of distinct, live sibling intervals is admitted against any set
/// disjoint from their subtrees, and registers exactly those subtrees.
proof fn lemma_load_intervals_of_list(c: Context, l: Set<u128>, ivs: Seq<u128>, s: u128)
    requires
        c.wf(),
        forall|k: int|
            0 <= k < ivs.len() ==> c.interval_live(#[trigger] ivs[k])
                && c.interval_nodes()[ivs[k]].parent == Some(s),
        ivs.no_duplicates(),
        forall|v: u128, k: int|
            0 <= k < ivs.len() && #[trigger] interval_subtree(c, ivs[k]).contains(v)
                ==> !l.contains(v),
    ensures
        spec_load_intervals(l, ivs.map_values(|i: u128| interval_msg_view(c, i))) == Ok::<
            Set<u128>,
            Error,
        >(l.union(intervals_subtrees(c, ivs))),
    decreases ivs.len(),
{
    let views = ivs.map_values(|i: u128| interval_msg_view(c, i));
    if ivs.len() == 0 {
        assert(l.union(intervals_subtrees(c, ivs)) =~= l);
    } else {
        let i0 = ivs[0];
        assert forall|v: u128| interval_subtree(c, i0).contains(v) implies !l.contains(v) by {
            assert(interval_subtree(c, ivs[0]).contains(v));
        }
        lemma_load_interval_of_view(c, i0, l);
        assert(views[0] == interval_msg_view(c, i0));
        let l2 = l.union(interval_subtree(c, i0));
        let rest = ivs.drop_first();
        assert(views.drop_first() =~= rest.map_values(|i: u128| interval_msg_view(c, i)));
        assert forall|k: int| 0 <= k < rest.len() implies c.interval_live(#[trigger] rest[k])
            && c.interval_nodes()[rest[k]].parent == Some(s) by {
            assert(rest[k] == ivs[k + 1]);
            assert(c.interval_live(ivs[k + 1]));
        }
        assert forall|v: u128, k: int|
            0 <= k < rest.len() && #[trigger] interval_subtree(c, rest[k]).contains(v)
                implies !l2.contains(v) by {
            assert(rest[k] == ivs[k + 1]);
            assert(interval_subtree(c, ivs[k + 1]).contains(v));
            lemma_interval_subtrees_disjoint(c, ivs[k + 1], i0, v);
        }
        lemma_load_intervals_of_list(c, l2, rest, s);
        assert(l2.union(intervals_subtrees(c, rest)) =~= l.union(intervals_subtrees(c, ivs)))
            by {
            assert forall|v: u128|
                l2.union(intervals_subtrees(c, rest)).contains(v) implies l.union(
                intervals_subtrees(c, ivs),
            ).contains(v) by {
                if interval_subtree(c, i0).contains(v) {
                    assert(interval_subtree(c, ivs[0]).contains(v));
                } else if intervals_subtrees(c, rest).contains(v) {
                    let k = choose|k: int|
                        0 <= k < rest.len() && interval_subtree(c, #[trigger] rest[k]).contains(
                            v,
                        );
                    assert(ivs[k + 1] == rest[k]);
                    assert(interval_subtree(c, ivs[k + 1]).contains(v));
                }
            }
            assert forall|v: u128|
                l.union(intervals_subtrees(c, ivs)).contains(v) implies l2.union(
                intervals_subtrees(c, rest),
            ).contains(v) by {
                if !l.contains(v) {
                    let k = choose|k: int|
                        0 <= k < ivs.len() && interval_subtree(c, #[trigger] ivs[k]).contains(v);
                    if k > 0 {
                        assert(rest[k - 1] == ivs[k]);
                        assert(interval_subtree(c, rest[k - 1]).contains(v));
                    }
                }
            }
        }
    }
}

/// Declared flag codes always pass the flag check.
proof fn lemma_check_flags_ok(s: Seq<u64>)
    requires
        forall|k: int|
            0 <= k < s.len() ==> crate::tags::spec_section_flag_from_code(#[trigger] s[k])
                is Some,
    ensures
        spec_check_flags(s) == Ok::<(), Error>(()),
    decreases s.len(),
{
    if s.len() > 0 {
        assert(crate::tags::spec_section_flag_from_code(s[0]) is Some);
        assert forall|k: int|
            0 <= k < s.drop_first().len() implies crate::tags::spec_section_flag_from_code(
            #[trigger] s.drop_first()[k],
        ) is Some by {
            assert(s.drop_first()[k] == s[k + 1]);
            assert(crate::tags::spec_section_flag_from_code(s[k + 1]) is Some);
        }
        lemma_check_flags_ok(s.drop_first());
    }
}

/// A live, well-formed section's record is admitted against any set
/// disjoint from its subtree, and registers exactly that subtree.
pub proof fn lemma_load_section_of_view(c: Context, s: u128, l: Set<u128>)
    requires
        c.wf(),
        c.section_live(s),
        forall|v: u128| section_subtree(c, s).contains(v) ==> !l.contains(v),
    ensures
        spec_load_section(l, section_msg_view(c, s)) == Ok::<Set<u128>, Error>(
            l.union(section_subtree(c, s)),
        ),
{
    let v = section_msg_view(c, s);
    let n = c.section_nodes()[s];
    assert(c.section_node_ok(s));
    assert(section_subtree(c, s).contains(s));
    assert(!l.contains(s));
    assert forall|k: int|
        0 <= k < v.section_flags.len() implies crate::tags::spec_section_flag_from_code(
        #[trigger] v.section_flags[k],
    ) is Some by {
        assert(v.section_flags[k] == crate::tags::spec_section_flag_code(n.flags[k]));
        crate::tags::lemma_section_flag_round_trip(n.flags[k]);
    }
    lemma_check_flags_ok(v.section_flags);
    let l2 = l.insert(s);
    assert forall|k: int| 0 <= k < n.byte_intervals.len() implies c.interval_live(
        #[trigger] n.byte_intervals[k],
    ) && c.interval_nodes()[n.byte_intervals[k]].parent == Some(s) by {
        assert(c.interval_child_ok(n.byte_intervals[k], s));
    }
    assert forall|w: u128, k: int|
        0 <= k < n.byte_intervals.len() && #[trigger] interval_subtree(
            c,
            n.byte_intervals[k],
        ).contains(w) implies !l2.contains(w) by {
        assert(c.interval_child_ok(n.byte_intervals[k], s));
        assert(section_subtree(c, s).contains(w)) by {
            assert(c.kind_count(w) <= 1);
        }
        assert(w != s) by {
            assert(c.kind_count(w) <= 1);
            assert(c.kind_count(s) <= 1);
        }
    }
    lemma_load_intervals_of_list(c, l2, n.byte_intervals, s);
    assert(v.byte_intervals =~= n.byte_intervals.map_values(|i: u128| interval_msg_view(c, i)));
    assert(l2.union(intervals_subtrees(c, n.byte_intervals)) =~= l.union(
        section_subtree(c, s),
    )) by {
        assert forall|w: u128|
            l2.union(intervals_subtrees(c, n.byte_intervals)).contains(w) implies l.union(
            section_subtree(c, s),
        ).contains(w) by {
            if w != s && !l.contains(w) {
                let k = choose|k: int|
                    0 <= k < n.byte_intervals.len() && interval_subtree(
                        c,
                        #[trigger] n.byte_intervals[k],
                    ).contains(w);
                assert(c.interval_child_ok(n.byte_intervals[k], s));
                assert(section_subtree(c, s).contains(w)) by {
                    assert(c.kind_count(w) <= 1);
                }
            }
        }
        assert forall|w: u128|
            l.union(section_subtree(c, s)).contains(w) implies l2.union(
            intervals_subtrees(c, n.byte_intervals),
        ).contains(w) by {
            if !l.contains(w) && w != s {
                if c.interval_live(w) && c.interval_nodes()[w].parent == Some(s) {
                    assert(n.byte_intervals.contains(w));
                    let k = choose|k: int|
                        0 <= k < n.byte_intervals.len() && n.byte_intervals[k] == w;
                    assert(interval_subtree(c, n.byte_intervals[k]).contains(w));
                } else if c.code_block_live(w) {
                    assert(c.kind_count(w) <= 1);
                    let p = c.code_block_nodes()[w].parent->0;
                    assert(c.interval_live(p) && c.interval_nodes()[p].parent == Some(s));
                    assert(n.byte_intervals.contains(p));
                    let k = choose|k: int|
                        0 <= k < n.byte_intervals.len() && n.byte_intervals[k] == p;
                    assert(interval_subtree(c, n.byte_intervals[k]).contains(w));
                } else {
                    assert(c.kind_count(w) <= 1);
                    assert(c.data_block_live(w));
                    let p = c.data_block_nodes()[w].parent->0;
                    assert(c.interval_live(p) && c.interval_nodes()[p].parent == Some(s));
                    assert(n.byte_intervals.contains(p));
                    let k = choose|k: int|
                        0 <= k < n.byte_intervals.len() && n.byte_intervals[k] == p;
                    assert(interval_subtree(c, n.byte_intervals[k]).contains(w));
                }
            }
        }
    }
}

/// The identifiers of a live module's subtree.
pub open spec fn module_subtree(c: Context, m: u128) -> Set<u128> {
    Set::new(
        |v: u128|
            v == m || (c.section_live(v) && c.section_nodes()[v].parent == Some(m)) || (
            c.symbol_live(v) && c.symbol_nodes()[v].parent == Some(m)) || (c.proxy_block_live(v)
                && c.proxy_block_nodes()[v].parent == Some(m)) || (c.interval_live(v)
                && match c.interval_nodes()[v].parent {
                Some(p) => c.section_live(p) && c.section_nodes()[p].parent == Some(m),
                None => false,
            }) || (c.code_block_live(v) && match c.code_block_nodes()[v].parent {
                Some(p) => c.interval_live(p) && match c.interval_nodes()[p].parent {
                    Some(q) => c.section_live(q) && c.section_nodes()[q].parent == Some(m),
                    None => false,
                },
                None => false,
            }) || (c.data_block_live(v) && match c.data_block_nodes()[v].parent {
                Some(p) => c.interval_live(p) && match c.interval_nodes()[p].parent {
                    Some(q) => c.section_live(q) && c.section_nodes()[q].parent == Some(m),
                    None => false,
                },
                None => false,
            }),
    )
}

/// A run of distinct, fresh symbol records is admitted, and registers
/// exactly its identifiers.
proof fn lemma_load_symbols_of_list(c: Context, l: Set<u128>, syms: Seq<u128>)
    requires
        syms.no_duplicates(),
        forall|k: int| 0 <= k < syms.len() ==> !l.contains(#[trigger] syms[k]),
    ensures
        spec_load_symbols(l, syms.map_values(|y: u128| symbol_msg_view(c, y))) == Ok::<
            Set<u128>,
            Error,
        >(l.union(syms.to_set())),
    decreases syms.len(),
{
    let views = syms.map_values(|y: u128| symbol_msg_view(c, y));
    if syms.len() == 0 {
        assert(l.union(syms.to_set()) =~= l);
    } else {
        let u0 = syms[0];
        assert(views[0].uuid == u0);
        let l2 = l.insert(u0);
        let rest = syms.drop_first();
        assert(views.drop_first() =~= rest.map_values(|y: u128| symbol_msg_view(c, y)));
        assert forall|k: int| 0 <= k < rest.len() implies !l2.contains(#[trigger] rest[k]) by {
            assert(rest[k] == syms[k + 1]);
            assert(!l.contains(syms[k + 1]));
        }
        lemma_load_symbols_of_list(c, l2, rest);
        assert(l2.union(rest.to_set()) =~= l.union(syms.to_set())) by {
            assert forall|v: u128|
                l2.union(rest.to_set()).contains(v) implies l.union(syms.to_set()).contains(
                v,
            ) by {
                if v == u0 {
                    assert(syms.contains(v));
                } else if rest.to_set().contains(v) {
                    let k = choose|k: int| 0 <= k < rest.len() && rest[k] == v;
                    assert(syms[k + 1] == v);
                    assert(syms.contains(v));
                }
            }
            assert forall|v: u128|
                l.union(syms.to_set()).contains(v) implies l2.union(rest.to_set()).contains(
                v,
            ) by {
                if !l.contains(v) {
                    let k = choose|k: int| 0 <= k < syms.len() && syms[k] == v;
                    if k > 0 {
                        assert(rest[k - 1] == v);
                        assert(rest.contains(v));
                    }
                }
            }
        }
    }
}

/// A run of distinct, fresh proxy-block records is admitted, and
/// registers exactly its identifiers.
proof fn lemma_load_proxies_of_list(l: Set<u128>, pxs: Seq<u128>)
    requires
        pxs.no_duplicates(),
        forall|k: int| 0 <= k < pxs.len() ==> !l.contains(#[trigger] pxs[k]),
    ensures
        spec_load_proxies(l, pxs) == Ok::<Set<u128>, Error>(l.union(pxs.to_set())),
    decreases pxs.len(),
{
    if pxs.len() == 0 {
        assert(l.union(pxs.to_set()) =~= l);
    } else {
        let u0 = pxs[0];
        let l2 = l.insert(u0);
        let rest = pxs.drop_first();
        assert forall|k: int| 0 <= k < rest.len() implies !l2.contains(#[trigger] rest[k]) by {
            assert(rest[k] == pxs[k + 1]);
            assert(!l.contains(pxs[k + 1]));
        }
        lemma_load_proxies_of_list(l2, rest);
        assert(l2.union(rest.to_set()) =~= l.union(pxs.to_set())) by {
            assert forall|v: u128|
                l2.union(rest.to_set()).contains(v) implies l.union(pxs.to_set()).contains(
                v,
            ) by {
                if v == u0 {
                    assert(pxs.contains(v));
                } else if rest.to_set().contains(v) {
                    let k = choose|k: int| 0 <= k < rest.len() && rest[k] == v;
                    assert(pxs[k + 1] == v);
                    assert(pxs.contains(v));
                }
            }
            assert forall|v: u128|
                l.union(pxs.to_set()).contains(v) implies l2.union(rest.to_set()).contains(
                v,
            ) by {
                if !l.contains(v) {
                    let k = choose|k: int| 0 <= k < pxs.len() && pxs[k] == v;
                    if k > 0 {
                        assert(rest[k - 1] == v);
                        assert(rest.contains(v));
                    }
                }
            }
        }
    }
}

/// The identifiers of the subtrees of a run of live sections.
pub open spec fn sections_subtrees(c: Context, secs: Seq<u128>) -> Set<u128> {
    Set::new(
        |v: u128|
            exists|k: int| 0 <= k < secs.len() && section_subtree(c, #[trigger] secs[k]).contains(
                v,
            ),
    )
}

/// Distinct live sections have disjoint subtrees.
proof fn lemma_section_subtrees_disjoint(c: Context, s1: u128, s2: u128, w: u128)
    requires
        c.wf(),
        c.section_live(s1),
        c.section_live(s2),
        s1 != s2,
        section_subtree(c, s1).contains(w),
    ensures
        !section_subtree(c, s2).contains(w),
{
    assert(c.kind_count(w) <= 1);
    assert(c.kind_count(s1) <= 1);
    assert(c.kind_count(s2) <= 1);
}

/// A run of distinct, live sibling sections is admitted against any set
/// disjoint from their subtrees, and registers exactly those subtrees.
proof fn lemma_load_sections_of_list(c: Context, l: Set<u128>, secs: Seq<u128>, m: u128)
    requires
        c.wf(),
        forall|k: int|
            0 <= k < secs.len() ==> c.section_live(#[trigger] secs[k])
                && c.section_nodes()[secs[k]].parent == Some(m),
        secs.no_duplicates(),
        forall|v: u128, k: int|
            0 <= k < secs.len() && #[trigger] section_subtree(c, secs[k]).contains(v)
                ==> !l.contains(v),
    ensures
        spec_load_sections(l, secs.map_values(|s: u128| section_msg_view(c, s))) == Ok::<
            Set<u128>,
            Error,
        >(l.union(sections_subtrees(c, secs))),
    decreases secs.len(),
{
    let views = secs.map_values(|s: u128| section_msg_view(c, s));
    if secs.len() == 0 {
        assert(l.union(sections_subtrees(c, secs)) =~= l);
    } else {
        let s0 = secs[0];
        assert forall|v: u128| section_subtree(c, s0).contains(v) implies !l.contains(v) by {
            assert(section_subtree(c, secs[0]).contains(v));
        }
        lemma_load_section_of_view(c, s0, l);
        assert(views[0] == section_msg_view(c, s0));
        let l2 = l.union(section_subtree(c, s0));
        let rest = secs.drop_first();
        assert(views.drop_first() =~= rest.map_values(|s: u128| section_msg_view(c, s)));
        assert forall|k: int| 0 <= k < rest.len() implies c.section_live(#[trigger] rest[k])
            && c.section_nodes()[rest[k]].parent == Some(m) by {
            assert(rest[k] == secs[k + 1]);
            assert(c.section_live(secs[k + 1]));
        }
        assert forall|v: u128, k: int|
            0 <= k < rest.len() && #[trigger] section_subtree(c, rest[k]).contains(v)
                implies !l2.contains(v) by {
            assert(rest[k] == secs[k + 1]);
            assert(section_subtree(c, secs[k + 1]).contains(v));
            lemma_section_subtrees_disjoint(c, secs[k + 1], s0, v);
        }
        lemma_load_sections_of_list(c, l2, rest, m);
        assert(l2.union(sections_subtrees(c, rest)) =~= l.union(sections_subtrees(c, secs)))
            by {
            assert forall|v: u128|
                l2.union(sections_subtrees(c, rest)).contains(v) implies l.union(
                sections_subtrees(c, secs),
            ).contains(v) by {
                if section_subtree(c, s0).contains(v) {
                    assert(section_subtree(c, secs[0]).contains(v));
                } else if sections_subtrees(c, rest).contains(v) {
                    let k = choose|k: int|
                        0 <= k < rest.len() && section_subtree(c, #[trigger] rest[k]).contains(
                            v,
                        );
                    assert(secs[k + 1] == rest[k]);
                    assert(section_subtree(c, secs[k + 1]).contains(v));
                }
            }
            assert forall|v: u128|
                l.union(sections_subtrees(c, secs)).contains(v) implies l2.union(
                sections_subtrees(c, rest),
            ).contains(v) by {
                if !l.contains(v) {
                    let k = choose|k: int|
                        0 <= k < secs.len() && section_subtree(c, #[trigger] secs[k]).contains(
                            v,
                        );
                    if k > 0 {
                        assert(rest[k - 1] == secs[k]);
                        assert(section_subtree(c, rest[k - 1]).contains(v));
                    }
                }
            }
        }
    }
}

/// A live, well-formed module's record is admitted against any set
/// disjoint from its subtree, and registers exactly that subtree.
#[verifier::rlimit(100)]
#[verifier::spinoff_prover]
pub proof fn lemma_load_module_of_view(c: Context, m: u128, l: Set<u128>)
    requires
        c.wf(),
        c.module_live(m),
        forall|v: u128| module_subtree(c, m).contains(v) ==> !l.contains(v),
    ensures
        spec_load_module(l, module_msg_view(c, m)) == Ok::<Set<u128>, Error>(
            l.union(module_subtree(c, m)),
        ),
{
    let v = module_msg_view(c, m);
    let n = c.module_nodes()[m];
    assert(c.module_node_ok(m));
    assert(module_subtree(c, m).contains(m));
    assert(!l.contains(m));
    crate::tags::lemma_file_format_round_trip(n.file_format);
    crate::tags::lemma_isa_round_trip(n.isa);
    crate::tags::lemma_byte_order_round_trip(n.byte_order);
    let l1 = l.insert(m);
    // symbols
    assert forall|k: int| 0 <= k < n.symbols.len() implies !l1.contains(
        #[trigger] n.symbols[k],
    ) by {
        assert(c.symbol_child_ok(n.symbols[k], m));
        assert(module_subtree(c, m).contains(n.symbols[k]));
        assert(c.kind_count(n.symbols[k]) <= 1);
        assert(c.kind_count(m) <= 1);
    }
    assert(v.symbols =~= n.symbols.map_values(|y: u128| symbol_msg_view(c, y)));
    lemma_load_symbols_of_list(c, l1, n.symbols);
    let l_sym = l1.union(n.symbols.to_set());
    // proxy blocks
    assert forall|k: int| 0 <= k < n.proxy_blocks.len() implies !l_sym.contains(
        #[trigger] n.proxy_blocks[k],
    ) by {
        assert(c.proxy_block_child_ok(n.proxy_blocks[k], m));
        assert(module_subtree(c, m).contains(n.proxy_blocks[k]));
        assert(c.kind_count(n.proxy_blocks[k]) <= 1);
        assert(c.kind_count(m) <= 1);
        if n.symbols.to_set().contains(n.proxy_blocks[k]) {
            let k2 = choose|k2: int|
                0 <= k2 < n.symbols.len() && n.symbols[k2] == n.proxy_blocks[k];
            assert(c.symbol_child_ok(n.symbols[k2], m));
        }
    }
    lemma_load_proxies_of_list(l_sym, n.proxy_blocks);
    let l_prox = l_sym.union(n.proxy_blocks.to_set());
    // sections
    assert forall|k: int| 0 <= k < n.sections.len() implies c.section_live(
        #[trigger] n.sections[k],
    ) && c.section_nodes()[n.sections[k]].parent == Some(m) by {
        assert(c.section_child_ok(n.sections[k], m));
    }
    assert forall|w: u128, k: int|
        0 <= k < n.sections.len() && #[trigger] section_subtree(c, n.sections[k]).contains(w)
            implies !l_prox.contains(w) by {
        assert(c.section_child_ok(n.sections[k], m));
        assert(c.kind_count(w) <= 1);
        assert(module_subtree(c, m).contains(w));
        assert(c.kind_count(m) <= 1);
        if n.symbols.to_set().contains(w) {
            let k2 = choose|k2: int| 0 <= k2 < n.symbols.len() && n.symbols[k2] == w;
            assert(c.symbol_child_ok(n.symbols[k2], m));
        }
        if n.proxy_blocks.to_set().contains(w) {
            let k2 = choose|k2: int|
                0 <= k2 < n.proxy_blocks.len() && n.proxy_blocks[k2] == w;
            assert(c.proxy_block_child_ok(n.proxy_blocks[k2], m));
        }
    }
    assert(v.sections =~= n.sections.map_values(|s: u128| section_msg_view(c, s)));
    lemma_load_sections_of_list(c, l_prox, n.sections, m);
    // the accumulated set is exactly the module subtree
    assert(l_prox.union(sections_subtrees(c, n.sections)) =~= l.union(module_subtree(c, m)))
        by {
        assert forall|w: u128|
            l_prox.union(sections_subtrees(c, n.sections)).contains(w) implies l.union(
            module_subtree(c, m),
        ).contains(w) by {
            if !l.contains(w) && w != m {
                if n.symbols.to_set().contains(w) {
                    let k = choose|k: int| 0 <= k < n.symbols.len() && n.symbols[k] == w;
                    assert(c.symbol_child_ok(n.symbols[k], m));
                } else if n.proxy_blocks.to_set().contains(w) {
                    let k = choose|k: int|
                        0 <= k < n.proxy_blocks.len() && n.proxy_blocks[k] == w;
                    assert(c.proxy_block_child_ok(n.proxy_blocks[k], m));
                } else {
                    let k = choose|k: int|
                        0 <= k < n.sections.len() && section_subtree(
                            c,
                            #[trigger] n.sections[k],
                        ).contains(w);
                    assert(c.section_child_ok(n.sections[k], m));
                    assert(c.kind_count(w) <= 1);
                }
            }
        }
        assert forall|w: u128|
            l.union(module_subtree(c, m)).contains(w) implies l_prox.union(
            sections_subtrees(c, n.sections),
        ).contains(w) by {
            if !l.contains(w) && w != m {
                if c.symbol_live(w) && c.symbol_nodes()[w].parent == Some(m) {
                    assert(n.symbols.contains(w));
                } else if c.proxy_block_live(w) && c.proxy_block_nodes()[w].parent == Some(m) {
                    assert(n.proxy_blocks.contains(w));
                } else if c.section_live(w) && c.section_nodes()[w].parent == Some(m) {
                    assert(n.sections.contains(w));
                    let k = choose|k: int| 0 <= k < n.sections.len() && n.sections[k] == w;
                    assert(section_subtree(c, n.sections[k]).contains(w));
                } else if c.interval_live(w) {
                    assert(c.kind_count(w) <= 1);
                    let p = c.interval_nodes()[w].parent->0;
                    assert(c.section_live(p) && c.section_nodes()[p].parent == Some(m));
                    assert(n.sections.contains(p));
                    let k = choose|k: int| 0 <= k < n.sections.len() && n.sections[k] == p;
                    assert(section_subtree(c, n.sections[k]).contains(w));
                } else if c.code_block_live(w) {
                    assert(c.kind_count(w) <= 1);
                    let p = c.code_block_nodes()[w].parent->0;
                    let q = c.interval_nodes()[p].parent->0;
                    assert(c.section_live(q) && c.section_nodes()[q].parent == Some(m));
                    assert(n.sections.contains(q));
                    let k = choose|k: int| 0 <= k < n.sections.len() && n.sections[k] == q;
                    assert(section_subtree(c, n.sections[k]).contains(w));
                } else {
                    assert(c.data_block_live(w));
                    assert(c.kind_count(w) <= 1);
                    let p = c.data_block_nodes()[w].parent->0;
                    let q = c.interval_nodes()[p].parent->0;
                    assert(c.section_live(q) && c.section_nodes()[q].parent == Some(m));
                    assert(n.sections.contains(q));
                    let k = choose|k: int| 0 <= k < n.sections.len() && n.sections[k] == q;
                    assert(section_subtree(c, n.sections[k]).contains(w));
                }
            }
        }
    }
}

/// The identifiers of a live tree.
pub open spec fn ir_subtree(c: Context, u: u128) -> Set<u128> {
    Set::new(
        |v: u128|
            v == u || (c.module_live(v) && c.module_nodes()[v].parent == Some(u)) || (
            c.section_live(v) && match c.section_nodes()[v].parent {
                Some(m) => c.module_live(m) && c.module_nodes()[m].parent == Some(u),
                None => false,
            }) || (c.symbol_live(v) && match c.symbol_nodes()[v].parent {
                Some(m) => c.module_live(m) && c.module_nodes()[m].parent == Some(u),
                None => false,
            }) || (c.proxy_block_live(v) && match c.proxy_block_nodes()[v].parent {
                Some(m) => c.module_live(m) && c.module_nodes()[m].parent == Some(u),
                None => false,
            }) || (c.interval_live(v) && match c.interval_nodes()[v].parent {
                Some(p) => c.section_live(p) && match c.section_nodes()[p].parent {
                    Some(m) => c.module_live(m) && c.module_nodes()[m].parent == Some(u),
                    None => false,
                },
                None => false,
            }) || (c.code_block_live(v) && match c.code_block_nodes()[v].parent {
                Some(p) => c.interval_live(p) && match c.interval_nodes()[p].parent {
                    Some(q) => c.section_live(q) && match c.section_nodes()[q].parent {
                        Some(m) => c.module_live(m) && c.module_nodes()[m].parent == Some(u),
                        None => false,
                    },
                    None => false,
                },
                None => false,
            }) || (c.data_block_live(v) && match c.data_block_nodes()[v].parent {
                Some(p) => c.interval_live(p) && match c.interval_nodes()[p].parent {
                    Some(q) => c.section_live(q) && match c.section_nodes()[q].parent {
                        Some(m) => c.module_live(m) && c.module_nodes()[m].parent == Some(u),
                        None => false,
                    },
                    None => false,
                },
                None => false,
            }),
    )
}

/// The identifiers of the subtrees of a run of live modules.
pub open spec fn modules_subtrees(c: Context, mods: Seq<u128>) -> Set<u128> {
    Set::new(
        |v: u128|
            exists|k: int| 0 <= k < mods.len() && module_subtree(c, #[trigger] mods[k]).contains(
                v,
            ),
    )
}

/// Distinct live modules have disjoint subtrees.
proof fn lemma_module_subtrees_disjoint(c: Context, m1: u128, m2: u128, w: u128)
    requires
        c.wf(),
        c.module_live(m1),
        c.module_live(m2),
        m1 != m2,
        module_subtree(c, m1).contains(w),
    ensures
        !module_subtree(c, m2).contains(w),
{
    assert(c.kind_count(w) <= 1);
    assert(c.kind_count(m1) <= 1);
    assert(c.kind_count(m2) <= 1);
}

/// A run of distinct, live sibling modules is admitted against any set
/// disjoint from their subtrees, and registers exactly those subtrees.
proof fn lemma_load_modules_of_list(c: Context, l: Set<u128>, mods: Seq<u128>, u: u128)
    requires
        c.wf(),
        forall|k: int|
            0 <= k < mods.len() ==> c.module_live(#[trigger] mods[k])
                && c.module_nodes()[mods[k]].parent == Some(u),
        mods.no_duplicates(),
        forall|v: u128, k: int|
            0 <= k < mods.len() && #[trigger] module_subtree(c, mods[k]).contains(v)
                ==> !l.contains(v),
    ensures
        spec_load_modules(l, mods.map_values(|m: u128| module_msg_view(c, m))) == Ok::<
            Set<u128>,
            Error,
        >(l.union(modules_subtrees(c, mods))),
    decreases mods.len(),
{
    let views = mods.map_values(|m: u128| module_msg_view(c, m));
    if mods.len() == 0 {
        assert(l.union(modules_subtrees(c, mods)) =~= l);
    } else {
        let m0 = mods[0];
        assert forall|v: u128| module_subtree(c, m0).contains(v) implies !l.contains(v) by {
            assert(module_subtree(c, mods[0]).contains(v));
        }
        lemma_load_module_of_view(c, m0, l);
        assert(views[0] == module_msg_view(c, m0));
        let l2 = l.union(module_subtree(c, m0));
        let rest = mods.drop_first();
        assert(views.drop_first() =~= rest.map_values(|m: u128| module_msg_view(c, m)));
        assert forall|k: int| 0 <= k < rest.len() implies c.module_live(#[trigger] rest[k])
            && c.module_nodes()[rest[k]].parent == Some(u) by {
            assert(rest[k] == mods[k + 1]);
            assert(c.module_live(mods[k + 1]));
        }
        assert forall|v: u128, k: int|
            0 <= k < rest.len() && #[trigger] module_subtree(c, rest[k]).contains(v)
                implies !l2.contains(v) by {
            assert(rest[k] == mods[k + 1]);
            assert(module_subtree(c, mods[k + 1]).contains(v));
            lemma_module_subtrees_disjoint(c, mods[k + 1], m0, v);
        }
        lemma_load_modules_of_list(c, l2, rest, u);
        assert(l2.union(modules_subtrees(c, rest)) =~= l.union(modules_subtrees(c, mods))) by {
            assert forall|v: u128|
                l2.union(modules_subtrees(c, rest)).contains(v) implies l.union(
                modules_subtrees(c, mods),
            ).contains(v) by {
                if module_subtree(c, m0).contains(v) {
                    assert(module_subtree(c, mods[0]).contains(v));
                } else if modules_subtrees(c, rest).contains(v) {
                    let k = choose|k: int|
                        0 <= k < rest.len() && module_subtree(c, #[trigger] rest[k]).contains(
                            v,
                        );
                    assert(mods[k + 1] == rest[k]);
                    assert(module_subtree(c, mods[k + 1]).contains(v));
                }
            }
            assert forall|v: u128|
                l.union(modules_subtrees(c, mods)).contains(v) implies l2.union(
                modules_subtrees(c, rest),
            ).contains(v) by {
                if !l.contains(v) {
                    let k = choose|k: int|
                        0 <= k < mods.len() && module_subtree(c, #[trigger] mods[k]).contains(
                            v,
                        );
                    if k > 0 {
                        assert(rest[k - 1] == mods[k]);
                        assert(module_subtree(c, rest[k - 1]).contains(v));
                    }
                }
            }
        }
    }
}

/// A live, well-formed tree's record is admitted against any set disjoint
/// from the tree, and registers exactly the tree's identifiers.
#[verifier::rlimit(100)]
#[verifier::spinoff_prover]
pub proof fn lemma_load_ir_of_view(c: Context, u: u128, l: Set<u128>)
    requires
        c.wf(),
        c.ir_live(u),
        forall|v: u128| ir_subtree(c, u).contains(v) ==> !l.contains(v),
    ensures
        spec_load_ir(l, ir_msg_view(c, u)) == Ok::<Set<u128>, Error>(
            l.union(ir_subtree(c, u)),
        ),
{
    let v = ir_msg_view(c, u);
    let n = c.ir_nodes()[u];
    assert(c.ir_node_ok(u));
    assert(ir_subtree(c, u).contains(u));
    assert(!l.contains(u));
    let l1 = l.insert(u);
    assert forall|k: int| 0 <= k < n.modules.len() implies c.module_live(
        #[trigger] n.modules[k],
    ) && c.module_nodes()[n.modules[k]].parent == Some(u) by {
        assert(c.module_child_ok(n.modules[k], u));
    }
    assert forall|w: u128, k: int|
        0 <= k < n.modules.len() && #[trigger] module_subtree(c, n.modules[k]).contains(w)
            implies !l1.contains(w) by {
        assert(c.module_child_ok(n.modules[k], u));
        assert(c.kind_count(w) <= 1);
        assert(ir_subtree(c, u).contains(w));
        assert(c.kind_count(u) <= 1);
    }
    assert(v.modules =~= n.modules.map_values(|m: u128| module_msg_view(c, m)));
    lemma_load_modules_of_list(c, l1, n.modules, u);
    assert(l1.union(modules_subtrees(c, n.modules)) =~= l.union(ir_subtree(c, u))) by {
        assert forall|w: u128|
            l1.union(modules_subtrees(c, n.modules)).contains(w) implies l.union(
            ir_subtree(c, u),
        ).contains(w) by {
            if !l.contains(w) && w != u {
                let k = choose|k: int|
                    0 <= k < n.modules.len() && module_subtree(c, #[trigger] n.modules[k]).contains(
                        w,
                    );
                assert(c.module_child_ok(n.modules[k], u));
                assert(c.kind_count(w) <= 1);
            }
        }
        assert forall|w: u128|
            l.union(ir_subtree(c, u)).contains(w) implies l1.union(
            modules_subtrees(c, n.modules),
        ).contains(w) by {
            if !l.contains(w) && w != u {
                if c.module_live(w) && c.module_nodes()[w].parent == Some(u) {
                    assert(n.modules.contains(w));
                    let k = choose|k: int| 0 <= k < n.modules.len() && n.modules[k] == w;
                    assert(module_subtree(c, n.modules[k]).contains(w));
                } else if c.section_live(w) {
                    assert(c.kind_count(w) <= 1);
                    let m = c.section_nodes()[w].parent->0;
                    assert(n.modules.contains(m));
                    let k = choose|k: int| 0 <= k < n.modules.len() && n.modules[k] == m;
                    assert(module_subtree(c, n.modules[k]).contains(w));
                } else if c.symbol_live(w) {
                    assert(c.kind_count(w) <= 1);
                    let m = c.symbol_nodes()[w].parent->0;
                    assert(n.modules.contains(m));
                    let k = choose|k: int| 0 <= k < n.modules.len() && n.modules[k] == m;
                    assert(module_subtree(c, n.modules[k]).contains(w));
                } else if c.proxy_block_live(w) {
                    assert(c.kind_count(w) <= 1);
                    let m = c.proxy_block_nodes()[w].parent->0;
                    assert(n.modules.contains(m));
                    let k = choose|k: int| 0 <= k < n.modules.len() && n.modules[k] == m;
                    assert(module_subtree(c, n.modules[k]).contains(w));
                } else if c.interval_live(w) {
                    assert(c.kind_count(w) <= 1);
                    let p = c.interval_nodes()[w].parent->0;
                    let m = c.section_nodes()[p].parent->0;
                    assert(n.modules.contains(m));
                    let k = choose|k: int| 0 <= k < n.modules.len() && n.modules[k] == m;
                    assert(module_subtree(c, n.modules[k]).contains(w));
                } else if c.code_block_live(w) {
                    assert(c.kind_count(w) <= 1);
                    let p = c.code_block_nodes()[w].parent->0;
                    let q = c.interval_nodes()[p].parent->0;
                    let m = c.section_nodes()[q].parent->0;
                    assert(n.modules.contains(m));
                    let k = choose|k: int| 0 <= k < n.modules.len() && n.modules[k] == m;
                    assert(module_subtree(c, n.modules[k]).contains(w));
                } else {
                    assert(c.data_block_live(w));
                    assert(c.kind_count(w) <= 1);
                    let p = c.data_block_nodes()[w].parent->0;
                    let q = c.interval_nodes()[p].parent->0;
                    let m = c.section_nodes()[q].parent->0;
                    assert(n.modules.contains(m));
                    let k = choose|k: int| 0 <= k < n.modules.len() && n.modules[k] == m;
                    assert(module_subtree(c, n.modules[k]).contains(w));
                }
            }
        }
    }
}

/// The whole round trip, as one law: encoding a live, well-formed tree
/// and decoding the bytes parses back to exactly the tree's record view,
/// that view is already canonical, and an empty registry admits it.
/// Together with the contracts of [`encode`] and [`decode`], a decode of
/// an encode therefore rebuilds a structurally equal tree.
pub proof fn lemma_encode_decode_round_trip(c: Context, u: u128)
    requires
        c.wf(),
        c.ir_live(u),
        ir_bounded(ir_msg_view(c, u)),
        spec_encode_ir(ir_msg_view(c, u)).len() <= u64::MAX,
    ensures
        spec_parse_file(spec_encode_file(ir_msg_view(c, u))) == Ok::<IrV, Error>(
            ir_msg_view(c, u),
        ),
        canon_ir(ir_msg_view(c, u)) == ir_msg_view(c, u),
        spec_load_ir(Set::empty(), ir_msg_view(c, u)) == Ok::<Set<u128>, Error>(
            ir_subtree(c, u),
        ),
{
    lemma_file_round_trip(ir_msg_view(c, u));
    lemma_ir_view_canonical(c, u);
    lemma_load_ir_of_view(c, u, Set::empty());
    assert(Set::<u128>::empty().union(ir_subtree(c, u)) =~= ir_subtree(c, u));
}

impl crate::byte_interval::ByteInterval {
    /// Load one byte-interval record: register the interval and its
    /// blocks.  Succeeds exactly when [`spec_load_interval`] admits the
    /// record against the identifiers already live — fresh identifiers,
    /// contents within the declared size, admissible symbolic expressions
    /// — and then the loaded interval reads back as the record's
    /// canonical value.  On failure the admission's error is returned;
    /// already-registered nodes of this record may remain, and a
    /// whole-file decode discards its context on any failure.
    #[verifier::rlimit(100)]
    #[verifier::spinoff_prover]
    pub fn load_protobuf(
        context: &mut Context,
        message: &crate::proto::ByteInterval,
    ) -> (r: Result<crate::byte_interval::ByteIntervalRef, Error>)
        requires
            old(context).wf(),
        ensures
            final(context).wf(),
            grows_only(*old(context), *final(context)),
            match r {
                Ok(b) => {
                    &&& b.uuid.0 == message.uuid
                    &&& !old(context).live(message.uuid)
                    &&& final(context).interval_live(b.uuid.0)
                    &&& final(context).interval_nodes()[b.uuid.0].parent is None
                    &&& interval_msg_view(*final(context), b.uuid.0) == canon_interval(message@)
                    &&& match spec_load_interval(live_set(*old(context)), message@) {
                        Ok(l2) => live_set(*final(context)) == l2,
                        Err(_) => false,
                    }
                },
                Err(e) => spec_load_interval(live_set(*old(context)), message@) == Err::<
                    Set<u128>,
                    Error,
                >(e),
            },
    {
        let u = message.uuid;
        if context.contains_any(u) {
            return Err(Error::StructuralDecodeError);
        }
        if (message.contents.len() as u64) > message.size {
            return Err(Error::InvalidSizes);
        }
        let ns = message.symbolic_expressions.len();
        let mut k: usize = 0;
        while k < ns
            invariant
                old(context).wf(),
                *context == *old(context),
                !old(context).live(message.uuid),
                message@.contents.len() <= message@.size,
                k <= ns,
                ns == message.symbolic_expressions@.len(),
                forall|i: int|
                    0 <= i < k ==> (#[trigger] message.symbolic_expressions@[i]).0
                        < message.size,
                forall|i: int, j: int|
                    0 <= i < j < k ==> message.symbolic_expressions@[i].0
                        < message.symbolic_expressions@[j].0,
            decreases ns - k,
        {
            let (off, _) = message.symbolic_expressions[k];
            if off >= message.size {
                proof {
                    assert(message@.symbolic_expressions[k as int].0 >= message@.size);
                    assert(!symexprs_admissible(message@.symbolic_expressions, message@.size));
                }
                return Err(Error::InvalidSizes);
            }
            if k > 0 {
                let (prev, _) = message.symbolic_expressions[k - 1];
                if prev >= off {
                    proof {
                        assert(message@.symbolic_expressions[k - 1].0
                            >= message@.symbolic_expressions[k as int].0);
                        assert(!symexprs_admissible(
                            message@.symbolic_expressions,
                            message@.size,
                        ));
                    }
                    return Err(Error::InvalidSizes);
                }
                proof {
                    assert forall|i: int|
                        0 <= i < k implies message.symbolic_expressions@[i].0
                        < message.symbolic_expressions@[k as int].0 by {
                        if i < k - 1 {
                            assert(message.symbolic_expressions@[i].0
                                < message.symbolic_expressions@[k - 1].0);
                        }
                    }
                }
            }
            k = k + 1;
        }
        proof {
            assert(symexprs_admissible(message@.symbolic_expressions, message@.size));
        }
        let node = crate::byte_interval::ByteInterval {
            size: message.size,
            address: if message.has_address {
                Some(crate::addr::Addr(message.address))
            } else {
                None
            },
            bytes: vstd::slice::slice_to_vec(message.contents.as_slice()),
            code_blocks: Vec::new(),
            data_blocks: Vec::new(),
            symbolic_expressions: vstd::slice::slice_to_vec(
                message.symbolic_expressions.as_slice(),
            ),
            parent: None,
        };
        proof {
            assert(node@.code_blocks =~= Seq::<u128>::empty());
            assert(node@.data_blocks =~= Seq::<u128>::empty());
        }
        context.insert_byte_interval(u, node);
        proof {
            reveal(Seq::filter);
            assert(live_set(*context) =~= live_set(*old(context)).insert(u));
            assert(message@.blocks.skip(0) =~= message@.blocks);
            assert(message@.blocks.take(0) =~= Seq::<Block>::empty());
            assert(spec_code_blocks(Seq::<Block>::empty()) =~= Seq::<Block>::empty());
            assert(spec_data_blocks(Seq::<Block>::empty()) =~= Seq::<Block>::empty());
        }
        let bref = crate::byte_interval::ByteIntervalRef { uuid: crate::ident::Uuid(u) };
        let nb = message.blocks.len();
        let mut j: usize = 0;
        while j < nb
            invariant
                j <= nb,
                nb == message.blocks@.len(),
                context.wf(),
                context.interval_live(u),
                context.interval_nodes()[u].parent is None,
                context.interval_nodes()[u].size == message.size,
                context.interval_nodes()[u].address == (if message.has_address {
                    Some(crate::addr::Addr(message.address))
                } else {
                    None
                }),
                context.interval_nodes()[u].bytes == message.contents@,
                context.interval_nodes()[u].symbolic_expressions
                    == message.symbolic_expressions@,
                bref.uuid.0 == u,
                grows_only(*old(context), *context),
                !old(context).live(message.uuid),
                u == message.uuid,
                message@.contents.len() <= message@.size,
                symexprs_admissible(message@.symbolic_expressions, message@.size),
                spec_load_blocks(
                    live_set(*old(context)).insert(u),
                    message@.blocks,
                ) == spec_load_blocks(live_set(*context), message@.blocks.skip(j as int)),
                context.interval_nodes()[u].code_blocks.map_values(
                    |c: u128| code_block_rec_view(*context, c),
                ) == spec_code_blocks(message@.blocks.take(j as int)),
                context.interval_nodes()[u].data_blocks.map_values(
                    |c: u128| data_block_rec_view(*context, c),
                ) == spec_data_blocks(message@.blocks.take(j as int)),
            decreases nb - j,
        {
            let ghost pre = *context;
            let blk = message.blocks[j];
            proof {
                assert(blk == message@.blocks[j as int]);
                assert(message@.blocks.skip(j as int)[0] == message@.blocks[j as int]);
                assert(message@.blocks.skip(j as int).drop_first() =~= message@.blocks.skip(
                    j as int + 1,
                ));
                assert(message@.blocks.take(j as int + 1).drop_last() =~= message@.blocks.take(
                    j as int,
                ));
                assert(message@.blocks.take(j as int + 1).last() == message@.blocks[j as int]);
            }
            match blk.body {
                BlockBody::Code { uuid, size, decode_mode } => {
                    if context.contains_any(uuid) {
                        proof {
                            assert(block_uuid(message@.blocks[j as int]) == uuid);
                            assert(live_set(*context).contains(uuid));
                        }
                        return Err(Error::StructuralDecodeError);
                    }
                    context.insert_code_block(
                        uuid,
                        crate::code_block::CodeBlock {
                            offset: blk.offset,
                            size,
                            decode_mode,
                            parent: None,
                        },
                    );
                    let cref = crate::code_block::CodeBlockRef { uuid: crate::ident::Uuid(uuid) };
                    match bref.add_code_block(context, &cref) {
                        Ok(()) => {},
                        Err(_) => {
                            proof {
                                assert(false);
                            }
                        },
                    }
                    proof {
                        reveal(Seq::filter);
                        assert(live_set(*context) =~= live_set(pre).insert(uuid));
                        assert(code_block_rec_view(*context, uuid) == message@.blocks[j as int]);
                        assert(context.interval_nodes()[u].code_blocks =~= pre.interval_nodes()[
                            u
                        ].code_blocks.push(uuid));
                        assert(spec_code_blocks(message@.blocks.take(j as int + 1))
                            == spec_code_blocks(message@.blocks.take(j as int)).push(blk));
                        assert(spec_data_blocks(message@.blocks.take(j as int + 1))
                            == spec_data_blocks(message@.blocks.take(j as int)));
                        assert forall|i: int|
                            0 <= i < pre.interval_nodes()[u].code_blocks.len() implies code_block_rec_view(
                            *context,
                            #[trigger] pre.interval_nodes()[u].code_blocks[i],
                        ) == code_block_rec_view(pre, pre.interval_nodes()[u].code_blocks[i]) by {
                            assert(pre.code_block_child_ok(
                                pre.interval_nodes()[u].code_blocks[i],
                                u,
                            ));
                        }
                        assert forall|i: int|
                            0 <= i < context.interval_nodes()[u].code_blocks.len() implies code_block_rec_view(
                            *context,
                            context.interval_nodes()[u].code_blocks[i],
                        ) == spec_code_blocks(message@.blocks.take(j as int + 1))[i] by {
                            if i < pre.interval_nodes()[u].code_blocks.len() {
                                assert(context.interval_nodes()[u].code_blocks[i]
                                    == pre.interval_nodes()[u].code_blocks[i]);
                                assert(pre.interval_nodes()[u].code_blocks.map_values(
                                    |c: u128| code_block_rec_view(pre, c),
                                )[i] == code_block_rec_view(
                                    pre,
                                    pre.interval_nodes()[u].code_blocks[i],
                                ));
                            } else {
                                assert(context.interval_nodes()[u].code_blocks[i] == uuid);
                            }
                        }
                        assert(context.interval_nodes()[u].code_blocks.map_values(
                            |c: u128| code_block_rec_view(*context, c),
                        ) =~= spec_code_blocks(message@.blocks.take(j as int + 1)));
                        assert forall|i: int|
                            0 <= i < pre.interval_nodes()[u].data_blocks.len() implies data_block_rec_view(
                            *context,
                            #[trigger] pre.interval_nodes()[u].data_blocks[i],
                        ) == data_block_rec_view(pre, pre.interval_nodes()[u].data_blocks[i]) by {
                            assert(pre.data_block_child_ok(
                                pre.interval_nodes()[u].data_blocks[i],
                                u,
                            ));
                        }
                        assert forall|i: int|
                            0 <= i < context.interval_nodes()[u].data_blocks.len() implies data_block_rec_view(
                            *context,
                            context.interval_nodes()[u].data_blocks[i],
                        ) == spec_data_blocks(message@.blocks.take(j as int + 1))[i] by {
                            assert(context.interval_nodes()[u].data_blocks[i]
                                == pre.interval_nodes()[u].data_blocks[i]);
                            assert(pre.interval_nodes()[u].data_blocks.map_values(
                                |c: u128| data_block_rec_view(pre, c),
                            )[i] == data_block_rec_view(
                                pre,
                                pre.interval_nodes()[u].data_blocks[i],
                            ));
                        }
                        assert(context.interval_nodes()[u].data_blocks.map_values(
                            |c: u128| data_block_rec_view(*context, c),
                        ) =~= spec_data_blocks(message@.blocks.take(j as int + 1)));
                    }
                },
                BlockBody::Data { uuid, size } => {
                    if context.contains_any(uuid) {
                        proof {
                            assert(block_uuid(message@.blocks[j as int]) == uuid);
                            assert(live_set(*context).contains(uuid));
                        }
                        return Err(Error::StructuralDecodeError);
                    }
                    context.insert_data_block(
                        uuid,
                        crate::data_block::DataBlock { offset: blk.offset, size, parent: None },
                    );
                    let dref = crate::data_block::DataBlockRef { uuid: crate::ident::Uuid(uuid) };
                    match bref.add_data_block(context, &dref) {
                        Ok(()) => {},
                        Err(_) => {
                            proof {
                                assert(false);
                            }
                        },
                    }
                    proof {
                        reveal(Seq::filter);
                        assert(live_set(*context) =~= live_set(pre).insert(uuid));
                        assert(data_block_rec_view(*context, uuid) == message@.blocks[j as int]);
                        assert(context.interval_nodes()[u].data_blocks =~= pre.interval_nodes()[
                            u
                        ].data_blocks.push(uuid));
                        assert(spec_data_blocks(message@.blocks.take(j as int + 1))
                            == spec_data_blocks(message@.blocks.take(j as int)).push(blk));
                        assert(spec_code_blocks(message@.blocks.take(j as int + 1))
                            == spec_code_blocks(message@.blocks.take(j as int)));
                        assert forall|i: int|
                            0 <= i < pre.interval_nodes()[u].data_blocks.len() implies data_block_rec_view(
                            *context,
                            #[trigger] pre.interval_nodes()[u].data_blocks[i],
                        ) == data_block_rec_view(pre, pre.interval_nodes()[u].data_blocks[i]) by {
                            assert(pre.data_block_child_ok(
                                pre.interval_nodes()[u].data_blocks[i],
                                u,
                            ));
                        }
                        assert forall|i: int|
                            0 <= i < context.interval_nodes()[u].data_blocks.len() implies data_block_rec_view(
                            *context,
                            context.interval_nodes()[u].data_blocks[i],
                        ) == spec_data_blocks(message@.blocks.take(j as int + 1))[i] by {
                            if i < pre.interval_nodes()[u].data_blocks.len() {
                                assert(context.interval_nodes()[u].data_blocks[i]
                                    == pre.interval_nodes()[u].data_blocks[i]);
                                assert(pre.interval_nodes()[u].data_blocks.map_values(
                                    |c: u128| data_block_rec_view(pre, c),
                                )[i] == data_block_rec_view(
                                    pre,
                                    pre.interval_nodes()[u].data_blocks[i],
                                ));
                            } else {
                                assert(context.interval_nodes()[u].data_blocks[i] == uuid);
                            }
                        }
                        assert(context.interval_nodes()[u].data_blocks.map_values(
                            |c: u128| data_block_rec_view(*context, c),
                        ) =~= spec_data_blocks(message@.blocks.take(j as int + 1)));
                        assert forall|i: int|
                            0 <= i < pre.interval_nodes()[u].code_blocks.len() implies code_block_rec_view(
                            *context,
                            #[trigger] pre.interval_nodes()[u].code_blocks[i],
                        ) == code_block_rec_view(pre, pre.interval_nodes()[u].code_blocks[i]) by {
                            assert(pre.code_block_child_ok(
                                pre.interval_nodes()[u].code_blocks[i],
                                u,
                            ));
                        }
                        assert forall|i: int|
                            0 <= i < context.interval_nodes()[u].code_blocks.len() implies code_block_rec_view(
                            *context,
                            context.interval_nodes()[u].code_blocks[i],
                        ) == spec_code_blocks(message@.blocks.take(j as int + 1))[i] by {
                            assert(context.interval_nodes()[u].code_blocks[i]
                                == pre.interval_nodes()[u].code_blocks[i]);
                            assert(pre.interval_nodes()[u].code_blocks.map_values(
                                |c: u128| code_block_rec_view(pre, c),
                            )[i] == code_block_rec_view(
                                pre,
                                pre.interval_nodes()[u].code_blocks[i],
                            ));
                        }
                        assert(context.interval_nodes()[u].code_blocks.map_values(
                            |c: u128| code_block_rec_view(*context, c),
                        ) =~= spec_code_blocks(message@.blocks.take(j as int + 1)));
                    }
                },
            }
            j = j + 1;
        }
        proof {
            assert(message@.blocks.take(nb as int) =~= message@.blocks);
            assert(message@.blocks.skip(nb as int) =~= Seq::<Block>::empty());
            assert(interval_msg_view(*context, u).blocks =~= spec_code_blocks(message@.blocks)
                + spec_data_blocks(message@.blocks));
            assert(interval_msg_view(*context, u) == canon_interval(message@));
        }
        Ok(bref)
    }
}

impl crate::section::Section {
    /// Load one section record: register the section, its flags and its
    /// byte intervals.  Succeeds exactly when [`spec_load_section`] admits
    /// the record — fresh identifiers, declared flag codes, admissible
    /// intervals — and then the loaded section reads back as the record's
    /// canonical value (flags deduplicated).  On failure the admission's
    /// error is returned; already-registered nodes of this record may
    /// remain, and a whole-file decode discards its context on failure.
    #[verifier::rlimit(100)]
    #[verifier::spinoff_prover]
    pub fn load_protobuf(
        context: &mut Context,
        message: &crate::proto::Section,
    ) -> (r: Result<crate::section::SectionRef, Error>)
        requires
            old(context).wf(),
        ensures
            final(context).wf(),
            grows_only(*old(context), *final(context)),
            match r {
                Ok(s) => {
                    &&& s.uuid.0 == message.uuid
                    &&& !old(context).live(message.uuid)
                    &&& final(context).section_live(s.uuid.0)
                    &&& final(context).section_nodes()[s.uuid.0].parent is None
                    &&& section_msg_view(*final(context), s.uuid.0) == canon_section(message@)
                    &&& match spec_load_section(live_set(*old(context)), message@) {
                        Ok(l2) => live_set(*final(context)) == l2,
                        Err(_) => false,
                    }
                },
                Err(e) => spec_load_section(live_set(*old(context)), message@) == Err::<
                    Set<u128>,
                    Error,
                >(e),
            },
    {
        let u = message.uuid;
        if context.contains_any(u) {
            return Err(Error::StructuralDecodeError);
        }
        let nf = message.section_flags.len();
        let mut flags: Vec<crate::tags::SectionFlag> = Vec::new();
        let mut k: usize = 0;
        proof {
            assert(message@.section_flags.skip(0) =~= message@.section_flags);
            assert(message@.section_flags.take(0) =~= Seq::<u64>::empty());
            assert(flags@.map_values(
                |f: crate::tags::SectionFlag| crate::tags::spec_section_flag_code(f),
            ) =~= spec_dedup(message@.section_flags.take(0)));
        }
        while k < nf
            invariant
                old(context).wf(),
                *context == *old(context),
                !old(context).live(message.uuid),
                u == message.uuid,
                k <= nf,
                nf == message.section_flags@.len(),
                flags@.no_duplicates(),
                flags@.map_values(
                    |f: crate::tags::SectionFlag| crate::tags::spec_section_flag_code(f),
                ) == spec_dedup(message@.section_flags.take(k as int)),
                spec_check_flags(message@.section_flags) == spec_check_flags(
                    message@.section_flags.skip(k as int),
                ),
            decreases nf - k,
        {
            let code = message.section_flags[k];
            proof {
                assert(message@.section_flags.skip(k as int)[0] == message@.section_flags[
                    k as int
                ]);
                assert(message@.section_flags.skip(k as int).drop_first()
                    =~= message@.section_flags.skip(k as int + 1));
                assert(message@.section_flags.take(k as int + 1).drop_last()
                    =~= message@.section_flags.take(k as int));
                assert(message@.section_flags.take(k as int + 1).last()
                    == message@.section_flags[k as int]);
            }
            let f = match crate::tags::section_flag_from_code(code) {
                Some(f) => f,
                None => {
                    return Err(Error::UnknownEnum(crate::error::TagKind::SectionFlagTag));
                },
            };
            proof {
                crate::tags::lemma_section_flag_round_trip(f);
                assert(crate::tags::spec_section_flag_code(f) == code);
            }
            let m = flags.len();
            let mut seen = false;
            let mut i: usize = 0;
            while i < m
                invariant
                    old(context).wf(),
                    *context == *old(context),
                    i <= m,
                    m == flags@.len(),
                    seen == exists|jj: int| 0 <= jj < i && flags@[jj] == f,
                decreases m - i,
            {
                if flags[i] == f {
                    seen = true;
                    proof {
                        assert(flags@[i as int] == f);
                    }
                }
                i = i + 1;
            }
            proof {
                let mapped = flags@.map_values(
                    |g: crate::tags::SectionFlag| crate::tags::spec_section_flag_code(g),
                );
                lemma_dedup_contains(message@.section_flags.take(k as int), code);
                if seen {
                    let jj = choose|jj: int| 0 <= jj < flags@.len() && flags@[jj] == f;
                    assert(mapped[jj] == code);
                    assert(mapped.contains(code));
                } else {
                    if mapped.contains(code) {
                        let jj = choose|jj: int| 0 <= jj < mapped.len() && mapped[jj] == code;
                        crate::tags::lemma_section_flag_round_trip(flags@[jj]);
                        assert(flags@[jj] == f);
                    }
                    assert(!mapped.contains(code));
                }
            }
            if !seen {
                let ghost old_flags = flags@;
                flags.push(f);
                proof {
                    assert forall|a: int, b2: int|
                        0 <= a < b2 < flags@.len() implies flags@[a] != flags@[b2] by {
                        if b2 == flags@.len() - 1 {
                            assert(flags@[a] == old_flags[a]);
                        }
                    }
                    assert(flags@.map_values(
                        |g: crate::tags::SectionFlag| crate::tags::spec_section_flag_code(g),
                    ) =~= spec_dedup(message@.section_flags.take(k as int + 1)));
                }
            } else {
                proof {
                    assert(spec_dedup(message@.section_flags.take(k as int + 1)) == spec_dedup(
                        message@.section_flags.take(k as int),
                    ));
                }
            }
            k = k + 1;
        }
        proof {
            assert(message@.section_flags.take(nf as int) =~= message@.section_flags);
            assert(message@.section_flags.skip(nf as int) =~= Seq::<u64>::empty());
        }
        let node = crate::section::Section {
            name: message.name.clone(),
            flags,
            byte_intervals: Vec::new(),
            parent: None,
        };
        proof {
            assert(node@.byte_intervals =~= Seq::<u128>::empty());
        }
        context.insert_section(u, node);
        proof {
            assert(live_set(*context) =~= live_set(*old(context)).insert(u));
            assert(message@.byte_intervals.skip(0) =~= message@.byte_intervals);
            assert(message@.byte_intervals.take(0) =~= Seq::<ByteIntervalV>::empty());
        }
        let sref = crate::section::SectionRef { uuid: crate::ident::Uuid(u) };
        let ni = message.byte_intervals.len();
        let mut j: usize = 0;
        while j < ni
            invariant
                j <= ni,
                ni == message.byte_intervals@.len(),
                context.wf(),
                context.section_live(u),
                context.section_nodes()[u].parent is None,
                context.section_nodes()[u].name == message.name@,
                context.section_nodes()[u].flags.map_values(
                    |f: crate::tags::SectionFlag| crate::tags::spec_section_flag_code(f),
                ) == spec_dedup(message@.section_flags),
                sref.uuid.0 == u,
                grows_only(*old(context), *context),
                !old(context).live(message.uuid),
                u == message.uuid,
                spec_check_flags(message@.section_flags) == Ok::<(), Error>(()),
                spec_load_intervals(
                    live_set(*old(context)).insert(u),
                    message@.byte_intervals,
                ) == spec_load_intervals(
                    live_set(*context),
                    message@.byte_intervals.skip(j as int),
                ),
                context.section_nodes()[u].byte_intervals.len() == j,
                forall|i: int|
                    0 <= i < j ==> #[trigger] context.section_nodes()[u].byte_intervals[i]
                        == message@.byte_intervals[i].uuid,
                forall|i: int|
                    0 <= i < j ==> interval_msg_view(
                        *context,
                        #[trigger] context.section_nodes()[u].byte_intervals[i],
                    ) == canon_interval(message@.byte_intervals[i]),
            decreases ni - j,
        {
            let ghost pre = *context;
            proof {
                assert(message.byte_intervals@[j as int]@ == message@.byte_intervals[j as int]);
                assert(message@.byte_intervals.skip(j as int)[0] == message@.byte_intervals[
                    j as int
                ]);
                assert(message@.byte_intervals.skip(j as int).drop_first()
                    =~= message@.byte_intervals.skip(j as int + 1));
            }
            let bref = match crate::byte_interval::ByteInterval::load_protobuf(
                context,
                &message.byte_intervals[j],
            ) {
                Ok(b) => b,
                Err(e) => {
                    return Err(e);
                },
            };
            let ghost mid = *context;
            match sref.add_byte_interval(context, &bref) {
                Ok(()) => {},
                Err(_) => {
                    proof {
                        assert(false);
                    }
                },
            }
            proof {
                // the freshly loaded interval keeps its record view across
                // the attach, and earlier intervals keep theirs across the
                // whole step
                assert(live_set(*context) =~= live_set(mid));
                lemma_interval_view_frame(mid, *context, bref.uuid.0);
                assert(interval_msg_view(*context, bref.uuid.0) == canon_interval(
                    message@.byte_intervals[j as int],
                ));
                assert forall|i: int|
                    0 <= i < j implies interval_msg_view(
                    *context,
                    #[trigger] context.section_nodes()[u].byte_intervals[i],
                ) == canon_interval(message@.byte_intervals[i]) by {
                    let c = pre.section_nodes()[u].byte_intervals[i];
                    assert(context.section_nodes()[u].byte_intervals[i] == c);
                    assert(pre.interval_live(c)) by {
                        assert(pre.section_node_ok(u));
                        assert(pre.interval_child_ok(pre.section_nodes()[u].byte_intervals[i], u));
                    }
                    assert(mid.interval_nodes()[c] == pre.interval_nodes()[c]);
                    assert forall|v: u128|
                        pre.code_block_live(v) implies context.code_block_live(v)
                        && context.code_block_nodes()[v] == pre.code_block_nodes()[v] by {
                        assert(mid.code_block_live(v) && mid.code_block_nodes()[v]
                            == pre.code_block_nodes()[v]);
                    }
                    assert forall|v: u128|
                        pre.data_block_live(v) implies context.data_block_live(v)
                        && context.data_block_nodes()[v] == pre.data_block_nodes()[v] by {
                        assert(mid.data_block_live(v) && mid.data_block_nodes()[v]
                            == pre.data_block_nodes()[v]);
                    }
                    lemma_interval_view_frame(pre, *context, c);
                }
            }
            j = j + 1;
        }
        proof {
            assert(message@.byte_intervals.skip(ni as int) =~= Seq::<ByteIntervalV>::empty());
            assert(section_msg_view(*context, u).byte_intervals =~= message@.byte_intervals.map_values(
                |b: ByteIntervalV| canon_interval(b),
            ));
            assert(section_msg_view(*context, u) == canon_section(message@));
        }
        Ok(sref)
    }
}

impl crate::symbol::Symbol {
    /// Load one symbol record: register a fresh, detached symbol carrying
    /// the record's name and payload.  Succeeds exactly when the record's
    /// identifier is fresh.
    pub fn load_protobuf(context: &mut Context, message: &crate::proto::Symbol) -> (r: Result<
        crate::symbol::SymbolRef,
        Error,
    >)
        requires
            old(context).wf(),
        ensures
            final(context).wf(),
            grows_only(*old(context), *final(context)),
            match r {
                Ok(s) => {
                    &&& s.uuid.0 == message.uuid
                    &&& !old(context).live(message.uuid)
                    &&& final(context).symbol_live(s.uuid.0)
                    &&& final(context).symbol_nodes()[s.uuid.0].parent is None
                    &&& symbol_msg_view(*final(context), s.uuid.0) == message@
                    &&& match spec_load_symbol(live_set(*old(context)), message@) {
                        Ok(l2) => live_set(*final(context)) == l2,
                        Err(_) => false,
                    }
                },
                Err(e) => spec_load_symbol(live_set(*old(context)), message@) == Err::<
                    Set<u128>,
                    Error,
                >(e),
            },
    {
        let u = message.uuid;
        if context.contains_any(u) {
            return Err(Error::StructuralDecodeError);
        }
        context.insert_symbol(
            u,
            crate::symbol::Symbol {
                name: message.name.clone(),
                payload: message.payload,
                parent: None,
            },
        );
        proof {
            assert(live_set(*context) =~= live_set(*old(context)).insert(u));
        }
        Ok(crate::symbol::SymbolRef { uuid: crate::ident::Uuid(u) })
    }
}

impl crate::proxy_block::ProxyBlock {
    /// Load one proxy-block record: register a fresh, detached proxy block
    /// under the record's identifier.  Succeeds exactly when the
    /// identifier is fresh.
    pub fn load_protobuf(context: &mut Context, uuid: u128) -> (r: Result<
        crate::proxy_block::ProxyBlockRef,
        Error,
    >)
        requires
            old(context).wf(),
        ensures
            final(context).wf(),
            grows_only(*old(context), *final(context)),
            match r {
                Ok(p) => {
                    &&& p.uuid.0 == uuid
                    &&& !old(context).live(uuid)
                    &&& final(context).proxy_block_live(p.uuid.0)
                    &&& final(context).proxy_block_nodes()[p.uuid.0].parent is None
                    &&& live_set(*final(context)) == live_set(*old(context)).insert(uuid)
                },
                Err(e) => {
                    &&& live_set(*old(context)).contains(uuid)
                    &&& e == Error::StructuralDecodeError
                    &&& *final(context) == *old(context)
                },
            },
    {
        if context.contains_any(uuid) {
            return Err(Error::StructuralDecodeError);
        }
        context.insert_proxy_block(uuid, crate::proxy_block::ProxyBlock { parent: None });
        proof {
            assert(live_set(*context) =~= live_set(*old(context)).insert(uuid));
        }
        Ok(crate::proxy_block::ProxyBlockRef { uuid: crate::ident::Uuid(uuid) })
    }
}

impl crate::module::Module {
    /// Load one module record: register the module, then its symbols,
    /// proxy blocks and sections, in wire order.  Succeeds exactly when
    /// [`spec_load_module`] admits the record — fresh identifiers,
    /// declared tags, admissible children — and then the loaded module
    /// reads back as the record's canonical value.  On failure the
    /// admission's error is returned; already-registered nodes of this
    /// record may remain, and a whole-file decode discards its context on
    /// any failure.
    #[verifier::rlimit(100)]
    #[verifier::spinoff_prover]
    pub fn load_protobuf(context: &mut Context, message: &crate::proto::Module) -> (r: Result<
        crate::module::ModuleRef,
        Error,
    >)
        requires
            old(context).wf(),
        ensures
            final(context).wf(),
            grows_only(*old(context), *final(context)),
            match r {
                Ok(m) => {
                    &&& m.uuid.0 == message.uuid
                    &&& !old(context).live(message.uuid)
                    &&& final(context).module_live(m.uuid.0)
                    &&& final(context).module_nodes()[m.uuid.0].parent is None
                    &&& module_msg_view(*final(context), m.uuid.0) == canon_module(message@)
                    &&& match spec_load_module(live_set(*old(context)), message@) {
                        Ok(l2) => live_set(*final(context)) == l2,
                        Err(_) => false,
                    }
                },
                Err(e) => spec_load_module(live_set(*old(context)), message@) == Err::<
                    Set<u128>,
                    Error,
                >(e),
            },
    {
        let u = message.uuid;
        if context.contains_any(u) {
            return Err(Error::StructuralDecodeError);
        }
        let file_format = match crate::tags::file_format_from_code(message.file_format) {
            Some(f) => f,
            None => {
                return Err(Error::UnknownEnum(crate::error::TagKind::FileFormatTag));
            },
        };
        let isa = match crate::tags::isa_from_code(message.isa) {
            Some(f) => f,
            None => {
                return Err(Error::UnknownEnum(crate::error::TagKind::IsaTag));
            },
        };
        let byte_order = match crate::tags::byte_order_from_code(message.byte_order) {
            Some(f) => f,
            None => {
                return Err(Error::UnknownEnum(crate::error::TagKind::ByteOrderTag));
            },
        };
        proof {
            crate::tags::lemma_file_format_round_trip(file_format);
            crate::tags::lemma_isa_round_trip(isa);
            crate::tags::lemma_byte_order_round_trip(byte_order);
            assert(crate::tags::spec_file_format_code(file_format) == message@.file_format);
            assert(crate::tags::spec_isa_code(isa) == message@.isa);
            assert(crate::tags::spec_byte_order_code(byte_order) == message@.byte_order);
        }
        let mut aux_data: Vec<crate::aux_data::AuxEntry> = Vec::new();
        let na = message.aux_data.len();
        let mut a: usize = 0;
        proof {
            assert(crate::aux_data::aux_view(aux_data@) =~= crate::aux_data::aux_view(
                message.aux_data@,
            ).take(0));
        }
        while a < na
            invariant
                old(context).wf(),
                *context == *old(context),
                a <= na,
                na == message.aux_data@.len(),
                crate::aux_data::aux_view(aux_data@) == crate::aux_data::aux_view(
                    message.aux_data@,
                ).take(a as int),
            decreases na - a,
        {
            let entry = crate::aux_data::AuxEntry {
                key: message.aux_data[a].key.clone(),
                value: vstd::slice::slice_to_vec(message.aux_data[a].value.as_slice()),
            };
            proof {
                assert(entry@ == message.aux_data@[a as int]@);
            }
            let ghost prev = aux_data@;
            aux_data.push(entry);
            proof {
                assert(crate::aux_data::aux_view(aux_data@) =~= crate::aux_data::aux_view(
                    prev,
                ).push(entry@));
                assert(crate::aux_data::aux_view(message.aux_data@).take(a as int + 1)
                    =~= crate::aux_data::aux_view(message.aux_data@).take(a as int).push(
                    message.aux_data@[a as int]@,
                ));
                assert(crate::aux_data::aux_view(aux_data@) =~= crate::aux_data::aux_view(
                    message.aux_data@,
                ).take(a as int + 1));
            }
            a = a + 1;
        }
        proof {
            assert(crate::aux_data::aux_view(message.aux_data@).take(na as int)
                =~= crate::aux_data::aux_view(message.aux_data@));
        }
        let node = crate::module::Module {
            name: message.name.clone(),
            binary_path: message.binary_path.clone(),
            entry_point: message.entry_point,
            byte_order,
            isa,
            rebase_delta: message.rebase_delta,
            preferred_address: crate::addr::Addr(message.preferred_addr),
            file_format,
            sections: Vec::new(),
            symbols: Vec::new(),
            proxy_blocks: Vec::new(),
            aux_data,
            parent: None,
        };
        proof {
            assert(node@.sections =~= Seq::<u128>::empty());
            assert(node@.symbols =~= Seq::<u128>::empty());
            assert(node@.proxy_blocks =~= Seq::<u128>::empty());
        }
        context.insert_module(u, node);
        proof {
            assert(live_set(*context) =~= live_set(*old(context)).insert(u));
            assert(message@.symbols.skip(0) =~= message@.symbols);
        }
        let mref = crate::module::ModuleRef { uuid: crate::ident::Uuid(u) };
        let ghost l1 = live_set(*old(context)).insert(u);
        let nsy = message.symbols.len();
        let mut j: usize = 0;
        while j < nsy
            invariant
                j <= nsy,
                nsy == message.symbols@.len(),
                context.wf(),
                context.module_live(u),
                ({
                    let n = context.module_nodes()[u];
                    &&& n.parent is None
                    &&& n.name == message.name@
                    &&& n.binary_path == message.binary_path@
                    &&& n.preferred_address == crate::addr::Addr(message.preferred_addr)
                    &&& n.rebase_delta == message.rebase_delta
                    &&& n.entry_point == message.entry_point
                    &&& crate::tags::spec_file_format_code(n.file_format) == message@.file_format
                    &&& crate::tags::spec_isa_code(n.isa) == message@.isa
                    &&& crate::tags::spec_byte_order_code(n.byte_order) == message@.byte_order
                    &&& n.aux_data == crate::aux_data::aux_view(message.aux_data@)
                    &&& n.sections.len() == 0
                    &&& n.proxy_blocks.len() == 0
                    &&& n.symbols.len() == j
                }),
                mref.uuid.0 == u,
                grows_only(*old(context), *context),
                !old(context).live(message.uuid),
                u == message.uuid,
                l1 == live_set(*old(context)).insert(u),
                spec_load_symbols(l1, message@.symbols) == spec_load_symbols(
                    live_set(*context),
                    message@.symbols.skip(j as int),
                ),
                forall|i: int|
                    0 <= i < j ==> #[trigger] context.module_nodes()[u].symbols[i]
                        == message@.symbols[i].uuid,
                forall|i: int|
                    0 <= i < j ==> symbol_msg_view(
                        *context,
                        #[trigger] context.module_nodes()[u].symbols[i],
                    ) == message@.symbols[i],
            decreases nsy - j,
        {
            let ghost pre = *context;
            proof {
                assert(message.symbols@[j as int]@ == message@.symbols[j as int]);
                assert(message@.symbols.skip(j as int)[0] == message@.symbols[j as int]);
                assert(message@.symbols.skip(j as int).drop_first() =~= message@.symbols.skip(
                    j as int + 1,
                ));
            }
            let yref = match crate::symbol::Symbol::load_protobuf(context, &message.symbols[j]) {
                Ok(s) => s,
                Err(e) => {
                    return Err(e);
                },
            };
            let ghost mid = *context;
            match mref.add_symbol(context, &yref) {
                Ok(()) => {},
                Err(_) => {
                    proof {
                        assert(false);
                    }
                },
            }
            proof {
                assert(live_set(*context) =~= live_set(mid));
                assert(symbol_msg_view(*context, yref.uuid.0) == message@.symbols[j as int]);
                assert forall|i: int|
                    0 <= i < j implies symbol_msg_view(
                    *context,
                    #[trigger] context.module_nodes()[u].symbols[i],
                ) == message@.symbols[i] by {
                    let c = pre.module_nodes()[u].symbols[i];
                    assert(context.module_nodes()[u].symbols[i] == c);
                    assert(pre.symbol_live(c)) by {
                        assert(pre.module_node_ok(u));
                        assert(pre.symbol_child_ok(pre.module_nodes()[u].symbols[i], u));
                    }
                    assert(mid.symbol_nodes()[c] == pre.symbol_nodes()[c]);
                }
            }
            j = j + 1;
        }
        proof {
            assert(message@.symbols.skip(nsy as int) =~= Seq::<SymbolV>::empty());
            assert(message@.proxies.skip(0) =~= message@.proxies);
        }
        let ghost l_sym = live_set(*context);
        let np = message.proxies.len();
        let mut j2: usize = 0;
        while j2 < np
            invariant
                j2 <= np,
                np == message.proxies@.len(),
                context.wf(),
                context.module_live(u),
                ({
                    let n = context.module_nodes()[u];
                    &&& n.parent is None
                    &&& n.name == message.name@
                    &&& n.binary_path == message.binary_path@
                    &&& n.preferred_address == crate::addr::Addr(message.preferred_addr)
                    &&& n.rebase_delta == message.rebase_delta
                    &&& n.entry_point == message.entry_point
                    &&& crate::tags::spec_file_format_code(n.file_format) == message@.file_format
                    &&& crate::tags::spec_isa_code(n.isa) == message@.isa
                    &&& crate::tags::spec_byte_order_code(n.byte_order) == message@.byte_order
                    &&& n.aux_data == crate::aux_data::aux_view(message.aux_data@)
                    &&& n.sections.len() == 0
                    &&& n.proxy_blocks.len() == j2
                    &&& n.symbols.len() == message@.symbols.len()
                }),
                mref.uuid.0 == u,
                grows_only(*old(context), *context),
                !old(context).live(message.uuid),
                u == message.uuid,
                l1 == live_set(*old(context)).insert(u),
                spec_load_symbols(l1, message@.symbols) == Ok::<Set<u128>, Error>(l_sym),
                spec_load_proxies(l_sym, message@.proxies) == spec_load_proxies(
                    live_set(*context),
                    message@.proxies.skip(j2 as int),
                ),
                forall|i: int|
                    0 <= i < message@.symbols.len() ==> #[trigger] context.module_nodes()[
                        u
                    ].symbols[i] == message@.symbols[i].uuid,
                forall|i: int|
                    0 <= i < message@.symbols.len() ==> symbol_msg_view(
                        *context,
                        #[trigger] context.module_nodes()[u].symbols[i],
                    ) == message@.symbols[i],
                forall|i: int|
                    0 <= i < j2 ==> #[trigger] context.module_nodes()[u].proxy_blocks[i]
                        == message@.proxies[i],
            decreases np - j2,
        {
            let ghost pre = *context;
            proof {
                assert(message@.proxies.skip(j2 as int)[0] == message@.proxies[j2 as int]);
                assert(message@.proxies.skip(j2 as int).drop_first() =~= message@.proxies.skip(
                    j2 as int + 1,
                ));
            }
            let pref = match crate::proxy_block::ProxyBlock::load_protobuf(
                context,
                message.proxies[j2],
            ) {
                Ok(p) => p,
                Err(e) => {
                    return Err(e);
                },
            };
            let ghost mid = *context;
            match mref.add_proxy_block(context, &pref) {
                Ok(()) => {},
                Err(_) => {
                    proof {
                        assert(false);
                    }
                },
            }
            proof {
                assert(live_set(*context) =~= live_set(mid));
                assert forall|i: int|
                    0 <= i < message@.symbols.len() implies symbol_msg_view(
                    *context,
                    #[trigger] context.module_nodes()[u].symbols[i],
                ) == message@.symbols[i] by {
                    let c = pre.module_nodes()[u].symbols[i];
                    assert(context.module_nodes()[u].symbols[i] == c);
                    assert(pre.symbol_live(c)) by {
                        assert(pre.module_node_ok(u));
                        assert(pre.symbol_child_ok(pre.module_nodes()[u].symbols[i], u));
                    }
                    assert(mid.symbol_nodes()[c] == pre.symbol_nodes()[c]);
                }
            }
            j2 = j2 + 1;
        }
        proof {
            assert(message@.proxies.skip(np as int) =~= Seq::<u128>::empty());
            assert(message@.sections.skip(0) =~= message@.sections);
        }
        let ghost l_prox = live_set(*context);
        let nsec = message.sections.len();
        let mut j3: usize = 0;
        while j3 < nsec
            invariant
                j3 <= nsec,
                nsec == message.sections@.len(),
                context.wf(),
                context.module_live(u),
                ({
                    let n = context.module_nodes()[u];
                    &&& n.parent is None
                    &&& n.name == message.name@
                    &&& n.binary_path == message.binary_path@
                    &&& n.preferred_address == crate::addr::Addr(message.preferred_addr)
                    &&& n.rebase_delta == message.rebase_delta
                    &&& n.entry_point == message.entry_point
                    &&& crate::tags::spec_file_format_code(n.file_format) == message@.file_format
                    &&& crate::tags::spec_isa_code(n.isa) == message@.isa
                    &&& crate::tags::spec_byte_order_code(n.byte_order) == message@.byte_order
                    &&& n.aux_data == crate::aux_data::aux_view(message.aux_data@)
                    &&& n.sections.len() == j3
                    &&& n.proxy_blocks.len() == message@.proxies.len()
                    &&& n.symbols.len() == message@.symbols.len()
                }),
                mref.uuid.0 == u,
                grows_only(*old(context), *context),
                !old(context).live(message.uuid),
                u == message.uuid,
                l1 == live_set(*old(context)).insert(u),
                spec_load_symbols(l1, message@.symbols) == Ok::<Set<u128>, Error>(l_sym),
                spec_load_proxies(l_sym, message@.proxies) == Ok::<Set<u128>, Error>(l_prox),
                spec_load_sections(l_prox, message@.sections) == spec_load_sections(
                    live_set(*context),
                    message@.sections.skip(j3 as int),
                ),
                forall|i: int|
                    0 <= i < message@.symbols.len() ==> #[trigger] context.module_nodes()[
                        u
                    ].symbols[i] == message@.symbols[i].uuid,
                forall|i: int|
                    0 <= i < message@.symbols.len() ==> symbol_msg_view(
                        *context,
                        #[trigger] context.module_nodes()[u].symbols[i],
                    ) == message@.symbols[i],
                forall|i: int|
                    0 <= i < message@.proxies.len() ==> #[trigger] context.module_nodes()[
                        u
                    ].proxy_blocks[i] == message@.proxies[i],
                forall|i: int|
                    0 <= i < j3 ==> #[trigger] context.module_nodes()[u].sections[i]
                        == message@.sections[i].uuid,
                forall|i: int|
                    0 <= i < j3 ==> section_msg_view(
                        *context,
                        #[trigger] context.module_nodes()[u].sections[i],
                    ) == canon_section(message@.sections[i]),
            decreases nsec - j3,
        {
            let ghost pre = *context;
            proof {
                assert(message.sections@[j3 as int]@ == message@.sections[j3 as int]);
                assert(message@.sections.skip(j3 as int)[0] == message@.sections[j3 as int]);
                assert(message@.sections.skip(j3 as int).drop_first() =~= message@.sections.skip(
                    j3 as int + 1,
                ));
            }
            let sref = match crate::section::Section::load_protobuf(
                context,
                &message.sections[j3],
            ) {
                Ok(s) => s,
                Err(e) => {
                    return Err(e);
                },
            };
            let ghost mid = *context;
            match mref.add_section(context, &sref) {
                Ok(()) => {},
                Err(_) => {
                    proof {
                        assert(false);
                    }
                },
            }
            proof {
                assert(live_set(*context) =~= live_set(mid));
                // the freshly loaded section keeps its record view across
                // the attach
                assert forall|v: u128|
                    mid.interval_live(v) implies context.interval_live(v)
                    && context.interval_nodes()[v] == mid.interval_nodes()[v] by {}
                lemma_section_view_frame(mid, *context, sref.uuid.0);
                assert(section_msg_view(*context, sref.uuid.0) == canon_section(
                    message@.sections[j3 as int],
                ));
                // earlier symbols and sections keep theirs across the step
                assert forall|i: int|
                    0 <= i < message@.symbols.len() implies symbol_msg_view(
                    *context,
                    #[trigger] context.module_nodes()[u].symbols[i],
                ) == message@.symbols[i] by {
                    let c = pre.module_nodes()[u].symbols[i];
                    assert(context.module_nodes()[u].symbols[i] == c);
                    assert(pre.symbol_live(c)) by {
                        assert(pre.module_node_ok(u));
                        assert(pre.symbol_child_ok(pre.module_nodes()[u].symbols[i], u));
                    }
                    assert(mid.symbol_nodes()[c] == pre.symbol_nodes()[c]);
                }
                assert forall|i: int|
                    0 <= i < j3 implies section_msg_view(
                    *context,
                    #[trigger] context.module_nodes()[u].sections[i],
                ) == canon_section(message@.sections[i]) by {
                    let c = pre.module_nodes()[u].sections[i];
                    assert(context.module_nodes()[u].sections[i] == c);
                    assert(pre.section_live(c)) by {
                        assert(pre.module_node_ok(u));
                        assert(pre.section_child_ok(pre.module_nodes()[u].sections[i], u));
                    }
                    assert(mid.section_nodes()[c] == pre.section_nodes()[c]);
                    assert(context.section_nodes()[c] == pre.section_nodes()[c]);
                    assert forall|v: u128|
                        pre.interval_live(v) implies context.interval_live(v)
                        && context.interval_nodes()[v] == pre.interval_nodes()[v] by {
                        assert(mid.interval_live(v) && mid.interval_nodes()[v]
                            == pre.interval_nodes()[v]);
                    }
                    assert forall|v: u128|
                        pre.code_block_live(v) implies context.code_block_live(v)
                        && context.code_block_nodes()[v] == pre.code_block_nodes()[v] by {
                        assert(mid.code_block_live(v) && mid.code_block_nodes()[v]
                            == pre.code_block_nodes()[v]);
                    }
                    assert forall|v: u128|
                        pre.data_block_live(v) implies context.data_block_live(v)
                        && context.data_block_nodes()[v] == pre.data_block_nodes()[v] by {
                        assert(mid.data_block_live(v) && mid.data_block_nodes()[v]
                            == pre.data_block_nodes()[v]);
                    }
                    lemma_section_view_frame(pre, *context, c);
                }
            }
            j3 = j3 + 1;
        }
        proof {
            assert(message@.sections.skip(nsec as int) =~= Seq::<SectionV>::empty());
            assert(module_msg_view(*context, u).symbols =~= message@.symbols);
            assert(module_msg_view(*context, u).sections =~= message@.sections.map_values(
                |s: SectionV| canon_section(s),
            ));
            assert(module_msg_view(*context, u).proxies =~= message@.proxies);
            assert(module_msg_view(*context, u) == canon_module(message@));
        }
        Ok(mref)
    }
}

impl crate::ir::IR {
    /// Load one top-level record into the context: register the root, then
    /// load and attach each module in wire order.  Succeeds exactly when
    /// [`spec_load_ir`] admits the record against the identifiers already
    /// live, and then the loaded tree reads back as the record's canonical
    /// value.  On failure the admission's error is returned;
    /// already-registered nodes may remain, and [`decode`] discards its
    /// fresh context on any failure.
    #[verifier::rlimit(100)]
    #[verifier::spinoff_prover]
    pub fn load_protobuf(context: &mut Context, message: crate::proto::Ir) -> (r: Result<
        crate::ir::IRRef,
        Error,
    >)
        requires
            old(context).wf(),
        ensures
            final(context).wf(),
            grows_only(*old(context), *final(context)),
            match r {
                Ok(ir) => {
                    &&& ir.uuid.0 == message.uuid
                    &&& !old(context).live(message.uuid)
                    &&& final(context).ir_live(ir.uuid.0)
                    &&& ir_msg_view(*final(context), ir.uuid.0) == canon_ir(message@)
                    &&& match spec_load_ir(live_set(*old(context)), message@) {
                        Ok(l2) => live_set(*final(context)) == l2,
                        Err(_) => false,
                    }
                },
                Err(e) => spec_load_ir(live_set(*old(context)), message@) == Err::<
                    Set<u128>,
                    Error,
                >(e),
            },
    {
        let u = message.uuid;
        if context.contains_any(u) {
            return Err(Error::StructuralDecodeError);
        }
        let mut aux_data: Vec<crate::aux_data::AuxEntry> = Vec::new();
        let na = message.aux_data.len();
        let mut a: usize = 0;
        proof {
            assert(crate::aux_data::aux_view(aux_data@) =~= crate::aux_data::aux_view(
                message.aux_data@,
            ).take(0));
        }
        while a < na
            invariant
                old(context).wf(),
                *context == *old(context),
                a <= na,
                na == message.aux_data@.len(),
                crate::aux_data::aux_view(aux_data@) == crate::aux_data::aux_view(
                    message.aux_data@,
                ).take(a as int),
            decreases na - a,
        {
            let entry = crate::aux_data::AuxEntry {
                key: message.aux_data[a].key.clone(),
                value: vstd::slice::slice_to_vec(message.aux_data[a].value.as_slice()),
            };
            proof {
                assert(entry@ == message.aux_data@[a as int]@);
            }
            let ghost prev = aux_data@;
            aux_data.push(entry);
            proof {
                assert(crate::aux_data::aux_view(aux_data@) =~= crate::aux_data::aux_view(
                    prev,
                ).push(entry@));
                assert(crate::aux_data::aux_view(message.aux_data@).take(a as int + 1)
                    =~= crate::aux_data::aux_view(message.aux_data@).take(a as int).push(
                    message.aux_data@[a as int]@,
                ));
                assert(crate::aux_data::aux_view(aux_data@) =~= crate::aux_data::aux_view(
                    message.aux_data@,
                ).take(a as int + 1));
            }
            a = a + 1;
        }
        proof {
            assert(crate::aux_data::aux_view(message.aux_data@).take(na as int)
                =~= crate::aux_data::aux_view(message.aux_data@));
        }
        let node = crate::ir::IR { version: message.version, modules: Vec::new(), aux_data };
        proof {
            assert(node@.modules =~= Seq::<u128>::empty());
        }
        context.insert_ir(u, node);
        proof {
            assert(live_set(*context) =~= live_set(*old(context)).insert(u));
            assert(message@.modules.skip(0) =~= message@.modules);
        }
        let iref = crate::ir::IRRef { uuid: crate::ident::Uuid(u) };
        let ghost l1 = live_set(*old(context)).insert(u);
        let nm = message.modules.len();
        let mut j: usize = 0;
        while j < nm
            invariant
                j <= nm,
                nm == message@.modules.len(),
                nm == message.modules@.len(),
                context.wf(),
                context.ir_live(u),
                context.ir_nodes()[u].version == message@.version,
                context.ir_nodes()[u].aux_data == message@.aux_data,
                context.ir_nodes()[u].modules.len() == j,
                iref.uuid.0 == u,
                grows_only(*old(context), *context),
                !old(context).live(u),
                u == message@.uuid,
                l1 == live_set(*old(context)).insert(u),
                spec_load_modules(l1, message@.modules) == spec_load_modules(
                    live_set(*context),
                    message@.modules.skip(j as int),
                ),
                forall|i: int|
                    0 <= i < j ==> #[trigger] context.ir_nodes()[u].modules[i]
                        == message@.modules[i].uuid,
                forall|i: int|
                    0 <= i < j ==> module_msg_view(
                        *context,
                        #[trigger] context.ir_nodes()[u].modules[i],
                    ) == canon_module(message@.modules[i]),
            decreases nm - j,
        {
            let ghost pre = *context;
            proof {
                assert(message.modules@[j as int]@ == message@.modules[j as int]);
                assert(message@.modules.skip(j as int)[0] == message@.modules[j as int]);
                assert(message@.modules.skip(j as int).drop_first() =~= message@.modules.skip(
                    j as int + 1,
                ));
            }
            let mref = match crate::module::Module::load_protobuf(context, &message.modules[j]) {
                Ok(m) => m,
                Err(e) => {
                    return Err(e);
                },
            };
            let ghost mid = *context;
            match iref.add_module(context, &mref) {
                Ok(()) => {},
                Err(_) => {
                    proof {
                        assert(false);
                    }
                },
            }
            proof {
                assert(live_set(*context) =~= live_set(mid));
                // the freshly loaded module keeps its record view across
                // the attach
                assert forall|v: u128|
                    mid.section_live(v) implies context.section_live(v)
                    && context.section_nodes()[v] == mid.section_nodes()[v] by {}
                lemma_module_view_frame(mid, *context, mref.uuid.0);
                assert(module_msg_view(*context, mref.uuid.0) == canon_module(
                    message@.modules[j as int],
                ));
                // earlier modules keep theirs across the step
                assert forall|i: int|
                    0 <= i < j implies module_msg_view(
                    *context,
                    #[trigger] context.ir_nodes()[u].modules[i],
                ) == canon_module(message@.modules[i]) by {
                    let c = pre.ir_nodes()[u].modules[i];
                    assert(context.ir_nodes()[u].modules[i] == c);
                    assert(pre.module_live(c)) by {
                        assert(pre.ir_node_ok(u));
                        assert(pre.module_child_ok(pre.ir_nodes()[u].modules[i], u));
                    }
                    assert(mid.module_nodes()[c] == pre.module_nodes()[c]);
                    assert(context.module_nodes()[c] == pre.module_nodes()[c]);
                    assert forall|v: u128|
                        pre.section_live(v) implies context.section_live(v)
                        && context.section_nodes()[v] == pre.section_nodes()[v] by {
                        assert(mid.section_live(v) && mid.section_nodes()[v]
                            == pre.section_nodes()[v]);
                    }
                    assert forall|v: u128|
                        pre.interval_live(v) implies context.interval_live(v)
                        && context.interval_nodes()[v] == pre.interval_nodes()[v] by {
                        assert(mid.interval_live(v) && mid.interval_nodes()[v]
                            == pre.interval_nodes()[v]);
                    }
                    assert forall|v: u128|
                        pre.code_block_live(v) implies context.code_block_live(v)
                        && context.code_block_nodes()[v] == pre.code_block_nodes()[v] by {
                        assert(mid.code_block_live(v) && mid.code_block_nodes()[v]
                            == pre.code_block_nodes()[v]);
                    }
                    assert forall|v: u128|
                        pre.data_block_live(v) implies context.data_block_live(v)
                        && context.data_block_nodes()[v] == pre.data_block_nodes()[v] by {
                        assert(mid.data_block_live(v) && mid.data_block_nodes()[v]
                            == pre.data_block_nodes()[v]);
                    }
                    assert forall|v: u128|
                        pre.symbol_live(v) implies context.symbol_live(v)
                        && context.symbol_nodes()[v] == pre.symbol_nodes()[v] by {
                        assert(mid.symbol_live(v) && mid.symbol_nodes()[v]
                            == pre.symbol_nodes()[v]);
                    }
                    lemma_module_view_frame(pre, *context, c);
                }
            }
            j = j + 1;
        }
        proof {
            assert(message@.modules.skip(nm as int) =~= Seq::<ModuleV>::empty());
            assert(ir_msg_view(*context, u).modules =~= message@.modules.map_values(
                |m: ModuleV| canon_module(m),
            ));
            assert(ir_msg_view(*context, u) == canon_ir(message@));
        }
        Ok(iref)
    }
}

/// Decode a whole byte stream into a fresh context holding one tree.
///
/// Succeeds exactly when the bytes parse as one well-formed file
/// ([`spec_parse_file`]) and [`spec_load_ir`] admits the parsed records
/// into an empty registry: declared tags, consistent sizes, ordered
/// symbolic-expression offsets and fresh, distinct identifiers.  The
/// decoded tree then reads back as the canonical value of the parsed
/// records.  On any failure, that stage's error is returned and the
/// partially built context is discarded.
pub fn decode(bytes: &[u8]) -> (r: Result<(Context, crate::ir::IRRef), Error>)
    ensures
        match r {
            Ok((c, ir)) => {
                &&& c.wf()
                &&& c.ir_live(ir.uuid.0)
                &&& (match spec_parse_file(bytes@) {
                    Ok(v) => {
                        &&& ir.uuid.0 == v.uuid
                        &&& ir_msg_view(c, ir.uuid.0) == canon_ir(v)
                        &&& spec_load_ir(Set::empty(), v) is Ok
                    },
                    Err(_) => false,
                })
            },
            Err(e) => match spec_parse_file(bytes@) {
                Err(pe) => e == pe,
                Ok(v) => spec_load_ir(Set::empty(), v) == Err::<Set<u128>, Error>(e),
            },
        },
{
    let message = match read_file(bytes) {
        Ok(m) => m,
        Err(e) => {
            return Err(e);
        },
    };
    let mut context = Context::new();
    proof {
        assert(live_set(context) =~= Set::<u128>::empty());
    }
    let ir = match crate::ir::IR::load_protobuf(&mut context, message) {
        Ok(ir) => ir,
        Err(e) => {
            return Err(e);
        },
    };
    Ok((context, ir))
}

} // verus!
