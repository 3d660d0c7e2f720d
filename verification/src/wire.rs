//! Wire primitives: variable-width integers, raw identifiers, byte and
//! string fields.
//!
//! Every primitive comes in three parts: a specification-level encoder over
//! mathematical values, a specification-level parser that consumes the
//! front of a byte sequence, and executable code proved to match them.
//! The parsers accept exactly the encoders' output (and reject everything
//! that no encoder produces), which yields the codec's round-trip law.

use vstd::prelude::*;

use crate::error::Error;

verus! {

broadcast use {
    vstd::utf8::decode_utf8_encode_utf8,
    vstd::utf8::encode_utf8_decode_utf8,
    vstd::utf8::encode_utf8_valid_utf8,
};

/// Variable-width encoding of a 64-bit integer: seven value bits per byte,
/// low groups first, the high bit of each byte marking continuation.
pub open spec fn spec_varint(v: u64) -> Seq<u8>
    decreases v,
{
    if v < 128 {
        seq![v as u8]
    } else {
        seq![(v % 128 + 128) as u8] + spec_varint(v / 128)
    }
}

/// Parse a variable-width integer from the front of `s`, reading at most
/// `max` bytes.
pub open spec fn spec_parse_varint(s: Seq<u8>, max: nat) -> Result<(u64, Seq<u8>), Error>
    decreases max,
{
    if max == 0 {
        Err(Error::StructuralDecodeError)
    } else if s.len() == 0 {
        Err(Error::TruncatedInput)
    } else if s[0] < 128 {
        Ok(((s[0] as u64), s.drop_first()))
    } else {
        match spec_parse_varint(s.drop_first(), (max - 1) as nat) {
            Ok((hi, rest)) => {
                if hi <= (u64::MAX - (s[0] - 128) as u64) / 128 {
                    Ok((((s[0] - 128) as u64 + 128 * hi) as u64, rest))
                } else {
                    Err(Error::StructuralDecodeError)
                }
            },
            Err(e) => Err(e),
        }
    }
}

/// `128^n`, used to bound variable-width encodings.
pub open spec fn pow128(n: nat) -> int
    decreases n,
{
    if n == 0 {
        1
    } else {
        128 * pow128((n - 1) as nat)
    }
}

/// A variable-width integer takes at most ten bytes.
pub proof fn lemma_varint_len(v: u64)
    ensures
        1 <= spec_varint(v).len() <= 10,
    decreases v,
{
    if v >= 128 {
        lemma_varint_len(v / 128);
        if spec_varint(v / 128).len() >= 10 {
            lemma_varint_bound_helper(v, 9);
            assert(pow128(10) == 0x4000_0000_0000_0000_0000) by {
                reveal_with_fuel(pow128, 11);
            }
        }
    }
}

/// If the encoding of `v` is longer than `k + 1` bytes, then `v` is at
/// least `128^(k+1)`.
proof fn lemma_varint_bound_helper(v: u64, k: nat)
    requires
        spec_varint(v).len() > k + 1,
    ensures
        v >= pow128((k + 1) as nat),
    decreases k,
{
    if k == 0 {
        assert(v >= 128);
        assert(pow128(1) == 128) by {
            reveal_with_fuel(pow128, 2);
        }
    } else {
        assert(v >= 128);
        lemma_varint_bound_helper(v / 128, (k - 1) as nat);
        assert(pow128((k + 1) as nat) == 128 * pow128(k as nat));
        assert(v / 128 >= pow128(k as nat));
        assert(v >= 128 * (v / 128)) by (nonlinear_arith)
            requires
                v >= 128,
        ;
        assert(128 * (v / 128) >= 128 * pow128(k as nat)) by (nonlinear_arith)
            requires
                v / 128 >= pow128(k as nat),
        ;
    }
}

/// Parsing an encoded integer yields the integer and the trailing bytes.
pub proof fn lemma_varint_round_trip(v: u64, rest: Seq<u8>)
    ensures
        spec_parse_varint(spec_varint(v) + rest, 10) == Ok::<(u64, Seq<u8>), Error>((v, rest)),
{
    lemma_varint_len(v);
    lemma_varint_round_trip_helper(v, rest, 10);
}

proof fn lemma_varint_round_trip_helper(v: u64, rest: Seq<u8>, max: nat)
    requires
        spec_varint(v).len() <= max,
    ensures
        spec_parse_varint(spec_varint(v) + rest, max) == Ok::<(u64, Seq<u8>), Error>((v, rest)),
    decreases v,
{
    lemma_varint_len(v);
    let s = spec_varint(v) + rest;
    if v < 128 {
        assert(s[0] == v as u8);
        assert(s.drop_first() =~= rest);
    } else {
        assert(s[0] == (v % 128 + 128) as u8);
        assert(s.drop_first() =~= spec_varint(v / 128) + rest);
        lemma_varint_round_trip_helper(v / 128, rest, (max - 1) as nat);
        let lo = (s[0] - 128) as u64;
        assert(lo == v % 128);
        assert(v == 128 * (v / 128) + v % 128) by (nonlinear_arith);
        assert(v / 128 <= (u64::MAX - lo) / 128) by (nonlinear_arith)
            requires
                v <= u64::MAX,
                lo == v % 128,
                v >= 128,
        ;
    }
}

/// Append the variable-width encoding of `v` to `out`.
pub fn write_varint(out: &mut Vec<u8>, v: u64)
    ensures
        final(out)@ == old(out)@ + spec_varint(v),
    decreases v,
{
    if v < 128 {
        out.push(v as u8);
        proof {
            assert(final(out)@ =~= old(out)@ + spec_varint(v));
        }
    } else {
        out.push((v % 128 + 128) as u8);
        write_varint(out, v / 128);
        proof {
            assert(final(out)@ =~= old(out)@ + spec_varint(v));
        }
    }
}

/// Parse a variable-width integer at `pos`, returning the value and the
/// position just past it.
pub fn read_varint(b: &[u8], pos: usize) -> (r: Result<(u64, usize), Error>)
    requires
        pos <= b@.len(),
    ensures
        match r {
            Ok((v, end)) => pos <= end <= b@.len() && spec_parse_varint(b@.skip(pos as int), 10)
                == Ok::<(u64, Seq<u8>), Error>((v, b@.skip(end as int))),
            Err(e) => spec_parse_varint(b@.skip(pos as int), 10) == Err::<(u64, Seq<u8>), Error>(
                e,
            ),
        },
{
    read_varint_rec(b, pos, 10)
}

fn read_varint_rec(b: &[u8], pos: usize, max: u64) -> (r: Result<(u64, usize), Error>)
    requires
        pos <= b@.len(),
        max <= 10,
    ensures
        match r {
            Ok((v, end)) => pos <= end <= b@.len() && spec_parse_varint(
                b@.skip(pos as int),
                max as nat,
            ) == Ok::<(u64, Seq<u8>), Error>((v, b@.skip(end as int))),
            Err(e) => spec_parse_varint(b@.skip(pos as int), max as nat) == Err::<
                (u64, Seq<u8>),
                Error,
            >(e),
        },
    decreases max,
{
    if max == 0 {
        return Err(Error::StructuralDecodeError);
    }
    if pos >= b.len() {
        proof {
            assert(b@.skip(pos as int).len() == 0);
        }
        return Err(Error::TruncatedInput);
    }
    let byte = b[pos];
    proof {
        assert(b@.skip(pos as int)[0] == b@[pos as int]);
        assert(b@.skip(pos as int).drop_first() =~= b@.skip(pos as int + 1));
    }
    if byte < 128 {
        Ok((byte as u64, pos + 1))
    } else {
        match read_varint_rec(b, pos + 1, max - 1) {
            Ok((hi, end)) => {
                let lo = (byte - 128) as u64;
                if hi <= (u64::MAX - lo) / 128 {
                    proof {
                        assert(lo + 128 * hi <= u64::MAX) by (nonlinear_arith)
                            requires
                                hi <= (u64::MAX - lo) / 128,
                                lo < 128,
                        ;
                    }
                    Ok((lo + 128 * hi, end))
                } else {
                    Err(Error::StructuralDecodeError)
                }
            },
            Err(e) => Err(e),
        }
    }
}

/// Little-endian encoding of the low `n` bytes of a 128-bit value.
pub open spec fn spec_le_bytes(x: u128, n: nat) -> Seq<u8>
    decreases n,
{
    if n == 0 {
        Seq::empty()
    } else {
        seq![(x % 256) as u8] + spec_le_bytes(x / 256, (n - 1) as nat)
    }
}

/// Parse `n` little-endian bytes from the front of `s`.
pub open spec fn spec_parse_le_bytes(s: Seq<u8>, n: nat) -> Result<(u128, Seq<u8>), Error>
    decreases n,
{
    if n == 0 {
        Ok((0, s))
    } else if s.len() == 0 {
        Err(Error::TruncatedInput)
    } else {
        match spec_parse_le_bytes(s.drop_first(), (n - 1) as nat) {
            Ok((hi, rest)) => {
                if hi <= (u128::MAX - s[0] as u128) / 256 {
                    Ok(((s[0] as u128 + 256 * hi) as u128, rest))
                } else {
                    Err(Error::StructuralDecodeError)
                }
            },
            Err(e) => Err(e),
        }
    }
}

/// Sixteen little-endian bytes encode any 128-bit value and parse back to
/// it.
pub proof fn lemma_le16_round_trip(x: u128, rest: Seq<u8>)
    ensures
        spec_le_bytes(x, 16).len() == 16,
        spec_parse_le_bytes(spec_le_bytes(x, 16) + rest, 16) == Ok::<(u128, Seq<u8>), Error>(
            (x, rest),
        ),
{
    assert(pow256(16) == 0x1_0000_0000_0000_0000_0000_0000_0000_0000) by {
        reveal_with_fuel(pow256, 17);
    }
    lemma_le_round_trip_helper(x, rest, 16);
}

/// `256^n`, used to bound little-endian encodings.
pub open spec fn pow256(n: nat) -> int
    decreases n,
{
    if n == 0 {
        1
    } else {
        256 * pow256((n - 1) as nat)
    }
}

proof fn lemma_pow256_positive(n: nat)
    ensures
        pow256(n) >= 1,
    decreases n,
{
    if n > 0 {
        lemma_pow256_positive((n - 1) as nat);
    }
}

proof fn lemma_le_round_trip_helper(x: u128, rest: Seq<u8>, n: nat)
    requires
        n >= 1 ==> x < pow256(n),
        n == 0 ==> x == 0,
    ensures
        spec_le_bytes(x, n).len() == n,
        spec_parse_le_bytes(spec_le_bytes(x, n) + rest, n) == Ok::<(u128, Seq<u8>), Error>(
            (x, rest),
        ),
    decreases n,
{
    lemma_pow256_positive(n);
    if n == 0 {
        assert(spec_le_bytes(x, 0) + rest =~= rest);
    } else {
        let s = spec_le_bytes(x, n) + rest;
        assert(s[0] == (x % 256) as u8);
        assert(s.drop_first() =~= spec_le_bytes(x / 256, (n - 1) as nat) + rest);
        assert(pow256(n) == 256 * pow256((n - 1) as nat));
        if n == 1 {
            assert(pow256(0) == 1);
            assert(x < 256);
            assert(x / 256 == 0);
        } else {
            lemma_pow256_positive((n - 1) as nat);
            assert(x / 256 < pow256((n - 1) as nat)) by (nonlinear_arith)
                requires
                    x < 256 * pow256((n - 1) as nat),
                    pow256((n - 1) as nat) >= 1,
            ;
        }
        lemma_le_round_trip_helper(x / 256, rest, (n - 1) as nat);
        let lo = s[0] as u128;
        assert(lo == x % 256);
        assert(x == 256 * (x / 256) + x % 256) by (nonlinear_arith);
        assert(x / 256 <= (u128::MAX - lo) / 256) by (nonlinear_arith)
            requires
                x <= u128::MAX,
                lo == x % 256,
        ;
    }
}

/// Append the sixteen-byte little-endian encoding of `x` to `out`.
pub fn write_le16(out: &mut Vec<u8>, x: u128)
    ensures
        final(out)@ == old(out)@ + spec_le_bytes(x, 16),
{
    write_le_rec(out, x, 16)
}

fn write_le_rec(out: &mut Vec<u8>, x: u128, n: u64)
    ensures
        final(out)@ == old(out)@ + spec_le_bytes(x, n as nat),
    decreases n,
{
    if n == 0 {
        proof {
            assert(final(out)@ =~= old(out)@ + spec_le_bytes(x, 0));
        }
    } else {
        out.push((x % 256) as u8);
        write_le_rec(out, x / 256, n - 1);
        proof {
            assert(final(out)@ =~= old(out)@ + spec_le_bytes(x, n as nat));
        }
    }
}

/// Parse sixteen little-endian bytes at `pos`.
pub fn read_le16(b: &[u8], pos: usize) -> (r: Result<(u128, usize), Error>)
    requires
        pos <= b@.len(),
    ensures
        match r {
            Ok((v, end)) => pos <= end <= b@.len() && spec_parse_le_bytes(b@.skip(pos as int), 16)
                == Ok::<(u128, Seq<u8>), Error>((v, b@.skip(end as int))),
            Err(e) => spec_parse_le_bytes(b@.skip(pos as int), 16) == Err::<
                (u128, Seq<u8>),
                Error,
            >(e),
        },
{
    read_le_rec(b, pos, 16)
}

fn read_le_rec(b: &[u8], pos: usize, n: u64) -> (r: Result<(u128, usize), Error>)
    requires
        pos <= b@.len(),
        n <= 16,
    ensures
        match r {
            Ok((v, end)) => pos <= end <= b@.len() && spec_parse_le_bytes(
                b@.skip(pos as int),
                n as nat,
            ) == Ok::<(u128, Seq<u8>), Error>((v, b@.skip(end as int))),
            Err(e) => spec_parse_le_bytes(b@.skip(pos as int), n as nat) == Err::<
                (u128, Seq<u8>),
                Error,
            >(e),
        },
    decreases n,
{
    if n == 0 {
        return Ok((0, pos));
    }
    if pos >= b.len() {
        proof {
            assert(b@.skip(pos as int).len() == 0);
        }
        return Err(Error::TruncatedInput);
    }
    let byte = b[pos];
    proof {
        assert(b@.skip(pos as int)[0] == b@[pos as int]);
        assert(b@.skip(pos as int).drop_first() =~= b@.skip(pos as int + 1));
    }
    match read_le_rec(b, pos + 1, n - 1) {
        Ok((hi, end)) => {
            let lo = byte as u128;
            if hi <= (u128::MAX - lo) / 256 {
                proof {
                    assert(lo + 256 * hi <= u128::MAX) by (nonlinear_arith)
                        requires
                            hi <= (u128::MAX - lo) / 256,
                            lo < 256,
                    ;
                }
                Ok((lo + 256 * hi, end))
            } else {
                Err(Error::StructuralDecodeError)
            }
        },
        Err(e) => Err(e),
    }
}


/// A length-prefixed run of raw bytes.
pub open spec fn spec_bytes_field(data: Seq<u8>) -> Seq<u8> {
    spec_varint(data.len() as u64) + data
}

/// Parse a length-prefixed run of raw bytes from the front of `s`.
pub open spec fn spec_parse_bytes_field(s: Seq<u8>) -> Result<(Seq<u8>, Seq<u8>), Error> {
    match spec_parse_varint(s, 10) {
        Ok((n, r)) => {
            if n <= r.len() {
                Ok((r.take(n as int), r.skip(n as int)))
            } else {
                Err(Error::TruncatedInput)
            }
        },
        Err(e) => Err(e),
    }
}

/// Parsing an encoded byte field yields the bytes and the trailing input.
pub proof fn lemma_bytes_field_round_trip(data: Seq<u8>, rest: Seq<u8>)
    requires
        data.len() <= u64::MAX,
    ensures
        spec_parse_bytes_field(spec_bytes_field(data) + rest) == Ok::<(Seq<u8>, Seq<u8>), Error>(
            (data, rest),
        ),
{
    let n = data.len() as u64;
    lemma_varint_round_trip(n, data + rest);
    assert(spec_bytes_field(data) + rest =~= spec_varint(n) + (data + rest));
    assert((data + rest).take(n as int) =~= data);
    assert((data + rest).skip(n as int) =~= rest);
}

/// Append a length-prefixed run of raw bytes to `out`.
pub fn write_bytes_field(out: &mut Vec<u8>, data: &[u8])
    ensures
        final(out)@ == old(out)@ + spec_bytes_field(data@),
{
    write_varint(out, data.len() as u64);
    let ghost mid = out@;
    let n = data.len();
    let mut k: usize = 0;
    while k < n
        invariant
            k <= n,
            n == data@.len(),
            out@ == mid + data@.take(k as int),
        decreases n - k,
    {
        out.push(data[k]);
        proof {
            assert(out@ =~= mid + data@.take(k as int + 1));
        }
        k = k + 1;
    }
    proof {
        assert(data@.take(n as int) =~= data@);
        assert(out@ =~= old(out)@ + spec_bytes_field(data@));
    }
}

/// Parse a length-prefixed run of raw bytes at `pos`.
pub fn read_bytes_field(b: &[u8], pos: usize) -> (r: Result<(Vec<u8>, usize), Error>)
    requires
        pos <= b@.len(),
    ensures
        match r {
            Ok((v, end)) => pos <= end <= b@.len() && spec_parse_bytes_field(b@.skip(pos as int))
                == Ok::<(Seq<u8>, Seq<u8>), Error>((v@, b@.skip(end as int))),
            Err(e) => spec_parse_bytes_field(b@.skip(pos as int)) == Err::<
                (Seq<u8>, Seq<u8>),
                Error,
            >(e),
        },
{
    let (n, p2) = match read_varint(b, pos) {
        Ok(v) => v,
        Err(e) => {
            return Err(e);
        },
    };
    if n > (b.len() - p2) as u64 {
        return Err(Error::TruncatedInput);
    }
    let end = p2 + (n as usize);
    let data = vstd::slice::slice_to_vec(vstd::slice::slice_subrange(b, p2, end));
    proof {
        assert(b@.skip(p2 as int).take(n as int) =~= b@.subrange(p2 as int, end as int));
        assert(b@.skip(p2 as int).skip(n as int) =~= b@.skip(end as int));
    }
    Ok((data, end))
}

/// A length-prefixed string, stored as its UTF-8 bytes.
pub open spec fn spec_string_field(cs: Seq<char>) -> Seq<u8> {
    spec_bytes_field(vstd::utf8::encode_utf8(cs))
}

/// Parse a length-prefixed string from the front of `s`.
pub open spec fn spec_parse_string_field(s: Seq<u8>) -> Result<(Seq<char>, Seq<u8>), Error> {
    match spec_parse_bytes_field(s) {
        Ok((d, r)) => {
            if vstd::utf8::valid_utf8(d) {
                Ok((vstd::utf8::decode_utf8(d), r))
            } else {
                Err(Error::StructuralDecodeError)
            }
        },
        Err(e) => Err(e),
    }
}

/// Parsing an encoded string yields the characters and the trailing input.
pub proof fn lemma_string_field_round_trip(cs: Seq<char>, rest: Seq<u8>)
    requires
        vstd::utf8::encode_utf8(cs).len() <= u64::MAX,
    ensures
        spec_parse_string_field(spec_string_field(cs) + rest) == Ok::<
            (Seq<char>, Seq<u8>),
            Error,
        >((cs, rest)),
{
    lemma_bytes_field_round_trip(vstd::utf8::encode_utf8(cs), rest);
}

/// Append a length-prefixed string to `out`.
pub fn write_string_field(out: &mut Vec<u8>, s: &str)
    ensures
        final(out)@ == old(out)@ + spec_string_field(s@),
{
    write_bytes_field(out, s.as_bytes());
}

/// Relies on `String::from_utf8`: it succeeds exactly on valid UTF-8 input
/// and returns the string whose byte encoding is that input.
#[verifier::external_body]
fn string_from_utf8(v: Vec<u8>) -> (r: Option<String>)
    ensures
        match r {
            Some(s) => vstd::utf8::valid_utf8(v@) && vstd::utf8::encode_utf8(s@) == v@,
            None => !vstd::utf8::valid_utf8(v@),
        },
{
    match String::from_utf8(v) {
        Ok(s) => Some(s),
        Err(_) => None,
    }
}

/// Parse a length-prefixed string at `pos`.
pub fn read_string_field(b: &[u8], pos: usize) -> (r: Result<(String, usize), Error>)
    requires
        pos <= b@.len(),
    ensures
        match r {
            Ok((v, end)) => pos <= end <= b@.len() && spec_parse_string_field(b@.skip(pos as int))
                == Ok::<(Seq<char>, Seq<u8>), Error>((v@, b@.skip(end as int))),
            Err(e) => spec_parse_string_field(b@.skip(pos as int)) == Err::<
                (Seq<char>, Seq<u8>),
                Error,
            >(e),
        },
{
    let (data, end) = match read_bytes_field(b, pos) {
        Ok(v) => v,
        Err(e) => {
            return Err(e);
        },
    };
    match string_from_utf8(data) {
        Some(s) => {
            proof {
                assert(vstd::utf8::decode_utf8(vstd::utf8::encode_utf8(s@)) == s@);
            }
            Ok((s, end))
        },
        None => Err(Error::StructuralDecodeError),
    }
}

/// A boolean stored as one byte, zero or one.
pub open spec fn spec_bool_field(v: bool) -> Seq<u8> {
    if v {
        seq![1u8]
    } else {
        seq![0u8]
    }
}

/// Parse a boolean byte from the front of `s`.
pub open spec fn spec_parse_bool_field(s: Seq<u8>) -> Result<(bool, Seq<u8>), Error> {
    if s.len() == 0 {
        Err(Error::TruncatedInput)
    } else if s[0] == 0 {
        Ok((false, s.drop_first()))
    } else if s[0] == 1 {
        Ok((true, s.drop_first()))
    } else {
        Err(Error::StructuralDecodeError)
    }
}

/// Parsing an encoded boolean yields the boolean and the trailing input.
pub proof fn lemma_bool_field_round_trip(v: bool, rest: Seq<u8>)
    ensures
        spec_parse_bool_field(spec_bool_field(v) + rest) == Ok::<(bool, Seq<u8>), Error>(
            (v, rest),
        ),
{
    assert((spec_bool_field(v) + rest).drop_first() =~= rest);
}

/// Append a boolean byte to `out`.
pub fn write_bool_field(out: &mut Vec<u8>, v: bool)
    ensures
        final(out)@ == old(out)@ + spec_bool_field(v),
{
    if v {
        out.push(1);
    } else {
        out.push(0);
    }
    proof {
        assert(final(out)@ =~= old(out)@ + spec_bool_field(v));
    }
}

/// Parse a boolean byte at `pos`.
pub fn read_bool_field(b: &[u8], pos: usize) -> (r: Result<(bool, usize), Error>)
    requires
        pos <= b@.len(),
    ensures
        match r {
            Ok((v, end)) => pos <= end <= b@.len() && spec_parse_bool_field(b@.skip(pos as int))
                == Ok::<(bool, Seq<u8>), Error>((v, b@.skip(end as int))),
            Err(e) => spec_parse_bool_field(b@.skip(pos as int)) == Err::<(bool, Seq<u8>), Error>(
                e,
            ),
        },
{
    if pos >= b.len() {
        proof {
            assert(b@.skip(pos as int).len() == 0);
        }
        return Err(Error::TruncatedInput);
    }
    proof {
        assert(b@.skip(pos as int)[0] == b@[pos as int]);
        assert(b@.skip(pos as int).drop_first() =~= b@.skip(pos as int + 1));
    }
    let byte = b[pos];
    if byte == 0 {
        Ok((false, pos + 1))
    } else if byte == 1 {
        Ok((true, pos + 1))
    } else {
        Err(Error::StructuralDecodeError)
    }
}

/// A signed 64-bit value, stored as its two's-complement bits.
pub open spec fn spec_i64_field(x: i64) -> Seq<u8> {
    spec_varint(x as u64)
}

/// Parse a signed 64-bit value from the front of `s`.
pub open spec fn spec_parse_i64_field(s: Seq<u8>) -> Result<(i64, Seq<u8>), Error> {
    match spec_parse_varint(s, 10) {
        Ok((v, r)) => Ok(((v as i64), r)),
        Err(e) => Err(e),
    }
}

/// Parsing an encoded signed value yields the value and the trailing
/// input.
pub proof fn lemma_i64_field_round_trip(x: i64, rest: Seq<u8>)
    ensures
        spec_parse_i64_field(spec_i64_field(x) + rest) == Ok::<(i64, Seq<u8>), Error>((x, rest)),
{
    lemma_varint_round_trip(x as u64, rest);
    assert((x as u64) as i64 == x) by (bit_vector);
}

/// Append a signed 64-bit value to `out`.
pub fn write_i64_field(out: &mut Vec<u8>, x: i64)
    ensures
        final(out)@ == old(out)@ + spec_i64_field(x),
{
    write_varint(out, x as u64);
}

/// Parse a signed 64-bit value at `pos`.
pub fn read_i64_field(b: &[u8], pos: usize) -> (r: Result<(i64, usize), Error>)
    requires
        pos <= b@.len(),
    ensures
        match r {
            Ok((v, end)) => pos <= end <= b@.len() && spec_parse_i64_field(b@.skip(pos as int))
                == Ok::<(i64, Seq<u8>), Error>((v, b@.skip(end as int))),
            Err(e) => spec_parse_i64_field(b@.skip(pos as int)) == Err::<(i64, Seq<u8>), Error>(
                e,
            ),
        },
{
    match read_varint(b, pos) {
        Ok((v, end)) => Ok((v as i64, end)),
        Err(e) => Err(e),
    }
}

/// An identifier: a length prefix of exactly sixteen, then sixteen raw
/// little-endian bytes.
pub open spec fn spec_uuid_field(u: u128) -> Seq<u8> {
    spec_varint(16) + spec_le_bytes(u, 16)
}

/// Parse an identifier from the front of `s`.  A length other than
/// sixteen is a malformed identifier.
pub open spec fn spec_parse_uuid_field(s: Seq<u8>) -> Result<(u128, Seq<u8>), Error> {
    match spec_parse_varint(s, 10) {
        Ok((n, r)) => {
            if n != 16 {
                Err(Error::MalformedIdentifier)
            } else {
                spec_parse_le_bytes(r, 16)
            }
        },
        Err(e) => Err(e),
    }
}

/// Parsing an encoded identifier yields the identifier and the trailing
/// input.
pub proof fn lemma_uuid_field_round_trip(u: u128, rest: Seq<u8>)
    ensures
        spec_parse_uuid_field(spec_uuid_field(u) + rest) == Ok::<(u128, Seq<u8>), Error>(
            (u, rest),
        ),
{
    lemma_varint_round_trip(16, spec_le_bytes(u, 16) + rest);
    assert(spec_uuid_field(u) + rest =~= spec_varint(16) + (spec_le_bytes(u, 16) + rest));
    lemma_le16_round_trip(u, rest);
}

/// Append an encoded identifier to `out`.
pub fn write_uuid_field(out: &mut Vec<u8>, u: u128)
    ensures
        final(out)@ == old(out)@ + spec_uuid_field(u),
{
    write_varint(out, 16);
    write_le16(out, u);
}

/// Parse an identifier at `pos`.
pub fn read_uuid_field(b: &[u8], pos: usize) -> (r: Result<(u128, usize), Error>)
    requires
        pos <= b@.len(),
    ensures
        match r {
            Ok((v, end)) => pos <= end <= b@.len() && spec_parse_uuid_field(b@.skip(pos as int))
                == Ok::<(u128, Seq<u8>), Error>((v, b@.skip(end as int))),
            Err(e) => spec_parse_uuid_field(b@.skip(pos as int)) == Err::<(u128, Seq<u8>), Error>(
                e,
            ),
        },
{
    let (n, p2) = match read_varint(b, pos) {
        Ok(v) => v,
        Err(e) => {
            return Err(e);
        },
    };
    if n != 16 {
        return Err(Error::MalformedIdentifier);
    }
    read_le16(b, p2)
}

} // verus!

