//! Canonical byte encoding: fixed-width little-endian integers, a four-byte
//! variant index before the fields of each enum value, a sequence as its
//! length in eight bytes followed by its items, fixed-size arrays as their
//! bytes, and the fields of a value in the order of their declaration.

use vstd::prelude::*;
use crate::types::{Header, OutPoint, Output, Transaction};

verus! {

/// The four bytes of `x`, least significant first.
pub open spec fn u32_le(x: u32) -> Seq<u8> {
    seq![x as u8, (x >> 8u32) as u8, (x >> 16u32) as u8, (x >> 24u32) as u8]
}

/// The eight bytes of `x`, least significant first.
pub open spec fn u64_le(x: u64) -> Seq<u8> {
    seq![
        x as u8,
        (x >> 8u64) as u8,
        (x >> 16u64) as u8,
        (x >> 24u64) as u8,
        (x >> 32u64) as u8,
        (x >> 40u64) as u8,
        (x >> 48u64) as u8,
        (x >> 56u64) as u8,
    ]
}

/// The integer whose little-endian bytes are `s[at..at + 4]`.
pub open spec fn u32_at(s: Seq<u8>, at: int) -> u32 {
    (s[at] as u32) | ((s[at + 1] as u32) << 8u32) | ((s[at + 2] as u32) << 16u32) | ((s[at
        + 3] as u32) << 24u32)
}

/// The integer whose little-endian bytes are `s[at..at + 8]`.
pub open spec fn u64_at(s: Seq<u8>, at: int) -> u64 {
    (s[at] as u64) | ((s[at + 1] as u64) << 8u64) | ((s[at + 2] as u64) << 16u64) | ((s[at
        + 3] as u64) << 24u64) | ((s[at + 4] as u64) << 32u64) | ((s[at + 5] as u64) << 40u64)
        | ((s[at + 6] as u64) << 48u64) | ((s[at + 7] as u64) << 56u64)
}

pub open spec fn outpoint_bytes(p: OutPoint) -> Seq<u8> {
    match p {
        OutPoint::Regular { transaction_number, output_number } => u32_le(0) + u64_le(
            transaction_number,
        ) + seq![output_number],
        OutPoint::Coinbase { block_number, output_number } => u32_le(1) + u32_le(block_number)
            + seq![output_number],
        OutPoint::Deposit { sequence_number } => u32_le(2) + u64_le(sequence_number),
    }
}

pub open spec fn output_bytes(o: Output) -> Seq<u8> {
    match o {
        Output::Regular { address, value } => u32_le(0) + address@ + u64_le(value),
        Output::Withdrawal { address, main_address, value, fee } => u32_le(1) + address@
            + main_address@ + u64_le(value) + u64_le(fee),
    }
}

/// The encodings of the items of `s`, one after the other.
pub open spec fn concat_bytes<T>(s: Seq<T>, enc: spec_fn(T) -> Seq<u8>) -> Seq<u8>
    decreases s.len(),
{
    if s.len() == 0 {
        Seq::empty()
    } else {
        concat_bytes(s.drop_last(), enc) + enc(s.last())
    }
}

/// A sequence: its length in eight bytes, then its items.
pub open spec fn seq_bytes<T>(s: Seq<T>, enc: spec_fn(T) -> Seq<u8>) -> Seq<u8> {
    u64_le(#[verifier::truncate] (s.len() as u64)) + concat_bytes(s, enc)
}

pub open spec fn outpoints_bytes(s: Seq<OutPoint>) -> Seq<u8> {
    seq_bytes(s, |p: OutPoint| outpoint_bytes(p))
}

pub open spec fn outputs_bytes(s: Seq<Output>) -> Seq<u8> {
    seq_bytes(s, |o: Output| output_bytes(o))
}

pub open spec fn transaction_bytes(t: Transaction) -> Seq<u8> {
    outpoints_bytes(t.inputs@) + outputs_bytes(t.outputs@)
}

pub open spec fn header_bytes(h: Header) -> Seq<u8> {
    h.prev_side_block_hash@ + h.merkle_root@
}

/// The outpoint that `s` begins with, if it begins with the encoding of one.
/// Bytes after that encoding are not read.
pub open spec fn outpoint_from_bytes(s: Seq<u8>) -> Option<OutPoint> {
    if s.len() < 4 {
        None
    } else {
        let tag = u32_at(s, 0);
        if tag == 0 && s.len() >= 13 {
            Some(OutPoint::Regular { transaction_number: u64_at(s, 4), output_number: s[12] })
        } else if tag == 1 && s.len() >= 9 {
            Some(OutPoint::Coinbase { block_number: u32_at(s, 4), output_number: s[8] })
        } else if tag == 2 && s.len() >= 12 {
            Some(OutPoint::Deposit { sequence_number: u64_at(s, 4) })
        } else {
            None
        }
    }
}

pub fn push_u32(out: &mut Vec<u8>, x: u32)
    ensures
        final(out)@ == old(out)@ + u32_le(x),
{
    out.push(x as u8);
    out.push((x >> 8u32) as u8);
    out.push((x >> 16u32) as u8);
    out.push((x >> 24u32) as u8);
    assert(final(out)@ =~= old(out)@ + u32_le(x));
}

pub fn push_u64(out: &mut Vec<u8>, x: u64)
    ensures
        final(out)@ == old(out)@ + u64_le(x),
{
    out.push(x as u8);
    out.push((x >> 8u64) as u8);
    out.push((x >> 16u64) as u8);
    out.push((x >> 24u64) as u8);
    out.push((x >> 32u64) as u8);
    out.push((x >> 40u64) as u8);
    out.push((x >> 48u64) as u8);
    out.push((x >> 56u64) as u8);
    assert(final(out)@ =~= old(out)@ + u64_le(x));
}

pub fn push_bytes(out: &mut Vec<u8>, b: &[u8])
    ensures
        final(out)@ == old(out)@ + b@,
{
    let mut i: usize = 0;
    while i < b.len()
        invariant
            i <= b@.len(),
            out@ == old(out)@ + b@.subrange(0, i as int),
        decreases b.len() - i,
    {
        out.push(b[i]);
        i = i + 1;
        assert(out@ =~= old(out)@ + b@.subrange(0, i as int));
    }
    assert(b@.subrange(0, i as int) =~= b@);
}

fn read_u32(b: &[u8], at: usize) -> (r: u32)
    requires
        at + 4 <= b@.len(),
    ensures
        r == u32_at(b@, at as int),
{
    (b[at] as u32) | ((b[at + 1] as u32) << 8u32) | ((b[at + 2] as u32) << 16u32) | ((b[at
        + 3] as u32) << 24u32)
}

fn read_u64(b: &[u8], at: usize) -> (r: u64)
    requires
        at + 8 <= b@.len(),
    ensures
        r == u64_at(b@, at as int),
{
    (b[at] as u64) | ((b[at + 1] as u64) << 8u64) | ((b[at + 2] as u64) << 16u64) | ((b[at
        + 3] as u64) << 24u64) | ((b[at + 4] as u64) << 32u64) | ((b[at + 5] as u64) << 40u64)
        | ((b[at + 6] as u64) << 48u64) | ((b[at + 7] as u64) << 56u64)
}

/// Reads the outpoint that `bytes` begins with; `None` where the bytes do not
/// begin with the encoding of one.
pub fn decode_outpoint(bytes: &[u8]) -> (r: Option<OutPoint>)
    ensures
        r == outpoint_from_bytes(bytes@),
{
    if bytes.len() < 4 {
        return None;
    }
    let tag = read_u32(bytes, 0);
    if tag == 0 && bytes.len() >= 13 {
        Some(OutPoint::Regular { transaction_number: read_u64(bytes, 4), output_number: bytes[12] })
    } else if tag == 1 && bytes.len() >= 9 {
        Some(OutPoint::Coinbase { block_number: read_u32(bytes, 4), output_number: bytes[8] })
    } else if tag == 2 && bytes.len() >= 12 {
        Some(OutPoint::Deposit { sequence_number: read_u64(bytes, 4) })
    } else {
        None
    }
}

proof fn lemma_u32_round_trip(x: u32)
    ensures
        u32_at(u32_le(x), 0) == x,
{
    let s = u32_le(x);
    assert(((x as u8) as u32) | ((((x >> 8u32) as u8) as u32) << 8u32) | ((((x >> 16u32) as u8)
        as u32) << 16u32) | ((((x >> 24u32) as u8) as u32) << 24u32) == x) by (bit_vector);
}

proof fn lemma_u64_round_trip(x: u64)
    ensures
        u64_at(u64_le(x), 0) == x,
{
    assert(((x as u8) as u64) | ((((x >> 8u64) as u8) as u64) << 8u64) | ((((x >> 16u64) as u8)
        as u64) << 16u64) | ((((x >> 24u64) as u8) as u64) << 24u64) | ((((x >> 32u64) as u8)
        as u64) << 32u64) | ((((x >> 40u64) as u8) as u64) << 40u64) | ((((x >> 48u64) as u8)
        as u64) << 48u64) | ((((x >> 56u64) as u8) as u64) << 56u64) == x) by (bit_vector);
}

/// Decoding the encoding of an outpoint gives that outpoint back, whatever
/// bytes follow it.
pub proof fn lemma_outpoint_round_trip(p: OutPoint, rest: Seq<u8>)
    ensures
        outpoint_from_bytes(outpoint_bytes(p)) == Some(p),
        outpoint_from_bytes(outpoint_bytes(p) + rest) == Some(p),
{
    let e = outpoint_bytes(p);
    let s = e + rest;
    lemma_u32_round_trip(0);
    lemma_u32_round_trip(1);
    lemma_u32_round_trip(2);
    match p {
        OutPoint::Regular { transaction_number, output_number } => {
            lemma_u64_round_trip(transaction_number);
            assert(e.subrange(4, 12) =~= u64_le(transaction_number));
            assert(u32_at(e, 0) == u32_at(u32_le(0), 0));
            assert(u32_at(s, 0) == u32_at(u32_le(0), 0));
            assert(u64_at(e, 4) == u64_at(u64_le(transaction_number), 0));
            assert(u64_at(s, 4) == u64_at(u64_le(transaction_number), 0));
        },
        OutPoint::Coinbase { block_number, output_number } => {
            lemma_u32_round_trip(block_number);
            assert(u32_at(e, 0) == u32_at(u32_le(1), 0));
            assert(u32_at(s, 0) == u32_at(u32_le(1), 0));
            assert(u32_at(e, 4) == u32_at(u32_le(block_number), 0));
            assert(u32_at(s, 4) == u32_at(u32_le(block_number), 0));
        },
        OutPoint::Deposit { sequence_number } => {
            lemma_u64_round_trip(sequence_number);
            assert(u32_at(e, 0) == u32_at(u32_le(2), 0));
            assert(u32_at(s, 0) == u32_at(u32_le(2), 0));
            assert(u64_at(e, 4) == u64_at(u64_le(sequence_number), 0));
            assert(u64_at(s, 4) == u64_at(u64_le(sequence_number), 0));
        },
    }
}

/// Two different outpoints never have the same encoding: the variant takes
/// part in an outpoint's identity along with its fields.
pub proof fn lemma_outpoint_bytes_injective(p: OutPoint, q: OutPoint)
    requires
        p != q,
    ensures
        outpoint_bytes(p) != outpoint_bytes(q),
{
    lemma_outpoint_round_trip(p, Seq::empty());
    lemma_outpoint_round_trip(q, Seq::empty());
}

/// Two different outputs never have the same encoding.
pub proof fn lemma_output_bytes_injective(o: Output, q: Output)
    requires
        o != q,
    ensures
        output_bytes(o) != output_bytes(q),
{
    if output_bytes(o) == output_bytes(q) {
        let e = output_bytes(o);
        lemma_u32_round_trip(0);
        lemma_u32_round_trip(1);
        match o {
            Output::Regular { address, value } => {
                assert(u32_at(e, 0) == u32_at(u32_le(0), 0));
                assert(e.subrange(4, 24) =~= address@);
                lemma_u64_round_trip(value);
                assert(u64_at(e, 24) == u64_at(u64_le(value), 0));
                match q {
                    Output::Regular { address: a2, value: v2 } => {
                        assert(e.subrange(4, 24) =~= a2@);
                        assert(address =~= a2);
                        lemma_u64_round_trip(v2);
                        assert(u64_at(e, 24) == u64_at(u64_le(v2), 0));
                    },
                    Output::Withdrawal { .. } => {
                        assert(u32_at(e, 0) == u32_at(u32_le(1), 0));
                    },
                }
            },
            Output::Withdrawal { address, main_address, value, fee } => {
                assert(u32_at(e, 0) == u32_at(u32_le(1), 0));
                assert(e.subrange(4, 24) =~= address@);
                assert(e.subrange(24, 44) =~= main_address@);
                lemma_u64_round_trip(value);
                lemma_u64_round_trip(fee);
                assert(u64_at(e, 44) == u64_at(u64_le(value), 0));
                assert(u64_at(e, 52) == u64_at(u64_le(fee), 0));
                match q {
                    Output::Regular { .. } => {
                        assert(u32_at(e, 0) == u32_at(u32_le(0), 0));
                    },
                    Output::Withdrawal { address: a2, main_address: m2, value: v2, fee: f2 } => {
                        assert(e.subrange(4, 24) =~= a2@);
                        assert(e.subrange(24, 44) =~= m2@);
                        assert(address =~= a2);
                        assert(main_address =~= m2);
                        lemma_u64_round_trip(v2);
                        lemma_u64_round_trip(f2);
                        assert(u64_at(e, 44) == u64_at(u64_le(v2), 0));
                        assert(u64_at(e, 52) == u64_at(u64_le(f2), 0));
                    },
                }
            },
        }
    }
}

/// The encodings of two different outputs differ however each one goes on:
/// the encoding of an output is never a proper prefix of that of another.
proof fn lemma_output_bytes_prefix_free(o: Output, q: Output, z1: Seq<u8>, z2: Seq<u8>)
    requires
        o != q,
    ensures
        output_bytes(o) + z1 != output_bytes(q) + z2,
{
    let eo = output_bytes(o);
    let eq = output_bytes(q);
    lemma_output_bytes_injective(o, q);
    if eo + z1 == eq + z2 {
        if eo.len() == eq.len() {
            assert((eo + z1).subrange(0, eo.len() as int) =~= eo);
            assert((eq + z2).subrange(0, eq.len() as int) =~= eq);
        } else {
            assert(o is Regular != q is Regular);
            assert((0u32 as u8) == 0u8 && (1u32 as u8) == 1u8) by (bit_vector);
            assert((eo + z1)[0] == eo[0]);
            assert((eq + z2)[0] == eq[0]);
        }
    }
}

proof fn lemma_concat_bytes_append<T>(a: Seq<T>, b: Seq<T>, enc: spec_fn(T) -> Seq<u8>)
    ensures
        concat_bytes(a + b, enc) == concat_bytes(a, enc) + concat_bytes(b, enc),
    decreases b.len(),
{
    if b.len() == 0 {
        assert(a + b =~= a);
        assert(concat_bytes(a, enc) + concat_bytes(b, enc) =~= concat_bytes(a, enc));
    } else {
        lemma_concat_bytes_append(a, b.drop_last(), enc);
        assert((a + b).drop_last() =~= a + b.drop_last());
        assert((a + b).last() == b.last());
        assert(concat_bytes(a + b, enc) =~= concat_bytes(a, enc) + concat_bytes(b, enc));
    }
}

/// The encoding of a list of outputs depends on their order: swapping two
/// different outputs changes it.
pub proof fn lemma_outputs_bytes_order(s: Seq<Output>, i: int, j: int)
    requires
        0 <= i < j < s.len(),
        s[i] != s[j],
    ensures
        outputs_bytes(s) != outputs_bytes(s.update(i, s[j]).update(j, s[i])),
{
    let enc = |o: Output| output_bytes(o);
    let t = s.update(i, s[j]).update(j, s[i]);
    let a = s.subrange(0, i);
    let m = s.subrange(i + 1, j);
    let r = s.subrange(j + 1, s.len() as int);
    let x = s[i];
    let y = s[j];
    let rest1 = m + seq![y] + r;
    let rest2 = m + seq![x] + r;
    assert(s =~= a + (seq![x] + rest1));
    assert(t =~= a + (seq![y] + rest2));
    lemma_concat_bytes_append(a, seq![x] + rest1, enc);
    lemma_concat_bytes_append(a, seq![y] + rest2, enc);
    lemma_concat_bytes_append(seq![x], rest1, enc);
    lemma_concat_bytes_append(seq![y], rest2, enc);
    assert(seq![x].drop_last() =~= Seq::<Output>::empty());
    assert(seq![y].drop_last() =~= Seq::<Output>::empty());
    assert(concat_bytes(Seq::<Output>::empty(), enc) =~= Seq::empty());
    assert(seq![x].last() == x && seq![y].last() == y);
    assert(enc(x) == output_bytes(x) && enc(y) == output_bytes(y));
    assert(concat_bytes(seq![x], enc) =~= output_bytes(x));
    assert(concat_bytes(seq![y], enc) =~= output_bytes(y));
    let p = u64_le(#[verifier::truncate] (s.len() as u64)) + concat_bytes(a, enc);
    let z1 = concat_bytes(rest1, enc);
    let z2 = concat_bytes(rest2, enc);
    assert(outputs_bytes(s) =~= p + (output_bytes(x) + z1));
    assert(outputs_bytes(t) =~= p + (output_bytes(y) + z2));
    lemma_output_bytes_prefix_free(x, y, z1, z2);
    if outputs_bytes(s) == outputs_bytes(t) {
        assert(outputs_bytes(s).subrange(p.len() as int, outputs_bytes(s).len() as int) =~= output_bytes(x) + z1);
        assert(outputs_bytes(t).subrange(p.len() as int, outputs_bytes(t).len() as int) =~= output_bytes(y) + z2);
    }
}

} // verus!
