//! Content hashes: the BLAKE3 digest of a value's canonical encoding.

use vstd::prelude::*;
use crate::encoding::{
    concat_bytes, header_bytes, lemma_outpoint_bytes_injective, lemma_output_bytes_injective,
    outpoint_bytes, output_bytes, push_bytes, push_u32, push_u64, seq_bytes, transaction_bytes,
};
use crate::types::{Header, OutPoint, Output, Transaction};

verus! {

/// The BLAKE3 digest of `data`.
pub uninterp spec fn blake3_of(data: Seq<u8>) -> [u8; 32];

/// Relies on blake3::hash, which computes the 32-byte BLAKE3 digest of its
/// input and depends on nothing else.
#[verifier::external_body]
pub(crate) fn blake3_digest(data: &[u8]) -> (r: [u8; 32])
    ensures
        r == blake3_of(data@),
{
    blake3::hash(data).into()
}

/// A value with a canonical byte encoding, hashed through that encoding.
pub trait Hashable {
    /// The canonical encoding of the value.
    spec fn encoding(&self) -> Seq<u8>;

    /// Appends the canonical encoding of the value to `out`.
    fn encode_into(&self, out: &mut Vec<u8>)
        ensures
            final(out)@ == old(out)@ + self.encoding(),
    ;

    /// The canonical encoding of the value, in a vector of its own.
    fn encode(&self) -> (r: Vec<u8>)
        ensures
            r@ == self.encoding(),
    {
        let mut out: Vec<u8> = Vec::new();
        self.encode_into(&mut out);
        assert(out@ =~= self.encoding());
        out
    }

    /// The BLAKE3 digest of the canonical encoding.
    fn hash(&self) -> (r: [u8; 32])
        ensures
            r == blake3_of(self.encoding()),
    {
        let bytes = self.encode();
        blake3_digest(bytes.as_slice())
    }
}

impl Hashable for OutPoint {
    open spec fn encoding(&self) -> Seq<u8> {
        outpoint_bytes(*self)
    }

    fn encode_into(&self, out: &mut Vec<u8>) {
        match self {
            OutPoint::Regular { transaction_number, output_number } => {
                push_u32(out, 0);
                push_u64(out, *transaction_number);
                out.push(*output_number);
            },
            OutPoint::Coinbase { block_number, output_number } => {
                push_u32(out, 1);
                push_u32(out, *block_number);
                out.push(*output_number);
            },
            OutPoint::Deposit { sequence_number } => {
                push_u32(out, 2);
                push_u64(out, *sequence_number);
            },
        }
        assert(final(out)@ =~= old(out)@ + self.encoding());
    }
}

impl Hashable for Output {
    open spec fn encoding(&self) -> Seq<u8> {
        output_bytes(*self)
    }

    fn encode_into(&self, out: &mut Vec<u8>) {
        match self {
            Output::Regular { address, value } => {
                push_u32(out, 0);
                push_bytes(out, address.as_slice());
                push_u64(out, *value);
            },
            Output::Withdrawal { address, main_address, value, fee } => {
                push_u32(out, 1);
                push_bytes(out, address.as_slice());
                push_bytes(out, main_address.as_slice());
                push_u64(out, *value);
                push_u64(out, *fee);
            },
        }
        assert(final(out)@ =~= old(out)@ + self.encoding());
    }
}

impl<T: Hashable> Hashable for [T] {
    open spec fn encoding(&self) -> Seq<u8> {
        seq_bytes(self@, |x: T| x.encoding())
    }

    fn encode_into(&self, out: &mut Vec<u8>) {
        let ghost enc = |x: T| x.encoding();
        push_u64(out, self.len() as u64);
        let ghost start = out@;
        let mut i: usize = 0;
        while i < self.len()
            invariant
                i <= self@.len(),
                enc == (|x: T| x.encoding()),
                out@ == start + concat_bytes(self@.subrange(0, i as int), enc),
            decreases self.len() - i,
        {
            self[i].encode_into(out);
            proof {
                let s = self@.subrange(0, i + 1);
                assert(s.drop_last() == self@.subrange(0, i as int));
                assert(s.last() == self@[i as int]);
            }
            i = i + 1;
            assert(out@ =~= start + concat_bytes(self@.subrange(0, i as int), enc));
        }
        assert(self@.subrange(0, i as int) == self@);
        assert(final(out)@ =~= old(out)@ + self.encoding());
    }
}

impl Hashable for Transaction {
    open spec fn encoding(&self) -> Seq<u8> {
        transaction_bytes(*self)
    }

    fn encode_into(&self, out: &mut Vec<u8>) {
        self.inputs.as_slice().encode_into(out);
        self.outputs.as_slice().encode_into(out);
        assert((|x: OutPoint| x.encoding()) =~= (|p: OutPoint| outpoint_bytes(p)));
        assert((|x: Output| x.encoding()) =~= (|o: Output| output_bytes(o)));
        assert(final(out)@ =~= old(out)@ + self.encoding());
    }
}

impl Hashable for Header {
    open spec fn encoding(&self) -> Seq<u8> {
        header_bytes(*self)
    }

    fn encode_into(&self, out: &mut Vec<u8>) {
        push_bytes(out, self.prev_side_block_hash.as_slice());
        push_bytes(out, self.merkle_root.as_slice());
        assert(final(out)@ =~= old(out)@ + self.encoding());
    }
}

/// Hashing an outpoint is deterministic, and two different outpoints are
/// hashed from different bytes: the variant takes part along with the fields,
/// so the hashes can only agree where the digest itself collides.
pub proof fn lemma_outpoint_hash_identity(p: OutPoint, q: OutPoint)
    ensures
        p == q ==> blake3_of(p.encoding()) == blake3_of(q.encoding()),
        p != q ==> p.encoding() != q.encoding(),
{
    if p != q {
        lemma_outpoint_bytes_injective(p, q);
    }
}

/// Hashing an output is deterministic, and two different outputs are hashed
/// from different bytes.
pub proof fn lemma_output_hash_identity(o: Output, q: Output)
    ensures
        o == q ==> blake3_of(o.encoding()) == blake3_of(q.encoding()),
        o != q ==> o.encoding() != q.encoding(),
{
    if o != q {
        lemma_output_bytes_injective(o, q);
    }
}

} // verus!
