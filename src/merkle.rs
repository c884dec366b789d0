//! The header's commitment over a block: the digest of the coinbase's hash
//! followed by the hash of each transaction, in order.

use vstd::prelude::*;
use crate::encoding::{outputs_bytes, push_bytes, transaction_bytes};
use crate::hashing::{blake3_digest, blake3_of, Hashable};
use crate::types::{Header, Output, Transaction};

verus! {

/// The hashes in `hs`, one after the other.
pub open spec fn flatten_hashes(hs: Seq<[u8; 32]>) -> Seq<u8>
    decreases hs.len(),
{
    if hs.len() == 0 {
        Seq::empty()
    } else {
        flatten_hashes(hs.drop_last()) + hs.last()@
    }
}

/// The hash of each transaction, in order.
pub open spec fn transaction_hashes(txs: Seq<Transaction>) -> Seq<[u8; 32]> {
    txs.map_values(|t: Transaction| blake3_of(transaction_bytes(t)))
}

/// What the commitment digests: the coinbase's hash, then the hash of each
/// transaction, with nothing between them.
pub open spec fn merkle_preimage(coinbase: Seq<Output>, txs: Seq<Transaction>) -> Seq<u8> {
    blake3_of(outputs_bytes(coinbase))@ + flatten_hashes(transaction_hashes(txs))
}

/// The commitment over a block's coinbase and transactions.
pub open spec fn merkle_root_of(coinbase: Seq<Output>, txs: Seq<Transaction>) -> [u8; 32] {
    blake3_of(merkle_preimage(coinbase, txs))
}

/// The bytes that the commitment digests, given the coinbase's hash and the
/// hashes of the transactions.
pub fn concat_hashes(coinbase_hash: &[u8; 32], tx_hashes: &[[u8; 32]]) -> (r: Vec<u8>)
    ensures
        r@ == coinbase_hash@ + flatten_hashes(tx_hashes@),
{
    let mut out: Vec<u8> = Vec::new();
    push_bytes(&mut out, coinbase_hash.as_slice());
    let mut i: usize = 0;
    while i < tx_hashes.len()
        invariant
            i <= tx_hashes@.len(),
            out@ == coinbase_hash@ + flatten_hashes(tx_hashes@.subrange(0, i as int)),
        decreases tx_hashes.len() - i,
    {
        push_bytes(&mut out, tx_hashes[i].as_slice());
        proof {
            let s = tx_hashes@.subrange(0, i + 1);
            assert(s.drop_last() == tx_hashes@.subrange(0, i as int));
            assert(s.last() == tx_hashes@[i as int]);
        }
        i = i + 1;
        assert(out@ =~= coinbase_hash@ + flatten_hashes(tx_hashes@.subrange(0, i as int)));
    }
    assert(tx_hashes@.subrange(0, i as int) == tx_hashes@);
    out
}

/// Whether `root` equals the commitment that `header` holds.
pub fn root_matches(header: &Header, root: &[u8; 32]) -> (r: bool)
    ensures
        r == (header.merkle_root == *root),
{
    let mut i: usize = 0;
    while i < 32
        invariant
            i <= 32,
            forall|k: int| 0 <= k < i ==> header.merkle_root@[k] == root@[k],
        decreases 32 - i,
    {
        if header.merkle_root[i] != root[i] {
            return false;
        }
        i = i + 1;
    }
    assert(header.merkle_root@ =~= root@);
    assert(header.merkle_root =~= *root);
    true
}

proof fn lemma_flatten_hashes_chunk(hs: Seq<[u8; 32]>, k: int)
    requires
        0 <= k < hs.len(),
    ensures
        flatten_hashes(hs).len() == 32 * hs.len(),
        flatten_hashes(hs).subrange(32 * k, 32 * k + 32) == hs[k]@,
    decreases hs.len(),
{
    lemma_flatten_hashes_len(hs);
    let init = hs.drop_last();
    lemma_flatten_hashes_len(init);
    if k == hs.len() - 1 {
        assert(flatten_hashes(hs).subrange(32 * k, 32 * k + 32) =~= hs[k]@);
    } else {
        lemma_flatten_hashes_chunk(init, k);
        assert(flatten_hashes(hs).subrange(32 * k, 32 * k + 32) =~= flatten_hashes(init).subrange(
            32 * k,
            32 * k + 32,
        ));
    }
}

proof fn lemma_flatten_hashes_len(hs: Seq<[u8; 32]>)
    ensures
        flatten_hashes(hs).len() == 32 * hs.len(),
    decreases hs.len(),
{
    if hs.len() > 0 {
        lemma_flatten_hashes_len(hs.drop_last());
    }
}

/// The commitment depends on the order of the transactions: swapping two
/// transactions whose hashes differ changes the bytes that it digests.
pub proof fn lemma_merkle_preimage_transaction_order(
    coinbase: Seq<Output>,
    txs: Seq<Transaction>,
    i: int,
    j: int,
)
    requires
        0 <= i < j < txs.len(),
        blake3_of(transaction_bytes(txs[i])) != blake3_of(transaction_bytes(txs[j])),
    ensures
        merkle_preimage(coinbase, txs) != merkle_preimage(
            coinbase,
            txs.update(i, txs[j]).update(j, txs[i]),
        ),
{
    let swapped = txs.update(i, txs[j]).update(j, txs[i]);
    let hs = transaction_hashes(txs);
    let hs2 = transaction_hashes(swapped);
    let c = blake3_of(outputs_bytes(coinbase))@;
    lemma_flatten_hashes_chunk(hs, i);
    lemma_flatten_hashes_chunk(hs2, i);
    assert(hs2[i] == hs[j]);
    assert(hs[i] != hs[j]);
    assert(hs[i]@ != hs[j]@) by {
        if hs[i]@ == hs[j]@ {
            assert(hs[i] =~= hs[j]);
        }
    }
    let p1 = merkle_preimage(coinbase, txs);
    let p2 = merkle_preimage(coinbase, swapped);
    assert(p1.subrange(32 + 32 * i, 64 + 32 * i) =~= flatten_hashes(hs).subrange(32 * i, 32 * i + 32));
    assert(p2.subrange(32 + 32 * i, 64 + 32 * i) =~= flatten_hashes(hs2).subrange(32 * i, 32 * i + 32));
}

impl Header {
    /// The commitment over `coinbase` and `transactions`.
    pub fn compute_merkle_root(coinbase: &[Output], transactions: &[Transaction]) -> (r: [u8; 32])
        ensures
            r == merkle_root_of(coinbase@, transactions@),
    {
        let coinbase_hash = coinbase.hash();
        let mut hashes: Vec<[u8; 32]> = Vec::new();
        let mut i: usize = 0;
        while i < transactions.len()
            invariant
                i <= transactions@.len(),
                hashes@ == transaction_hashes(transactions@.subrange(0, i as int)),
            decreases transactions.len() - i,
        {
            let h = transactions[i].hash();
            hashes.push(h);
            i = i + 1;
            assert(hashes@ =~= transaction_hashes(transactions@.subrange(0, i as int)));
        }
        assert(transactions@.subrange(0, i as int) == transactions@);
        assert((|x: Output| x.encoding()) =~= (|o: Output| crate::encoding::output_bytes(o)));
        let preimage = concat_hashes(&coinbase_hash, hashes.as_slice());
        blake3_digest(preimage.as_slice())
    }

    /// Whether the header commits to exactly `coinbase` and `transactions`.
    pub fn validate_block(&self, coinbase: &[Output], transactions: &[Transaction]) -> (r: bool)
        ensures
            r == (self.merkle_root == merkle_root_of(coinbase@, transactions@)),
    {
        let merkle_root = Self::compute_merkle_root(coinbase, transactions);
        root_matches(self, &merkle_root)
    }
}

} // verus!
