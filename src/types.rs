use vstd::prelude::*;

verus! {

/// Default cap on a block's size in bytes, enforced by block assembly.
pub const BLOCK_SIZE_LIMIT: usize = 1048576;

/// Length of a main-chain pay-to-public-key-hash payload.
pub const MAIN_ADDRESS_LENGTH: usize = 20;

/// Length of a sidechain address.
pub const ADDRESS_LENGTH: usize = 20;

/// Length of a content hash.
pub const HASH_LENGTH: usize = 32;

/// A reference to a spendable output, in one of three disjoint forms.
#[derive(Debug, Clone, Hash, PartialEq, Eq, Structural)]
pub enum OutPoint {
    /// Output `output_number` of the sidechain transaction with this number.
    Regular { transaction_number: u64, output_number: u8 },
    /// Output `output_number` of the coinbase of sidechain block `block_number`.
    Coinbase { block_number: u32, output_number: u8 },
    /// A deposit observed on the main chain, by its sequence number there.
    Deposit { sequence_number: u64 },
}

/// A value-bearing record addressed to a sidechain address.
#[derive(Debug, Clone)]
pub enum Output {
    /// A transfer of `value` within the sidechain.
    Regular { address: [u8; 20], value: u64 },
    /// A request to move `value` back to the main chain, paying `fee` on top.
    /// `main_address` is a pay-to-public-key-hash payload.
    Withdrawal { address: [u8; 20], main_address: [u8; 20], value: u64, fee: u64 },
}

impl Output {
    /// The value that an output consumes: its value, plus the fee of a withdrawal.
    pub open spec fn spec_total_value(&self) -> int {
        match self {
            Output::Regular { value, .. } => *value as int,
            Output::Withdrawal { value, fee, .. } => *value as int + *fee as int,
        }
    }

    /// The sidechain address, whatever the variant.
    pub open spec fn spec_address(&self) -> [u8; 20] {
        match self {
            Output::Regular { address, .. } => *address,
            Output::Withdrawal { address, .. } => *address,
        }
    }

    pub fn total_value(&self) -> (r: u64)
        requires
            self.spec_total_value() <= u64::MAX,
        ensures
            r == self.spec_total_value(),
            self is Regular ==> r == self->Regular_value,
            self is Withdrawal ==> r == self->Withdrawal_value + self->Withdrawal_fee,
    {
        match self {
            Output::Regular { value, .. } => *value,
            Output::Withdrawal { value, fee, .. } => *value + *fee,
        }
    }

    pub fn address(&self) -> (r: [u8; 20])
        ensures
            r == self.spec_address(),
    {
        match self {
            Output::Regular { address, .. } => *address,
            Output::Withdrawal { address, .. } => *address,
        }
    }
}

/// Sum of `total_value` over a sequence of outputs.
pub open spec fn outputs_value(s: Seq<Output>) -> int
    decreases s.len(),
{
    if s.len() == 0 {
        0
    } else {
        outputs_value(s.drop_last()) + s.last().spec_total_value()
    }
}

/// An ordered list of spent outpoints and an ordered list of created outputs.
#[derive(Debug, Clone)]
pub struct Transaction {
    pub inputs: Vec<OutPoint>,
    pub outputs: Vec<Output>,
}

impl Transaction {
    /// The sum of `total_value` over the outputs.
    pub open spec fn spec_value_out(&self) -> int {
        outputs_value(self.outputs@)
    }

    pub fn value_out(&self) -> (r: u64)
        requires
            self.spec_value_out() <= u64::MAX,
        ensures
            r == self.spec_value_out(),
    {
        let mut sum: u64 = 0;
        let mut i: usize = 0;
        while i < self.outputs.len()
            invariant
                i <= self.outputs.len(),
                sum == outputs_value(self.outputs@.subrange(0, i as int)),
                outputs_value(self.outputs@) <= u64::MAX,
            decreases self.outputs.len() - i,
        {
            let ghost s = self.outputs@;
            proof {
                assert(s.subrange(0, i + 1).drop_last() == s.subrange(0, i as int));
                lemma_prefix_value_bounded(s, i + 1);
            }
            sum = sum + self.outputs[i].total_value();
            i = i + 1;
        }
        proof {
            assert(self.outputs@.subrange(0, i as int) == self.outputs@);
        }
        sum
    }
}

proof fn lemma_prefix_value_bounded(s: Seq<Output>, k: int)
    requires
        0 <= k <= s.len(),
    ensures
        0 <= outputs_value(s.subrange(0, k)) <= outputs_value(s),
    decreases s.len(),
{
    if s.len() > 0 {
        if k == s.len() {
            assert(s.subrange(0, k) == s);
            lemma_prefix_value_bounded(s.drop_last(), k - 1);
            assert(s.drop_last().subrange(0, k - 1) == s.drop_last());
        } else {
            lemma_prefix_value_bounded(s.drop_last(), k);
            assert(s.drop_last().subrange(0, k) == s.subrange(0, k));
        }
    }
}

/// Removing the output at index `k` takes away exactly its total value.
proof fn lemma_value_remove(s: Seq<Output>, k: int)
    requires
        0 <= k < s.len(),
    ensures
        outputs_value(s) == outputs_value(s.remove(k)) + s[k].spec_total_value(),
    decreases s.len(),
{
    if k == s.len() - 1 {
        assert(s.remove(k) == s.drop_last());
    } else {
        lemma_value_remove(s.drop_last(), k);
        assert(s.remove(k).drop_last() == s.drop_last().remove(k));
        assert(s.remove(k).last() == s.last());
    }
}

/// The value of a withdrawal is its value plus its fee, and that of a
/// regular output its value; the value a transaction sends out is the sum of
/// these over its outputs, taken in order.
pub proof fn lemma_value_out_sum(t: Transaction)
    ensures
        t.spec_value_out() == outputs_value(t.outputs@),
        t.outputs@.len() == 0 ==> t.spec_value_out() == 0,
        t.outputs@.len() > 0 ==> t.spec_value_out() == outputs_value(t.outputs@.drop_last())
            + t.outputs@.last().spec_total_value(),
        forall|i: int|
            0 <= i < t.outputs@.len() ==> (#[trigger] t.outputs@[i] is Regular ==> t.outputs@[i].spec_total_value()
                == t.outputs@[i]->Regular_value),
        forall|i: int|
            0 <= i < t.outputs@.len() ==> (#[trigger] t.outputs@[i] is Withdrawal ==> t.outputs@[i].spec_total_value()
                == t.outputs@[i]->Withdrawal_value + t.outputs@[i]->Withdrawal_fee),
{
}

/// The value a transaction sends out does not depend on the order of its
/// outputs: two transactions whose outputs are the same multiset send out the
/// same value.
pub proof fn lemma_value_out_permutation(t: Transaction, u: Transaction)
    requires
        t.outputs@.to_multiset() == u.outputs@.to_multiset(),
    ensures
        t.spec_value_out() == u.spec_value_out(),
{
    lemma_outputs_value_permutation(t.outputs@, u.outputs@);
}

proof fn lemma_outputs_value_permutation(a: Seq<Output>, b: Seq<Output>)
    requires
        a.to_multiset() == b.to_multiset(),
    ensures
        outputs_value(a) == outputs_value(b),
    decreases a.len(),
{
    broadcast use vstd::seq_lib::group_to_multiset_ensures;

    if a.len() == 0 {
        assert(b.to_multiset().len() == 0);
        assert(b.len() == 0);
    } else {
        let x = a.last();
        let a0 = a.drop_last();
        assert(a0.push(x) == a);
        assert(a.to_multiset() == a0.to_multiset().insert(x));
        assert(a.to_multiset().count(x) > 0);
        assert(b.contains(x));
        let k = choose|k: int| 0 <= k < b.len() && b[k] == x;
        assert(b.remove(k).to_multiset() == b.to_multiset().remove(x));
        assert(a0.to_multiset() =~= a.to_multiset().remove(x));
        lemma_outputs_value_permutation(a0, b.remove(k));
        lemma_value_remove(b, k);
    }
}

/// A sidechain block header: a link to the parent block and the commitment
/// over the block's coinbase and transactions.
#[derive(Debug)]
pub struct Header {
    pub prev_side_block_hash: [u8; 32],
    pub merkle_root: [u8; 32],
}

/// What one main-chain block holds that concerns the sidechain.
pub struct MainBlock {
    pub block_height: u32,
    pub block_hash: [u8; 32],
    pub deposits: Vec<(OutPoint, Output)>,
    pub withdrawal_bundle_event: Option<WithdrawalBundleEvent>,
    pub bmm_hashes: Vec<[u8; 32]>,
}

/// A change of state of a withdrawal bundle, under the merged-mining
/// commitment it was included with.
pub struct WithdrawalBundleEvent {
    pub withdrawal_bundle_event_type: WithdrawalBundleEventType,
    pub bmm_hash: [u8; 32],
}

pub enum WithdrawalBundleEventType {
    Submitted,
    Succeded,
    Failed,
}

} // verus!
