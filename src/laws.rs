//! Properties of block verification and fork choice, proved over the
//! specifications that `Blockchain::verify` and `Blockchain::push` meet.

use vstd::prelude::*;

use crate::block::{block_digest, BlockView};
use crate::crypto::{key_hash, pkcs1v15_accepts};
use crate::error::PrimitiveError;
use crate::hash::top_bits_zero;
use crate::ledger::{
    find_source, inputs_error, inputs_total, lemma_input_fault_is_first, lemma_tx_fault_is_first,
    outputs_total, push_outcome, spends_before, spent_in, tx_inputs_sum, tx_outputs_sum,
    txs_error, verify_outcome, ledger_wf, lemma_commit_contains, LedgerView,
};
use crate::transaction::{signed_digest_of, tx_digest, TransactionView, TxOutPtr};

verus! {

/// An input whose public key does not hash to the address of the output it
/// spends gets its block rejected with `OwnershipMismatch`, whatever its
/// signature, once the block has enough work and nothing before that input
/// is at fault.
pub proof fn lemma_ownership_mismatch_rejected(
    committed: Map<Seq<u8>, TransactionView>,
    spent: Seq<TxOutPtr>,
    difficulty: nat,
    b: BlockView,
    t: int,
    k: int,
)
    requires
        top_bits_zero(block_digest(b)[0], difficulty),
        0 <= t < b.transactions.len(),
        0 <= k < b.transactions[t].inputs.len(),
        txs_error(b.transactions, committed, spent, t) is None,
        inputs_error(b.transactions, committed, spent, t, k) is None,
        find_source(b.transactions, committed, b.transactions[t].inputs[k].src_output) matches Some(
            o,
        ) && o.rx_addr@ != key_hash(b.transactions[t].inputs[k].public_key),
    ensures
        verify_outcome(committed, spent, difficulty, b) == Err::<(), PrimitiveError>(
            PrimitiveError::OwnershipMismatch,
        ),
{
    lemma_input_fault_is_first(b.transactions, committed, spent, t, k);
}

/// An input that spends an output already spent, by an accepted block or
/// earlier in the same block, gets its block rejected with `DoubleSpend`,
/// once the block has enough work, the output exists and belongs to the
/// input's key, the signature verifies, and nothing before that input is at
/// fault.
pub proof fn lemma_double_spend_rejected(
    committed: Map<Seq<u8>, TransactionView>,
    spent: Seq<TxOutPtr>,
    difficulty: nat,
    b: BlockView,
    t: int,
    k: int,
)
    requires
        top_bits_zero(block_digest(b)[0], difficulty),
        0 <= t < b.transactions.len(),
        0 <= k < b.transactions[t].inputs.len(),
        txs_error(b.transactions, committed, spent, t) is None,
        inputs_error(b.transactions, committed, spent, t, k) is None,
        find_source(b.transactions, committed, b.transactions[t].inputs[k].src_output) matches Some(
            o,
        ) && o.rx_addr@ == key_hash(b.transactions[t].inputs[k].public_key),
        pkcs1v15_accepts(
            b.transactions[t].inputs[k].public_key,
            signed_digest_of(b.transactions[t].inputs[k]),
            b.transactions[t].inputs[k].signature,
        ),
        spent_in(spent, b.transactions[t].inputs[k].src_output) || spent_in(
            spends_before(b.transactions, t, k),
            b.transactions[t].inputs[k].src_output,
        ),
    ensures
        verify_outcome(committed, spent, difficulty, b) == Err::<(), PrimitiveError>(
            PrimitiveError::DoubleSpend,
        ),
{
    lemma_input_fault_is_first(b.transactions, committed, spent, t, k);
}

/// An ordinary transaction that pays out more than its inputs bring in gets
/// its block rejected with `UnbalancedTransaction`, once the block has enough
/// work and nothing before that point is at fault.
pub proof fn lemma_unbalanced_transaction_rejected(
    committed: Map<Seq<u8>, TransactionView>,
    spent: Seq<TxOutPtr>,
    difficulty: nat,
    b: BlockView,
    t: int,
)
    requires
        top_bits_zero(block_digest(b)[0], difficulty),
        0 < t < b.transactions.len(),
        txs_error(b.transactions, committed, spent, t) is None,
        inputs_error(b.transactions, committed, spent, t, b.transactions[t].inputs.len() as int)
            is None,
        tx_outputs_sum(b.transactions[t]) > tx_inputs_sum(b.transactions, committed, b.transactions[t]),
    ensures
        verify_outcome(committed, spent, difficulty, b) == Err::<(), PrimitiveError>(
            PrimitiveError::UnbalancedTransaction,
        ),
{
    lemma_tx_fault_is_first(b.transactions, committed, spent, t);
}

/// A block whose transactions each pass on their own, but whose total input
/// differs from its total output, is rejected with `UnbalancedBlock`.
pub proof fn lemma_unbalanced_block_rejected(
    committed: Map<Seq<u8>, TransactionView>,
    spent: Seq<TxOutPtr>,
    difficulty: nat,
    b: BlockView,
)
    requires
        top_bits_zero(block_digest(b)[0], difficulty),
        txs_error(b.transactions, committed, spent, b.transactions.len() as int) is None,
        inputs_total(b.transactions, committed, b.transactions.len() as int) != outputs_total(
            b.transactions,
            b.transactions.len() as int,
        ),
    ensures
        verify_outcome(committed, spent, difficulty, b) == Err::<(), PrimitiveError>(
            PrimitiveError::UnbalancedBlock,
        ),
{
}

/// A block that passes verification but whose parent was never accepted is
/// refused with `UnknownParent` (and `push` then leaves the ledger as it was).
pub proof fn lemma_unknown_parent_rejected(s: LedgerView, b: BlockView)
    requires
        verify_outcome(s.transactions, s.spent, s.difficulty, b) is Ok,
        !s.heights.contains_key(b.desc.parent_hash),
    ensures
        push_outcome(s, b) == Err::<LedgerView, PrimitiveError>(PrimitiveError::UnknownParent),
{
}

/// Fork choice. Two new blocks accepted one after the other on the same
/// parent reach the same height and leave the tip at the first one (where it
/// took the tip); a new third block accepted on either of them reaches a
/// strictly greater height and takes the tip.
pub proof fn lemma_fork_choice(s0: LedgerView, b1: BlockView, b2: BlockView, b3: BlockView)
    requires
        push_outcome(s0, b1) is Ok,
        push_outcome(push_outcome(s0, b1)->Ok_0, b2) is Ok,
        push_outcome(push_outcome(push_outcome(s0, b1)->Ok_0, b2)->Ok_0, b3) is Ok,
        !s0.heights.contains_key(block_digest(b1)),
        !push_outcome(s0, b1)->Ok_0.heights.contains_key(block_digest(b2)),
        !push_outcome(push_outcome(s0, b1)->Ok_0, b2)->Ok_0.heights.contains_key(block_digest(b3)),
        b2.desc.parent_hash == b1.desc.parent_hash,
        s0.heights[b1.desc.parent_hash] + 1 > s0.max_height,
        b3.desc.parent_hash == block_digest(b1) || b3.desc.parent_hash == block_digest(b2),
    ensures
        ({
            let s1 = push_outcome(s0, b1)->Ok_0;
            let s2 = push_outcome(s1, b2)->Ok_0;
            let s3 = push_outcome(s2, b3)->Ok_0;
            &&& s1.tip == block_digest(b1)
            &&& s2.heights[block_digest(b2)] == s1.heights[block_digest(b1)]
            &&& s2.tip == block_digest(b1)
            &&& s3.heights[block_digest(b3)] > s2.max_height
            &&& s3.tip == block_digest(b3)
        }),
{
}

/// A new block accepted on the tip raises the tip by one to that block and
/// commits every one of its transactions. (This is what a full pool leads to
/// when `queue` returns a block for broadcast: the block is built on the tip.)
pub proof fn lemma_block_on_tip(s: LedgerView, b: BlockView)
    requires
        ledger_wf(s),
        push_outcome(s, b) is Ok,
        b.desc.parent_hash == s.tip,
        !s.heights.contains_key(block_digest(b)),
    ensures
        ({
            let s2 = push_outcome(s, b)->Ok_0;
            &&& s2.tip == block_digest(b)
            &&& s2.max_height == s.max_height + 1
            &&& s2.heights[block_digest(b)] == s.max_height + 1
            &&& s2.blocks.contains_key(block_digest(b))
            &&& s2.queued == s.queued
            &&& forall|j: int|
                0 <= j < b.transactions.len() ==> s2.transactions.contains_key(
                    tx_digest(#[trigger] b.transactions[j]),
                )
        }),
{
    lemma_commit_contains(s.transactions, b.transactions, b.transactions.len() as int);
}

} // verus!
