use vstd::prelude::*;

use crate::block::{block_digest, Block, BlockBody, BlockDesc, BlockView, DescView};
use crate::crypto::{key_hash, pkcs1v15_accepts};
use crate::error::PrimitiveError;
use crate::hash::{top_bits_zero, Digest};
use crate::table::DigestMap;
use crate::transaction::{
    signed_digest_of, tx_digest, Transaction, TransactionView, TxInView, TxOut, TxOutPtr,
};

verus! {

// ---------------------------------------------------------------------------
// Resolving the output that an input spends
// ---------------------------------------------------------------------------

/// The last of the first `n` block transactions whose digest is `h`.
pub open spec fn block_lookup(txs: Seq<TransactionView>, h: Seq<u8>, n: int) -> Option<TransactionView>
    decreases n,
{
    if n <= 0 {
        None
    } else if tx_digest(txs[n - 1]) == h {
        Some(txs[n - 1])
    } else {
        block_lookup(txs, h, n - 1)
    }
}

/// The transaction with digest `h`: from the candidate block first, else from
/// the committed ledger.
pub open spec fn source_tx(
    txs: Seq<TransactionView>,
    committed: Map<Seq<u8>, TransactionView>,
    h: Seq<u8>,
) -> Option<TransactionView> {
    match block_lookup(txs, h, txs.len() as int) {
        Some(t) => Some(t),
        None => if committed.contains_key(h) {
            Some(committed[h])
        } else {
            None
        },
    }
}

/// The output that `p` points at, if its transaction exists and has it.
pub open spec fn find_source(
    txs: Seq<TransactionView>,
    committed: Map<Seq<u8>, TransactionView>,
    p: TxOutPtr,
) -> Option<TxOut> {
    match source_tx(txs, committed, p.tx_hash@) {
        Some(t) => if p.output_idx < t.outputs.len() {
            Some(t.outputs[p.output_idx as int])
        } else {
            None
        },
        None => None,
    }
}

// ---------------------------------------------------------------------------
// Outputs already spent
// ---------------------------------------------------------------------------

/// Whether two pointers name the same output.
pub open spec fn same_output(a: TxOutPtr, b: TxOutPtr) -> bool {
    a.tx_hash@ == b.tx_hash@ && a.output_idx == b.output_idx
}

/// Whether some pointer of `s` names the output that `p` names.
pub open spec fn spent_in(s: Seq<TxOutPtr>, p: TxOutPtr) -> bool {
    exists|j: int| 0 <= j < s.len() && same_output(#[trigger] s[j], p)
}

/// The outputs that the first `k` inputs spend, in order.
pub open spec fn ptrs_of(ins: Seq<TxInView>, k: int) -> Seq<TxOutPtr>
    decreases k,
{
    if k <= 0 {
        Seq::empty()
    } else {
        ptrs_of(ins, k - 1).push(ins[k - 1].src_output)
    }
}

/// The outputs that the first `t` transactions spend, in order.
pub open spec fn ptrs_before(txs: Seq<TransactionView>, t: int) -> Seq<TxOutPtr>
    decreases t,
{
    if t <= 0 {
        Seq::empty()
    } else {
        ptrs_before(txs, t - 1) + ptrs_of(txs[t - 1].inputs, txs[t - 1].inputs.len() as int)
    }
}

/// The outputs spent in a block before input `k` of transaction `t`.
pub open spec fn spends_before(txs: Seq<TransactionView>, t: int, k: int) -> Seq<TxOutPtr> {
    ptrs_before(txs, t) + ptrs_of(txs[t].inputs, k)
}

// ---------------------------------------------------------------------------
// The checks of a block, in the order in which they are made
// ---------------------------------------------------------------------------

/// What is wrong with one input, checked in this order: its source, its
/// owner, its signature, then a second spend of its output (in the ledger's
/// history `spent` or earlier in the block, `prior`).
///
/// The signature covers `signed_digest_of`: the key's digest and the pointer
/// to the spent output, without the signature bytes that the input's own
/// digest (`in_digest`) begins with. A signature that had to cover itself
/// could never be produced.
pub open spec fn input_error(
    txs: Seq<TransactionView>,
    committed: Map<Seq<u8>, TransactionView>,
    spent: Seq<TxOutPtr>,
    prior: Seq<TxOutPtr>,
    i: TxInView,
) -> Option<PrimitiveError> {
    match find_source(txs, committed, i.src_output) {
        None => Some(PrimitiveError::DanglingReference),
        Some(o) => if o.rx_addr@ != key_hash(i.public_key) {
            Some(PrimitiveError::OwnershipMismatch)
        } else if !pkcs1v15_accepts(i.public_key, signed_digest_of(i), i.signature) {
            Some(PrimitiveError::InvalidSignature)
        } else if spent_in(spent, i.src_output) || spent_in(prior, i.src_output) {
            Some(PrimitiveError::DoubleSpend)
        } else {
            None
        },
    }
}

/// The first fault among the first `k` inputs of transaction `t`.
pub open spec fn inputs_error(
    txs: Seq<TransactionView>,
    committed: Map<Seq<u8>, TransactionView>,
    spent: Seq<TxOutPtr>,
    t: int,
    k: int,
) -> Option<PrimitiveError>
    decreases k,
{
    if k <= 0 {
        None
    } else {
        match inputs_error(txs, committed, spent, t, k - 1) {
            Some(e) => Some(e),
            None => input_error(
                txs,
                committed,
                spent,
                spends_before(txs, t, k - 1),
                txs[t].inputs[k - 1],
            ),
        }
    }
}

/// The amount of the output that an input spends (zero where there is none).
pub open spec fn input_amount(
    txs: Seq<TransactionView>,
    committed: Map<Seq<u8>, TransactionView>,
    i: TxInView,
) -> nat {
    match find_source(txs, committed, i.src_output) {
        Some(o) => o.amount as nat,
        None => 0,
    }
}

/// Sum of the amounts that the first `k` inputs spend.
pub open spec fn input_sum(
    txs: Seq<TransactionView>,
    committed: Map<Seq<u8>, TransactionView>,
    ins: Seq<TxInView>,
    k: int,
) -> nat
    decreases k,
{
    if k <= 0 {
        0
    } else {
        input_sum(txs, committed, ins, k - 1) + input_amount(txs, committed, ins[k - 1])
    }
}

/// Sum of the amounts of the first `k` outputs.
pub open spec fn output_sum(outs: Seq<TxOut>, k: int) -> nat
    decreases k,
{
    if k <= 0 {
        0
    } else {
        output_sum(outs, k - 1) + outs[k - 1].amount as nat
    }
}

pub open spec fn tx_inputs_sum(
    txs: Seq<TransactionView>,
    committed: Map<Seq<u8>, TransactionView>,
    t: TransactionView,
) -> nat {
    input_sum(txs, committed, t.inputs, t.inputs.len() as int)
}

pub open spec fn tx_outputs_sum(t: TransactionView) -> nat {
    output_sum(t.outputs, t.outputs.len() as int)
}

/// What is wrong with transaction `t`: its first faulty input, else, for an
/// ordinary (non-base, `t != 0`) transaction, paying out more than it takes
/// in.
pub open spec fn tx_error(
    txs: Seq<TransactionView>,
    committed: Map<Seq<u8>, TransactionView>,
    spent: Seq<TxOutPtr>,
    t: int,
) -> Option<PrimitiveError> {
    match inputs_error(txs, committed, spent, t, txs[t].inputs.len() as int) {
        Some(e) => Some(e),
        None => if t != 0 && tx_outputs_sum(txs[t]) > tx_inputs_sum(txs, committed, txs[t]) {
            Some(PrimitiveError::UnbalancedTransaction)
        } else {
            None
        },
    }
}

/// The first fault among the first `n` transactions of a block.
pub open spec fn txs_error(
    txs: Seq<TransactionView>,
    committed: Map<Seq<u8>, TransactionView>,
    spent: Seq<TxOutPtr>,
    n: int,
) -> Option<PrimitiveError>
    decreases n,
{
    if n <= 0 {
        None
    } else {
        match txs_error(txs, committed, spent, n - 1) {
            Some(e) => Some(e),
            None => tx_error(txs, committed, spent, n - 1),
        }
    }
}

/// What the first `n` transactions of a block take in.
pub open spec fn inputs_total(
    txs: Seq<TransactionView>,
    committed: Map<Seq<u8>, TransactionView>,
    n: int,
) -> nat
    decreases n,
{
    if n <= 0 {
        0
    } else {
        inputs_total(txs, committed, n - 1) + tx_inputs_sum(txs, committed, txs[n - 1])
    }
}

/// What the first `n` transactions of a block pay out.
pub open spec fn outputs_total(txs: Seq<TransactionView>, n: int) -> nat
    decreases n,
{
    if n <= 0 {
        0
    } else {
        outputs_total(txs, n - 1) + tx_outputs_sum(txs[n - 1])
    }
}

/// A base transaction has no inputs and exactly one output.
pub open spec fn is_base(t: TransactionView) -> bool {
    t.inputs.len() == 0 && t.outputs.len() == 1
}

/// Verdict on a block against the committed transactions, the outputs
/// already spent and the difficulty: proof of work, then each transaction in
/// order, then the block-wide balance, then the shape of the base
/// transaction.
pub open spec fn verify_outcome(
    committed: Map<Seq<u8>, TransactionView>,
    spent: Seq<TxOutPtr>,
    difficulty: nat,
    b: BlockView,
) -> Result<(), PrimitiveError> {
    let txs = b.transactions;
    let n = txs.len() as int;
    if !top_bits_zero(block_digest(b)[0], difficulty) {
        Err(PrimitiveError::InsufficientWork)
    } else {
        match txs_error(txs, committed, spent, n) {
            Some(e) => Err(e),
            None => if inputs_total(txs, committed, n) != outputs_total(txs, n) {
                Err(PrimitiveError::UnbalancedBlock)
            } else if !(n > 0 && is_base(txs[0])) {
                Err(PrimitiveError::MalformedBaseTransaction)
            } else {
                Ok(())
            },
        }
    }
}

/// A block that the ledger accepts, stated as a whole: enough work; every
/// input resolves, spends an output that nothing spent before, belongs to
/// its key and is signed; no ordinary transaction pays out more than it
/// takes in; the block's totals agree; and it opens with a base transaction.
pub open spec fn block_valid(
    committed: Map<Seq<u8>, TransactionView>,
    spent: Seq<TxOutPtr>,
    difficulty: nat,
    b: BlockView,
) -> bool {
    let txs = b.transactions;
    let n = txs.len() as int;
    &&& top_bits_zero(block_digest(b)[0], difficulty)
    &&& forall|t: int, k: int|
        0 <= t < n && 0 <= k < txs[t].inputs.len() ==> input_error(
            txs,
            committed,
            spent,
            spends_before(txs, t, k),
            #[trigger] txs[t].inputs[k],
        ) is None
    &&& forall|t: int|
        0 < t < n ==> tx_outputs_sum(#[trigger] txs[t]) <= tx_inputs_sum(txs, committed, txs[t])
    &&& inputs_total(txs, committed, n) == outputs_total(txs, n)
    &&& n > 0 && is_base(txs[0])
}

// ---------------------------------------------------------------------------
// Facts about the checks
// ---------------------------------------------------------------------------

/// Once an input fault is found, it stays the first one.
pub proof fn lemma_inputs_error_stays(
    txs: Seq<TransactionView>,
    committed: Map<Seq<u8>, TransactionView>,
    spent: Seq<TxOutPtr>,
    t: int,
    j: int,
    k: int,
)
    requires
        0 <= j <= k,
        inputs_error(txs, committed, spent, t, j) is Some,
    ensures
        inputs_error(txs, committed, spent, t, k) == inputs_error(txs, committed, spent, t, j),
    decreases k - j,
{
    if j < k {
        lemma_inputs_error_stays(txs, committed, spent, t, j, k - 1);
    }
}

/// Once a transaction fault is found, it stays the first one.
pub proof fn lemma_txs_error_stays(
    txs: Seq<TransactionView>,
    committed: Map<Seq<u8>, TransactionView>,
    spent: Seq<TxOutPtr>,
    j: int,
    k: int,
)
    requires
        0 <= j <= k,
        txs_error(txs, committed, spent, j) is Some,
    ensures
        txs_error(txs, committed, spent, k) == txs_error(txs, committed, spent, j),
    decreases k - j,
{
    if j < k {
        lemma_txs_error_stays(txs, committed, spent, j, k - 1);
    }
}

/// A fault of transaction `t`, with none before it, is the block's first.
pub proof fn lemma_tx_fault_is_first(
    txs: Seq<TransactionView>,
    committed: Map<Seq<u8>, TransactionView>,
    spent: Seq<TxOutPtr>,
    t: int,
)
    requires
        0 <= t < txs.len(),
        txs_error(txs, committed, spent, t) is None,
        tx_error(txs, committed, spent, t) is Some,
    ensures
        txs_error(txs, committed, spent, txs.len() as int) == tx_error(txs, committed, spent, t),
{
    lemma_txs_error_stays(txs, committed, spent, t + 1, txs.len() as int);
}

/// A fault of input `k` of transaction `t`, with none before it, is the
/// block's first.
pub proof fn lemma_input_fault_is_first(
    txs: Seq<TransactionView>,
    committed: Map<Seq<u8>, TransactionView>,
    spent: Seq<TxOutPtr>,
    t: int,
    k: int,
)
    requires
        0 <= t < txs.len(),
        0 <= k < txs[t].inputs.len(),
        txs_error(txs, committed, spent, t) is None,
        inputs_error(txs, committed, spent, t, k) is None,
        input_error(txs, committed, spent, spends_before(txs, t, k), txs[t].inputs[k]) is Some,
    ensures
        txs_error(txs, committed, spent, txs.len() as int) == input_error(
            txs,
            committed,
            spent,
            spends_before(txs, t, k),
            txs[t].inputs[k],
        ),
{
    lemma_inputs_error_stays(txs, committed, spent, t, k + 1, txs[t].inputs.len() as int);
    lemma_tx_fault_is_first(txs, committed, spent, t);
}

/// No input fault among the first `k` of transaction `t` means each of them
/// passes.
pub proof fn lemma_inputs_error_none(
    txs: Seq<TransactionView>,
    committed: Map<Seq<u8>, TransactionView>,
    spent: Seq<TxOutPtr>,
    t: int,
    k: int,
)
    requires
        0 <= t < txs.len(),
        0 <= k <= txs[t].inputs.len(),
    ensures
        inputs_error(txs, committed, spent, t, k) is None <==> forall|j: int|
            0 <= j < k ==> input_error(
                txs,
                committed,
                spent,
                spends_before(txs, t, j),
                #[trigger] txs[t].inputs[j],
            ) is None,
    decreases k,
{
    if k > 0 {
        lemma_inputs_error_none(txs, committed, spent, t, k - 1);
    }
}

/// No transaction fault among the first `n` means that each of them passes.
pub proof fn lemma_txs_error_none(
    txs: Seq<TransactionView>,
    committed: Map<Seq<u8>, TransactionView>,
    spent: Seq<TxOutPtr>,
    n: int,
)
    requires
        0 <= n <= txs.len(),
    ensures
        txs_error(txs, committed, spent, n) is None <==> {
            &&& forall|t: int, k: int|
                0 <= t < n && 0 <= k < txs[t].inputs.len() ==> input_error(
                    txs,
                    committed,
                    spent,
                    spends_before(txs, t, k),
                    #[trigger] txs[t].inputs[k],
                ) is None
            &&& forall|t: int|
                0 < t < n ==> tx_outputs_sum(#[trigger] txs[t]) <= tx_inputs_sum(
                    txs,
                    committed,
                    txs[t],
                )
        },
    decreases n,
{
    if n > 0 {
        lemma_txs_error_none(txs, committed, spent, n - 1);
        lemma_inputs_error_none(txs, committed, spent, n - 1, txs[n - 1].inputs.len() as int);
    }
}

/// Verification succeeds exactly on valid blocks.
pub proof fn lemma_verify_ok_iff_valid(
    committed: Map<Seq<u8>, TransactionView>,
    spent: Seq<TxOutPtr>,
    difficulty: nat,
    b: BlockView,
)
    ensures
        verify_outcome(committed, spent, difficulty, b) is Ok <==> block_valid(
            committed,
            spent,
            difficulty,
            b,
        ),
{
    lemma_txs_error_none(b.transactions, committed, spent, b.transactions.len() as int);
}

// ---------------------------------------------------------------------------
// The ledger
// ---------------------------------------------------------------------------

/// Number of queued transactions that makes a block.
pub const TX_PER_BLOCK: usize = 16;

/// A tree of blocks, with the transactions they committed and the tip of the
/// highest branch.
#[derive(Debug)]
pub struct Blockchain {
    /// Transactions waiting to be wrapped in a block.
    queued_tx: Vec<Transaction>,
    /// Committed transactions, by digest.
    transactions: DigestMap<Transaction>,
    /// Outputs spent by the transactions of accepted blocks, in order.
    spent: Vec<TxOutPtr>,
    /// Accepted block headers, by digest.
    blocks: DigestMap<BlockDesc>,
    /// Height of each accepted block.
    blocks_height: DigestMap<u128>,
    /// Height of the highest block.
    trusted_height: u128,
    /// Digest of the highest block (the first accepted at that height).
    trusted_last_block_hash: Digest,
    /// Number of leading bits of a block digest that must be zero.
    pow_difficulty: usize,
}

/// The ledger's state: the pool, the committed transactions, the outputs
/// they spent, the accepted headers and their heights, the highest height and
/// its block, and the difficulty.
pub struct LedgerView {
    pub queued: Seq<TransactionView>,
    pub transactions: Map<Seq<u8>, TransactionView>,
    pub spent: Seq<TxOutPtr>,
    pub blocks: Map<Seq<u8>, DescView>,
    pub heights: Map<Seq<u8>, u128>,
    pub max_height: u128,
    pub tip: Seq<u8>,
    pub difficulty: nat,
}

impl View for Blockchain {
    type V = LedgerView;

    closed spec fn view(&self) -> LedgerView {
        LedgerView {
            queued: self.queued_tx@.map_values(|t: Transaction| t@),
            transactions: self.transactions@,
            spent: self.spent@,
            blocks: self.blocks@,
            heights: self.blocks_height@,
            max_height: self.trusted_height,
            tip: self.trusted_last_block_hash@,
            difficulty: self.pow_difficulty as nat,
        }
    }
}

/// The ledger's invariant.
pub open spec fn ledger_wf(s: LedgerView) -> bool {
    &&& s.difficulty <= 8
    &&& s.queued.len() < TX_PER_BLOCK
    &&& s.blocks.contains_key(s.tip)
    &&& s.heights.contains_key(s.tip)
    &&& s.heights[s.tip] == s.max_height
    &&& s.heights.dom() == s.blocks.dom()
    &&& forall|k: Seq<u8>| #[trigger] s.heights.contains_key(k) ==> s.heights[k] <= s.max_height
    &&& forall|k: Seq<u8>| #[trigger] s.transactions.contains_key(k) ==> spends_recorded(
        s.transactions[k],
        s.spent,
    )
}

/// The transactions map after committing the first `n` of `txs`; a digest
/// already present keeps its transaction.
pub open spec fn commit(
    m: Map<Seq<u8>, TransactionView>,
    txs: Seq<TransactionView>,
    n: int,
) -> Map<Seq<u8>, TransactionView>
    decreases n,
{
    if n <= 0 {
        m
    } else {
        let prev = commit(m, txs, n - 1);
        if prev.contains_key(tx_digest(txs[n - 1])) {
            prev
        } else {
            prev.insert(tx_digest(txs[n - 1]), txs[n - 1])
        }
    }
}

/// What accepting block `b` does to the ledger: verification, then the
/// parent's height, then the records. A block already recorded changes
/// nothing; the tip moves only to a strictly higher block.
pub open spec fn push_outcome(s: LedgerView, b: BlockView) -> Result<LedgerView, PrimitiveError> {
    match verify_outcome(s.transactions, s.spent, s.difficulty, b) {
        Err(e) => Err(e),
        Ok(_) => if !s.heights.contains_key(b.desc.parent_hash) {
            Err(PrimitiveError::UnknownParent)
        } else if s.heights[b.desc.parent_hash] == u128::MAX {
            Err(PrimitiveError::HeightOverflow)
        } else {
            let h = (s.heights[b.desc.parent_hash] + 1) as u128;
            let d = block_digest(b);
            if s.heights.contains_key(d) {
                Ok(s)
            } else {
            Ok(
                LedgerView {
                    queued: s.queued,
                    transactions: commit(s.transactions, b.transactions, b.transactions.len() as int),
                    spent: s.spent + ptrs_before(b.transactions, b.transactions.len() as int),
                    blocks: s.blocks.insert(d, b.desc),
                    heights: s.heights.insert(d, h),
                    max_height: if h > s.max_height { h } else { s.max_height },
                    tip: if h > s.max_height { d } else { s.tip },
                    difficulty: s.difficulty,
                },
            )
            }
        },
    }
}

/// Committing keeps every binding already present.
pub proof fn lemma_commit_keeps(m: Map<Seq<u8>, TransactionView>, txs: Seq<TransactionView>, n: int)
    ensures
        forall|k: Seq<u8>| #[trigger] m.contains_key(k) ==> commit(m, txs, n).contains_key(k)
            && commit(m, txs, n)[k] == m[k],
    decreases n,
{
    if n > 0 {
        lemma_commit_keeps(m, txs, n - 1);
    }
}

/// After committing, every transaction digest of `txs` is bound, and each
/// binding is either one that was there before or a transaction of `txs`.
pub proof fn lemma_commit_contains(m: Map<Seq<u8>, TransactionView>, txs: Seq<TransactionView>, n: int)
    requires
        0 <= n <= txs.len(),
    ensures
        forall|j: int| 0 <= j < n ==> commit(m, txs, n).contains_key(tx_digest(#[trigger] txs[j])),
        forall|k: Seq<u8>| #[trigger] commit(m, txs, n).contains_key(k) ==> (m.contains_key(k)
            && commit(m, txs, n)[k] == m[k]) || exists|j: int|
            0 <= j < n && commit(m, txs, n)[k] == #[trigger] txs[j],
    decreases n,
{
    if n > 0 {
        lemma_commit_contains(m, txs, n - 1);
        let prev = commit(m, txs, n - 1);
        assert forall|k: Seq<u8>| #[trigger] commit(m, txs, n).contains_key(k) implies (m.contains_key(k)
            && commit(m, txs, n)[k] == m[k]) || exists|j: int|
            0 <= j < n && commit(m, txs, n)[k] == #[trigger] txs[j] by {
            if prev.contains_key(k) {
                if !(m.contains_key(k) && prev[k] == m[k]) {
                    let j = choose|j: int| 0 <= j < n - 1 && prev[k] == #[trigger] txs[j];
                    assert(commit(m, txs, n)[k] == txs[j]);
                }
            } else {
                assert(commit(m, txs, n)[k] == txs[n - 1]);
            }
        }
    }
}

/// Every output that a transaction spends is in `spent`.
pub open spec fn spends_recorded(t: TransactionView, spent: Seq<TxOutPtr>) -> bool {
    forall|i: int| 0 <= i < t.inputs.len() ==> spent_in(spent, #[trigger] t.inputs[i].src_output)
}

/// The pointers of the first `k` inputs, one for one.
pub proof fn lemma_ptrs_of(ins: Seq<TxInView>, k: int)
    requires
        0 <= k <= ins.len(),
    ensures
        ptrs_of(ins, k).len() == k,
        forall|i: int| 0 <= i < k ==> #[trigger] ptrs_of(ins, k)[i] == ins[i].src_output,
    decreases k,
{
    if k > 0 {
        lemma_ptrs_of(ins, k - 1);
    }
}

/// Every input of the first `n` transactions has its output in
/// `ptrs_before(txs, n)`.
pub proof fn lemma_ptrs_before_records(txs: Seq<TransactionView>, n: int)
    requires
        0 <= n <= txs.len(),
    ensures
        forall|j: int| 0 <= j < n ==> spends_recorded(#[trigger] txs[j], ptrs_before(txs, n)),
    decreases n,
{
    if n > 0 {
        lemma_ptrs_before_records(txs, n - 1);
        let a = ptrs_before(txs, n - 1);
        let last = txs[n - 1];
        let b = ptrs_of(last.inputs, last.inputs.len() as int);
        lemma_ptrs_of(last.inputs, last.inputs.len() as int);
        assert forall|j: int| 0 <= j < n implies spends_recorded(#[trigger] txs[j], a + b) by {
            assert forall|i: int| 0 <= i < txs[j].inputs.len() implies spent_in(
                a + b,
                #[trigger] txs[j].inputs[i].src_output,
            ) by {
                let p = txs[j].inputs[i].src_output;
                if j < n - 1 {
                    assert(spends_recorded(txs[j], a));
                    assert(spent_in(a, p));
                    let w = choose|w: int| 0 <= w < a.len() && same_output(#[trigger] a[w], p);
                    assert((a + b)[w] == a[w]);
                } else {
                    assert((a + b)[a.len() + i] == b[i]);
                }
            }
        }
    }
}

/// Recording more spends keeps a transaction's spends recorded.
pub proof fn lemma_recorded_grows(t: TransactionView, a: Seq<TxOutPtr>, b: Seq<TxOutPtr>)
    ensures
        spends_recorded(t, a) ==> spends_recorded(t, a + b),
        spends_recorded(t, b) ==> spends_recorded(t, a + b),
{
    assert forall|i: int| 0 <= i < t.inputs.len() && spent_in(a, t.inputs[i].src_output) implies spent_in(
        a + b,
        #[trigger] t.inputs[i].src_output,
    ) by {
        let p = t.inputs[i].src_output;
        let w = choose|w: int| 0 <= w < a.len() && same_output(#[trigger] a[w], p);
        assert((a + b)[w] == a[w]);
    }
    assert forall|i: int| 0 <= i < t.inputs.len() && spent_in(b, t.inputs[i].src_output) implies spent_in(
        a + b,
        #[trigger] t.inputs[i].src_output,
    ) by {
        let p = t.inputs[i].src_output;
        let w = choose|w: int| 0 <= w < b.len() && same_output(#[trigger] b[w], p);
        assert((a + b)[a.len() + w] == b[w]);
    }
}

/// Committing `txs` and recording their spends on top of `spent` keeps
/// every committed transaction's spends recorded.
pub proof fn lemma_commit_records(
    m: Map<Seq<u8>, TransactionView>,
    spent: Seq<TxOutPtr>,
    txs: Seq<TransactionView>,
)
    requires
        forall|k: Seq<u8>| #[trigger] m.contains_key(k) ==> spends_recorded(m[k], spent),
    ensures
        ({
            let m2 = commit(m, txs, txs.len() as int);
            let spent2 = spent + ptrs_before(txs, txs.len() as int);
            forall|k: Seq<u8>| #[trigger] m2.contains_key(k) ==> spends_recorded(m2[k], spent2)
        }),
{
    let n = txs.len() as int;
    let m2 = commit(m, txs, n);
    let pb = ptrs_before(txs, n);
    lemma_commit_contains(m, txs, n);
    lemma_ptrs_before_records(txs, n);
    assert forall|k: Seq<u8>| #[trigger] m2.contains_key(k) implies spends_recorded(m2[k], spent + pb) by {
        lemma_recorded_grows(m2[k], spent, pb);
        if !(m.contains_key(k) && m2[k] == m[k]) {
            let j = choose|j: int| 0 <= j < n && m2[k] == #[trigger] txs[j];
            assert(spends_recorded(txs[j], pb));
        }
    }
}

/// Accepting a block keeps the ledger's invariant.
pub proof fn lemma_push_wf(s: LedgerView, b: BlockView)
    requires
        ledger_wf(s),
        push_outcome(s, b) is Ok,
    ensures
        ledger_wf(push_outcome(s, b)->Ok_0),
{
    let d = block_digest(b);
    if !s.heights.contains_key(d) {
        let s2 = push_outcome(s, b)->Ok_0;
        lemma_commit_records(s.transactions, s.spent, b.transactions);
        assert(s2.heights.dom() =~= s2.blocks.dom());
    }
}

/// Accepting a block never removes or changes a recorded transaction, header
/// or height, never forgets a spent output, and never lowers the tip.
pub proof fn lemma_push_keeps(s: LedgerView, b: BlockView)
    requires
        ledger_wf(s),
        push_outcome(s, b) is Ok,
    ensures
        ({
            let s2 = push_outcome(s, b)->Ok_0;
            &&& forall|k: Seq<u8>| #[trigger] s.transactions.contains_key(k)
                ==> s2.transactions.contains_key(k) && s2.transactions[k] == s.transactions[k]
            &&& forall|k: Seq<u8>| #[trigger] s.blocks.contains_key(k)
                ==> s2.blocks.contains_key(k) && s2.blocks[k] == s.blocks[k]
            &&& forall|k: Seq<u8>| #[trigger] s.heights.contains_key(k)
                ==> s2.heights.contains_key(k) && s2.heights[k] == s.heights[k]
            &&& s2.spent.take(s.spent.len() as int) == s.spent
            &&& s2.max_height >= s.max_height
        }),
{
    lemma_commit_keeps(s.transactions, b.transactions, b.transactions.len() as int);
    let s2 = push_outcome(s, b)->Ok_0;
    let d = block_digest(b);
    if s.heights.contains_key(d) {
        assert(s2 == s);
        assert(s.spent.take(s.spent.len() as int) =~= s.spent);
    } else {
        assert(s2.spent == s.spent + ptrs_before(b.transactions, b.transactions.len() as int));
        assert(s2.spent.take(s.spent.len() as int) =~= s.spent);
        assert(!s.blocks.contains_key(d));
    }
}

/// A sum of up to 2^64 amounts below 2^128: `carries * 2^128 + low`.
struct AmountTotal {
    carries: u64,
    low: u128,
}

impl AmountTotal {
    closed spec fn value(&self) -> nat {
        self.carries as nat * 0x1_0000_0000_0000_0000_0000_0000_0000_0000 + self.low as nat
    }

    fn zero() -> (r: AmountTotal)
        ensures
            r.value() == 0,
            r.carries == 0,
    {
        AmountTotal { carries: 0, low: 0 }
    }

    fn add(&mut self, x: u128)
        requires
            old(self).carries < u64::MAX,
        ensures
            final(self).value() == old(self).value() + x,
            final(self).carries <= old(self).carries + 1,
    {
        if x <= u128::MAX - self.low {
            self.low = self.low + x;
        } else {
            self.low = x - (u128::MAX - self.low) - 1;
            self.carries = self.carries + 1;
        }
    }

    fn same(&self, other: &AmountTotal) -> (r: bool)
        ensures
            r == (self.value() == other.value()),
    {
        self.carries == other.carries && self.low == other.low
    }
}

/// Whether some pointer of `s` names the output that `p` names.
fn contains_output(s: &Vec<TxOutPtr>, p: &TxOutPtr) -> (r: bool)
    ensures
        r == spent_in(s@, *p),
{
    let mut i: usize = 0;
    while i < s.len()
        invariant
            i <= s@.len(),
            forall|j: int| 0 <= j < i ==> !same_output(#[trigger] s@[j], *p),
        decreases s@.len() - i,
    {
        if s[i].output_idx == p.output_idx && s[i].tx_hash.same_as(&p.tx_hash) {
            return true;
        }
        i = i + 1;
    }
    false
}

/// Appends the outputs that `txs` spend to `spent`.
fn record_spends(spent: &mut Vec<TxOutPtr>, txs: &Vec<Transaction>)
    ensures
        final(spent)@ == old(spent)@ + ptrs_before(
            txs@.map_values(|t: Transaction| t@),
            txs@.len() as int,
        ),
{
    let ghost v = txs@.map_values(|t: Transaction| t@);
    let ghost start = spent@;
    let mut t: usize = 0;
    while t < txs.len()
        invariant
            t <= txs@.len(),
            v == txs@.map_values(|t: Transaction| t@),
            start == old(spent)@,
            spent@ == start + ptrs_before(v, t as int),
        decreases txs@.len() - t,
    {
        let ins = &txs[t].inputs;
        assert(v[t as int] == txs@[t as int]@);
        let mut k: usize = 0;
        while k < ins.len()
            invariant
                t < txs@.len(),
                v == txs@.map_values(|t: Transaction| t@),
                ins == &txs@[t as int].inputs,
                v[t as int] == txs@[t as int]@,
                k <= ins@.len(),
                spent@ == start + ptrs_before(v, t as int) + ptrs_of(v[t as int].inputs, k as int),
            decreases ins@.len() - k,
        {
            assert(v[t as int].inputs[k as int] == ins@[k as int]@);
            spent.push(ins[k].src_output);
            assert(spent@ =~= start + ptrs_before(v, t as int) + ptrs_of(v[t as int].inputs, k + 1));
            k = k + 1;
        }
        assert(spent@ =~= start + ptrs_before(v, t + 1));
        t = t + 1;
    }
}

/// The digest of each transaction of `txs`.
fn digests_of(txs: &Vec<Transaction>) -> (r: Vec<Digest>)
    ensures
        r@.len() == txs@.len(),
        forall|j: int| 0 <= j < txs@.len() ==> #[trigger] r@[j]@ == tx_digest(txs@[j]@),
{
    let mut r: Vec<Digest> = Vec::new();
    let mut k: usize = 0;
    while k < txs.len()
        invariant
            k <= txs@.len(),
            r@.len() == k,
            forall|j: int| 0 <= j < k ==> #[trigger] r@[j]@ == tx_digest(txs@[j]@),
        decreases txs@.len() - k,
    {
        r.push(txs[k].hash());
        k = k + 1;
    }
    r
}

/// Sum of the amounts of `outs`, which fits: at most 2^64 amounts below 2^64.
fn sum_outputs(outs: &Vec<TxOut>) -> (r: u128)
    ensures
        r as nat == output_sum(outs@, outs@.len() as int),
{
    let mut sum: u128 = 0;
    let mut k: usize = 0;
    while k < outs.len()
        invariant
            k <= outs@.len(),
            sum as nat == output_sum(outs@, k as int),
            sum as nat <= k as nat * 0xFFFF_FFFF_FFFF_FFFF,
        decreases outs@.len() - k,
    {
        proof {
            assert(k < 0x1_0000_0000_0000_0000);
            assert((k as nat + 1) * 0xFFFF_FFFF_FFFF_FFFF == k as nat * 0xFFFF_FFFF_FFFF_FFFF
                + 0xFFFF_FFFF_FFFF_FFFF) by (nonlinear_arith);
            assert((k as nat + 1) * 0xFFFF_FFFF_FFFF_FFFF <= 0x1_0000_0000_0000_0000
                * 0xFFFF_FFFF_FFFF_FFFF) by (nonlinear_arith)
                requires
                    k < 0x1_0000_0000_0000_0000,
            ;
        }
        sum = sum + outs[k].amount as u128;
        k = k + 1;
    }
    sum
}

impl Blockchain {
    pub open spec fn wf(&self) -> bool {
        ledger_wf(self@)
    }

    /// The output that `p` points at: first among the block's transactions
    /// (whose digests are `digests`), else among the committed ones.
    fn find_source(&self, txs: &Vec<Transaction>, digests: &Vec<Digest>, p: &TxOutPtr) -> (r: Option<TxOut>)
        requires
            digests@.len() == txs@.len(),
            forall|j: int| 0 <= j < txs@.len() ==> #[trigger] digests@[j]@ == tx_digest(txs@[j]@),
        ensures
            r == find_source(txs@.map_values(|t: Transaction| t@), self@.transactions, *p),
    {
        let ghost v = txs@.map_values(|t: Transaction| t@);
        let ghost h = p.tx_hash@;
        let mut i: usize = txs.len();
        while i > 0
            invariant
                i <= txs@.len(),
                h == p.tx_hash@,
                v == txs@.map_values(|t: Transaction| t@),
                digests@.len() == txs@.len(),
                forall|j: int| 0 <= j < txs@.len() ==> #[trigger] digests@[j]@ == tx_digest(txs@[j]@),
                block_lookup(v, h, v.len() as int) == block_lookup(v, h, i as int),
            decreases i,
        {
            assert(v[i - 1] == txs@[i - 1]@);
            if digests[i - 1].same_as(&p.tx_hash) {
                let t = &txs[i - 1];
                assert(block_lookup(v, h, i as int) == Some(t@));
                if p.output_idx < t.outputs.len() {
                    return Some(t.outputs[p.output_idx]);
                } else {
                    return None;
                }
            }
            i = i - 1;
        }
        assert(block_lookup(v, h, v.len() as int) is None);
        match self.transactions.get(&p.tx_hash) {
            Some(t) => if p.output_idx < t.outputs.len() {
                Some(t.outputs[p.output_idx])
            } else {
                None
            },
            None => None,
        }
    }

    /// Checks a block against the ledger without changing it.
    pub fn verify(&self, block: &Block) -> (r: Result<(), PrimitiveError>)
        requires
            self.wf(),
        ensures
            r == verify_outcome(self@.transactions, self@.spent, self@.difficulty, block@),
            r is Ok <==> block_valid(self@.transactions, self@.spent, self@.difficulty, block@),
    {
        proof {
            lemma_verify_ok_iff_valid(self@.transactions, self@.spent, self@.difficulty, block@);
        }
        let ghost c = self@.transactions;
        let ghost sp = self@.spent;
        let ghost v = block@.transactions;
        let digest = block.hash();
        if !digest.pow_verified(self.pow_difficulty) {
            return Err(PrimitiveError::InsufficientWork);
        }
        let txs = &block.body.transactions;
        let digests = digests_of(txs);
        let mut seen: Vec<TxOutPtr> = Vec::new();
        let mut total_in = AmountTotal::zero();
        let mut total_out = AmountTotal::zero();
        let mut t: usize = 0;
        while t < txs.len()
            invariant
                self.wf(),
                c == self@.transactions,
                sp == self@.spent,
                txs == &block.body.transactions,
                v == txs@.map_values(|t: Transaction| t@),
                top_bits_zero(block_digest(block@)[0], self@.difficulty),
                digests@.len() == txs@.len(),
                forall|j: int| 0 <= j < txs@.len() ==> #[trigger] digests@[j]@ == tx_digest(txs@[j]@),
                t <= txs@.len(),
                seen@ == ptrs_before(v, t as int),
                txs_error(v, c, sp, t as int) is None,
                total_in.value() == inputs_total(v, c, t as int),
                total_out.value() == outputs_total(v, t as int),
                total_in.carries <= t,
                total_out.carries <= t,
            decreases txs@.len() - t,
        {
            let tx = &txs[t];
            let ghost tv = v[t as int];
            let ins = &tx.inputs;
            let mut tin: u128 = 0;
            let mut k: usize = 0;
            while k < ins.len()
                invariant
                    self.wf(),
                    c == self@.transactions,
                    sp == self@.spent,
                    txs == &block.body.transactions,
                    v == txs@.map_values(|t: Transaction| t@),
                    top_bits_zero(block_digest(block@)[0], self@.difficulty),
                    digests@.len() == txs@.len(),
                    forall|j: int| 0 <= j < txs@.len() ==> #[trigger] digests@[j]@ == tx_digest(txs@[j]@),
                    t < txs@.len(),
                    tx == &txs@[t as int],
                    ins == &tx.inputs,
                    tv == v[t as int],
                    tv == tx@,
                    txs_error(v, c, sp, t as int) is None,
                    k <= ins@.len(),
                    seen@ == spends_before(v, t as int, k as int),
                    inputs_error(v, c, sp, t as int, k as int) is None,
                    tin as nat == input_sum(v, c, tv.inputs, k as int),
                    tin as nat <= k as nat * 0xFFFF_FFFF_FFFF_FFFF,
                decreases ins@.len() - k,
            {
                let inp = &ins[k];
                assert(tv.inputs[k as int] == inp@);
                let src = match self.find_source(txs, &digests, &inp.src_output) {
                    Some(o) => o,
                    None => {
                        proof {
                            lemma_input_fault_is_first(v, c, sp, t as int, k as int);
                        }
                        return Err(PrimitiveError::DanglingReference);
                    },
                };
                if !inp.public_key.hash().same_as(src.rx_addr.as_hash()) {
                    proof {
                        lemma_input_fault_is_first(v, c, sp, t as int, k as int);
                    }
                    return Err(PrimitiveError::OwnershipMismatch);
                }
                let signed = inp.signed_digest();
                if inp.public_key.verify(&signed, inp.signature.as_slice()).is_err() {
                    proof {
                        lemma_input_fault_is_first(v, c, sp, t as int, k as int);
                    }
                    return Err(PrimitiveError::InvalidSignature);
                }
                if contains_output(&self.spent, &inp.src_output) || contains_output(&seen, &inp.src_output) {
                    proof {
                        lemma_input_fault_is_first(v, c, sp, t as int, k as int);
                    }
                    return Err(PrimitiveError::DoubleSpend);
                }
                proof {
                    assert(k < 0x1_0000_0000_0000_0000);
                    assert((k as nat + 1) * 0xFFFF_FFFF_FFFF_FFFF == k as nat * 0xFFFF_FFFF_FFFF_FFFF
                        + 0xFFFF_FFFF_FFFF_FFFF) by (nonlinear_arith);
                    assert((k as nat + 1) * 0xFFFF_FFFF_FFFF_FFFF <= 0x1_0000_0000_0000_0000
                        * 0xFFFF_FFFF_FFFF_FFFF) by (nonlinear_arith)
                        requires
                            k < 0x1_0000_0000_0000_0000,
                    ;
                }
                seen.push(inp.src_output);
                assert(seen@ =~= spends_before(v, t as int, k + 1));
                tin = tin + src.amount as u128;
                k = k + 1;
            }
            let tout = sum_outputs(&tx.outputs);
            if t != 0 && tout > tin {
                proof {
                    lemma_tx_fault_is_first(v, c, sp, t as int);
                }
                return Err(PrimitiveError::UnbalancedTransaction);
            }
            assert(t < 0x1_0000_0000_0000_0000);
            total_in.add(tin);
            total_out.add(tout);
            t = t + 1;
        }
        if !total_in.same(&total_out) {
            return Err(PrimitiveError::UnbalancedBlock);
        }
        if txs.len() == 0 || txs[0].inputs.len() != 0 || txs[0].outputs.len() != 1 {
            return Err(PrimitiveError::MalformedBaseTransaction);
        }
        Ok(())
    }

    /// A ledger whose only block is `genesis`, at height zero; the genesis
    /// transactions are committed without checks and seed the first outputs.
    pub fn new(pow_difficulty: usize, genesis: Block) -> (r: Blockchain)
        requires
            pow_difficulty <= 8,
        ensures
            r.wf(),
            r@.queued.len() == 0,
            r@.transactions == commit(
                Map::empty(),
                genesis@.transactions,
                genesis@.transactions.len() as int,
            ),
            r@.spent == ptrs_before(genesis@.transactions, genesis@.transactions.len() as int),
            r@.blocks == Map::<Seq<u8>, DescView>::empty().insert(block_digest(genesis@), genesis@.desc),
            r@.heights == Map::<Seq<u8>, u128>::empty().insert(block_digest(genesis@), 0u128),
            r@.max_height == 0,
            r@.tip == block_digest(genesis@),
            r@.difficulty == pow_difficulty,
    {
        let hash = genesis.hash();
        let mut blocks: DigestMap<BlockDesc> = DigestMap::new();
        blocks.insert(hash, genesis.desc);
        let mut blocks_height: DigestMap<u128> = DigestMap::new();
        blocks_height.insert(hash, 0);
        let mut transactions: DigestMap<Transaction> = DigestMap::new();
        commit_all(&mut transactions, &genesis.body.transactions);
        let mut spent: Vec<TxOutPtr> = Vec::new();
        record_spends(&mut spent, &genesis.body.transactions);
        assert(spent@ =~= ptrs_before(genesis@.transactions, genesis@.transactions.len() as int));
        let r = Blockchain {
            queued_tx: Vec::new(),
            transactions,
            spent,
            blocks,
            blocks_height,
            trusted_height: 0,
            trusted_last_block_hash: hash,
            pow_difficulty,
        };
        assert(r@.queued =~= Seq::<TransactionView>::empty());
        assert(r@.heights.dom() =~= r@.blocks.dom());
        proof {
            lemma_commit_records(Map::empty(), Seq::empty(), genesis@.transactions);
            assert(Seq::<TxOutPtr>::empty() + ptrs_before(
                genesis@.transactions,
                genesis@.transactions.len() as int,
            ) =~= r@.spent);
        }
        r
    }

    /// Digest of the tip: the first block accepted at the greatest height.
    pub fn current_hash(&self) -> (r: Digest)
        ensures
            r@ == self@.tip,
    {
        self.trusted_last_block_hash
    }

    /// Height of an accepted block.
    pub fn height(&self, digest: &Digest) -> (r: Option<u128>)
        ensures
            r is Some <==> self@.heights.contains_key(digest@),
            r matches Some(h) ==> h == self@.heights[digest@],
    {
        match self.blocks_height.get(digest) {
            Some(h) => Some(*h),
            None => None,
        }
    }

    /// Verifies `block` and records it; hands its body back on success. A
    /// block already recorded is accepted again and changes nothing. On
    /// failure the ledger is left as it was; on success nothing recorded
    /// before is removed or changed and the tip height does not drop.
    pub fn push(&mut self, block: Block) -> (r: Result<BlockBody, PrimitiveError>)
        requires
            old(self).wf(),
        ensures
            final(self).wf(),
            match push_outcome(old(self)@, block@) {
                Ok(s) => {
                    &&& r matches Ok(body) && body@ == block@.transactions
                    &&& final(self)@ == s
                },
                Err(e) => r == Err::<BlockBody, PrimitiveError>(e) && final(self)@ == old(self)@,
            },
            forall|k: Seq<u8>| #[trigger] old(self)@.transactions.contains_key(k)
                ==> final(self)@.transactions.contains_key(k) && final(self)@.transactions[k]
                == old(self)@.transactions[k],
            forall|k: Seq<u8>| #[trigger] old(self)@.blocks.contains_key(k)
                ==> final(self)@.blocks.contains_key(k) && final(self)@.blocks[k] == old(self)@.blocks[k],
            forall|k: Seq<u8>| #[trigger] old(self)@.heights.contains_key(k)
                ==> final(self)@.heights.contains_key(k) && final(self)@.heights[k] == old(self)@.heights[k],
            final(self)@.spent.take(old(self)@.spent.len() as int) == old(self)@.spent,
            final(self)@.max_height >= old(self)@.max_height,
    {
        proof {
            if push_outcome(old(self)@, block@) is Ok {
                lemma_push_wf(old(self)@, block@);
                lemma_push_keeps(old(self)@, block@);
            } else {
                assert(old(self)@.spent.take(old(self)@.spent.len() as int) =~= old(self)@.spent);
            }
        }
        match self.verify(&block) {
            Ok(_) => {},
            Err(e) => return Err(e),
        }
        let hash = block.hash();
        let parent_height: u128 = match self.blocks_height.get(&block.desc.parent_hash) {
            Some(h) => *h,
            None => return Err(PrimitiveError::UnknownParent),
        };
        if parent_height == u128::MAX {
            return Err(PrimitiveError::HeightOverflow);
        }
        let height = parent_height + 1;
        let ghost s = push_outcome(old(self)@, block@)->Ok_0;
        if self.blocks_height.get(&hash).is_some() {
            return Ok(block.body);
        }
        record_spends(&mut self.spent, &block.body.transactions);
        self.blocks_height.insert(hash, height);
        self.blocks.insert(hash, block.desc);
        commit_all(&mut self.transactions, &block.body.transactions);
        if height > self.trusted_height {
            self.trusted_height = height;
            self.trusted_last_block_hash = hash;
        }
        assert(self@.heights.dom() =~= self@.blocks.dom());
        assert(self@ == s);
        Ok(block.body)
    }

    /// Adds `tx` to the pool. A full pool becomes a block on the tip, which is
    /// pushed; the pool is emptied either way, and the accepted block is handed
    /// back for broadcast.
    pub fn queue(&mut self, tx: Transaction) -> (r: Result<Action, PrimitiveError>)
        requires
            old(self).wf(),
        ensures
            final(self).wf(),
            ({
                let s = old(self)@;
                let pool = s.queued.push(tx@);
                if pool.len() < TX_PER_BLOCK {
                    r matches Ok(Action::Nothing) && final(self)@ == LedgerView { queued: pool, ..s }
                } else {
                    let emptied = LedgerView { queued: Seq::empty(), ..s };
                    let b = BlockView {
                        desc: DescView { parent_hash: s.tip, nonce: 0 },
                        transactions: pool,
                    };
                    match push_outcome(emptied, b) {
                        Ok(s2) => {
                            &&& r matches Ok(Action::BroadcastBlock(blk)) && blk@ == b
                            &&& final(self)@ == s2
                        },
                        Err(e) => r matches Err(e2) && e2 == e && final(self)@ == emptied,
                    }
                }
            }),
    {
        let ghost s = self@;
        self.queued_tx.push(tx);
        assert(self@.queued =~= s.queued.push(tx@));
        if self.queued_tx.len() >= TX_PER_BLOCK {
            let mut pool: Vec<Transaction> = Vec::new();
            core::mem::swap(&mut pool, &mut self.queued_tx);
            assert(self@.queued =~= Seq::<TransactionView>::empty());
            let new_block = Block::new(pool, self.current_hash());
            assert(new_block@.transactions =~= s.queued.push(tx@));
            let desc = new_block.desc;
            return match self.push(new_block) {
                Ok(body) => Ok(Action::BroadcastBlock(Block::from_part(body, desc))),
                Err(e) => Err(e),
            };
        }
        Ok(Action::Nothing)
    }
}

/// Commits every transaction of `txs` under its digest, keeping a
/// transaction already committed under that digest.
fn commit_all(m: &mut DigestMap<Transaction>, txs: &Vec<Transaction>)
    ensures
        final(m)@ == commit(old(m)@, txs@.map_values(|t: Transaction| t@), txs@.len() as int),
{
    let ghost v = txs@.map_values(|t: Transaction| t@);
    let ghost start = m@;
    let mut k: usize = 0;
    while k < txs.len()
        invariant
            k <= txs@.len(),
            v == txs@.map_values(|t: Transaction| t@),
            start == old(m)@,
            m@ == commit(start, v, k as int),
        decreases txs@.len() - k,
    {
        let tx = &txs[k];
        assert(v[k as int] == tx@);
        let d = tx.hash();
        if m.get(&d).is_none() {
            m.insert(d, tx.clone());
        }
        k = k + 1;
    }
}

/// What the ledger asks of the network layer after a call.
pub enum Action {
    /// Nothing to send.
    Nothing,
    /// A block was accepted and should be sent to the peers.
    BroadcastBlock(Block),
}

} // verus!
