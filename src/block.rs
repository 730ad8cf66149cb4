use vstd::prelude::*;

use crate::hash::{le_bytes, le_encode, push_all, sha256, sha256_of, Digest};
use crate::transaction::{tx_digest, Transaction, TransactionView};

verus! {

/// Header data of a block.
#[derive(Clone, Copy, Debug)]
pub struct BlockDesc {
    /// Digest of the block that this one extends.
    pub parent_hash: Digest,
    /// Number varied by miners to meet the proof-of-work difficulty.
    pub nonce: u128,
}

/// Transactions of a block; the first one is its base transaction.
#[derive(Debug)]
pub struct BlockBody {
    pub transactions: Vec<Transaction>,
}

/// A block: header and transactions.
#[derive(Debug)]
pub struct Block {
    pub desc: BlockDesc,
    pub body: BlockBody,
}

/// A block header, as the ledger's rules read it.
pub struct DescView {
    pub parent_hash: Seq<u8>,
    pub nonce: u128,
}

impl View for BlockDesc {
    type V = DescView;

    open spec fn view(&self) -> DescView {
        DescView { parent_hash: self.parent_hash@, nonce: self.nonce }
    }
}

/// A block, as the ledger's rules read it.
pub struct BlockView {
    pub desc: DescView,
    pub transactions: Seq<TransactionView>,
}

impl View for BlockBody {
    type V = Seq<TransactionView>;

    open spec fn view(&self) -> Seq<TransactionView> {
        self.transactions@.map_values(|t: Transaction| t@)
    }
}

impl View for Block {
    type V = BlockView;

    open spec fn view(&self) -> BlockView {
        BlockView { desc: self.desc@, transactions: self.body@ }
    }
}

/// Digests of the first `k` transactions, concatenated.
pub open spec fn tx_digests(txs: Seq<TransactionView>, k: int) -> Seq<u8>
    decreases k,
{
    if k <= 0 {
        Seq::empty()
    } else {
        tx_digests(txs, k - 1) + tx_digest(txs[k - 1])
    }
}

/// Digest of a block: parent digest, every transaction digest in order, then
/// the nonce as 16 little-endian bytes.
pub open spec fn block_digest(b: BlockView) -> Seq<u8> {
    sha256_of(
        b.desc.parent_hash + tx_digests(b.transactions, b.transactions.len() as int) + le_bytes(
            b.desc.nonce as nat,
            16,
        ),
    )
}

impl Block {
    /// A block of `tx` on top of `parent_hash`, with nonce zero.
    pub fn new(tx: Vec<Transaction>, parent_hash: Digest) -> (r: Block)
        ensures
            r.desc.parent_hash == parent_hash,
            r.desc.nonce == 0,
            r.body.transactions@ == tx@,
    {
        Block { body: BlockBody { transactions: tx }, desc: BlockDesc { parent_hash, nonce: 0 } }
    }

    pub fn from_part(body: BlockBody, desc: BlockDesc) -> (r: Block)
        ensures
            r.desc == desc,
            r.body.transactions@ == body.transactions@,
    {
        Block { body, desc }
    }

    pub fn hash(&self) -> (r: Digest)
        ensures
            r@ == block_digest(self@),
    {
        let mut buf: Vec<u8> = Vec::new();
        push_all(&mut buf, self.desc.parent_hash.bytes.as_slice());
        let ghost start = buf@;
        let txs = &self.body.transactions;
        let mut k: usize = 0;
        while k < txs.len()
            invariant
                k <= txs@.len(),
                txs == &self.body.transactions,
                start == self.desc.parent_hash@,
                buf@ == start + tx_digests(self.body@, k as int),
            decreases txs@.len() - k,
        {
            let d = txs[k].hash();
            push_all(&mut buf, d.bytes.as_slice());
            assert(buf@ =~= start + tx_digests(self.body@, k + 1));
            k = k + 1;
        }
        let nonce = le_encode(self.desc.nonce, 16);
        push_all(&mut buf, nonce.as_slice());
        sha256(&buf)
    }
}

} // verus!
