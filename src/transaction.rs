use vstd::prelude::*;

use crate::crypto::{key_hash, Address, PublicKey};
use crate::hash::{le_bytes, le_encode, push_all, sha256, sha256_of, Digest};

verus! {

/// Output of a transaction: an amount sent to an address.
#[derive(Clone, Copy, Debug)]
pub struct TxOut {
    /// Address of the receiver's account.
    pub rx_addr: Address,
    /// Value transferred.
    pub amount: u64,
}

/// Reference from a transaction input to an earlier output.
#[derive(Clone, Copy, Debug)]
pub struct TxOutPtr {
    /// Digest of the transaction holding the output.
    pub tx_hash: Digest,
    /// Index of the output among that transaction's outputs.
    pub output_idx: usize,
}

/// Input of a transaction: spends one earlier output.
#[derive(Debug)]
pub struct TxIn {
    /// Signature over `signed_digest`, proving ownership of `src_output`.
    pub signature: Vec<u8>,
    /// Key that verifies `signature`.
    pub public_key: PublicKey,
    /// Output that this input spends.
    pub src_output: TxOutPtr,
}

/// A transfer of value.
#[derive(Debug)]
pub struct Transaction {
    /// Values consumed.
    pub inputs: Vec<TxIn>,
    /// Values produced.
    pub outputs: Vec<TxOut>,
}

/// What an input is, as the ledger's rules read it.
pub struct TxInView {
    pub signature: Seq<u8>,
    pub public_key: Seq<u8>,
    pub src_output: TxOutPtr,
}

/// What a transaction is, as the ledger's rules read it.
pub struct TransactionView {
    pub inputs: Seq<TxInView>,
    pub outputs: Seq<TxOut>,
}

impl View for TxIn {
    type V = TxInView;

    open spec fn view(&self) -> TxInView {
        TxInView { signature: self.signature@, public_key: self.public_key@, src_output: self.src_output }
    }
}

impl View for Transaction {
    type V = TransactionView;

    open spec fn view(&self) -> TransactionView {
        TransactionView { inputs: self.inputs@.map_values(|i: TxIn| i@), outputs: self.outputs@ }
    }
}

/// Digest of an output: address, then amount as 8 little-endian bytes.
pub open spec fn out_digest(o: TxOut) -> Seq<u8> {
    sha256_of(o.rx_addr@ + le_bytes(o.amount as nat, 8))
}

/// The bytes that fix which output an input spends and with which key.
pub open spec fn pointer_bytes(i: TxInView) -> Seq<u8> {
    key_hash(i.public_key) + i.src_output.tx_hash@ + le_bytes(i.src_output.output_idx as nat, 8)
}

/// Digest of an input: its signature followed by `pointer_bytes`.
pub open spec fn in_digest(i: TxInView) -> Seq<u8> {
    sha256_of(i.signature + pointer_bytes(i))
}

/// The digest that an input's signature must cover: its key and the output
/// it spends, without the signature itself.
pub open spec fn signed_digest_of(i: TxInView) -> Seq<u8> {
    sha256_of(pointer_bytes(i))
}

/// Digests of the first `k` inputs, concatenated.
pub open spec fn in_digests(ins: Seq<TxInView>, k: int) -> Seq<u8>
    decreases k,
{
    if k <= 0 {
        Seq::empty()
    } else {
        in_digests(ins, k - 1) + in_digest(ins[k - 1])
    }
}

/// Digests of the first `k` outputs, concatenated.
pub open spec fn out_digests(outs: Seq<TxOut>, k: int) -> Seq<u8>
    decreases k,
{
    if k <= 0 {
        Seq::empty()
    } else {
        out_digests(outs, k - 1) + out_digest(outs[k - 1])
    }
}

/// Digest of a transaction: all input digests, then all output digests.
pub open spec fn tx_digest(t: TransactionView) -> Seq<u8> {
    sha256_of(in_digests(t.inputs, t.inputs.len() as int) + out_digests(t.outputs, t.outputs.len() as int))
}

impl Clone for TxIn {
    fn clone(&self) -> (r: Self)
        ensures
            r@ == self@,
    {
        let signature = self.signature.clone();
        assert(signature@ =~= self.signature@);
        TxIn { signature, public_key: self.public_key.clone(), src_output: self.src_output }
    }
}

impl Clone for Transaction {
    fn clone(&self) -> (r: Self)
        ensures
            r@ == self@,
    {
        let mut inputs: Vec<TxIn> = Vec::new();
        let mut k: usize = 0;
        while k < self.inputs.len()
            invariant
                k <= self.inputs@.len(),
                inputs@.len() == k,
                forall|j: int| 0 <= j < k ==> #[trigger] inputs@[j]@ == self.inputs@[j]@,
            decreases self.inputs@.len() - k,
        {
            inputs.push(self.inputs[k].clone());
            k = k + 1;
        }
        let outputs = self.outputs.clone();
        assert(outputs@ =~= self.outputs@);
        let r = Transaction { inputs, outputs };
        assert(r@.inputs =~= self@.inputs);
        r
    }
}

impl TxOut {
    pub fn hash(&self) -> (r: Digest)
        ensures
            r@ == out_digest(*self),
    {
        let mut buf: Vec<u8> = Vec::new();
        push_all(&mut buf, self.rx_addr.as_hash().bytes.as_slice());
        let amount = le_encode(self.amount as u128, 8);
        push_all(&mut buf, amount.as_slice());
        sha256(&buf)
    }
}

impl TxIn {
    fn pointer_bytes(&self) -> (r: Vec<u8>)
        ensures
            r@ == pointer_bytes(self@),
    {
        let mut buf: Vec<u8> = Vec::new();
        let key = self.public_key.hash();
        push_all(&mut buf, key.bytes.as_slice());
        push_all(&mut buf, self.src_output.tx_hash.bytes.as_slice());
        let idx = le_encode(self.src_output.output_idx as u128, 8);
        push_all(&mut buf, idx.as_slice());
        buf
    }

    /// The digest that this input's signature covers.
    pub fn signed_digest(&self) -> (r: Digest)
        ensures
            r@ == signed_digest_of(self@),
    {
        sha256(&self.pointer_bytes())
    }

    pub fn hash(&self) -> (r: Digest)
        ensures
            r@ == in_digest(self@),
    {
        let mut buf: Vec<u8> = Vec::new();
        push_all(&mut buf, self.signature.as_slice());
        let rest = self.pointer_bytes();
        push_all(&mut buf, rest.as_slice());
        sha256(&buf)
    }
}

impl Transaction {
    pub fn hash(&self) -> (r: Digest)
        ensures
            r@ == tx_digest(self@),
    {
        let mut buf: Vec<u8> = Vec::new();
        let mut k: usize = 0;
        while k < self.inputs.len()
            invariant
                k <= self.inputs@.len(),
                buf@ == in_digests(self@.inputs, k as int),
            decreases self.inputs@.len() - k,
        {
            let d = self.inputs[k].hash();
            push_all(&mut buf, d.bytes.as_slice());
            k = k + 1;
        }
        let ghost ins = buf@;
        let mut k: usize = 0;
        while k < self.outputs.len()
            invariant
                k <= self.outputs@.len(),
                self@.inputs.len() == self.inputs@.len(),
                ins == in_digests(self@.inputs, self@.inputs.len() as int),
                buf@ == ins + out_digests(self@.outputs, k as int),
            decreases self.outputs@.len() - k,
        {
            let d = self.outputs[k].hash();
            push_all(&mut buf, d.bytes.as_slice());
            assert(buf@ =~= ins + out_digests(self@.outputs, k + 1));
            k = k + 1;
        }
        sha256(&buf)
    }
}

} // verus!
