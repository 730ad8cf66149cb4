use vstd::prelude::*;

verus! {

/// Why an operation of the ledger or of its key material was refused.
#[derive(Clone, Copy, Debug, PartialEq, Eq, Structural)]
pub enum PrimitiveError {
    /// The block digest does not meet the proof-of-work difficulty.
    InsufficientWork,
    /// An input points at a transaction or an output index that does not exist.
    DanglingReference,
    /// An input's public key does not hash to the address of the output it spends.
    OwnershipMismatch,
    /// An input's signature does not verify under its public key.
    InvalidSignature,
    /// An ordinary transaction pays out more than its inputs bring in.
    UnbalancedTransaction,
    /// A block's inputs and outputs do not add up to the same amount.
    UnbalancedBlock,
    /// The first transaction of a block is not a base transaction
    /// (no inputs, exactly one output).
    MalformedBaseTransaction,
    /// The block's parent has never been accepted.
    UnknownParent,
    /// The block height would not fit the height counter.
    HeightOverflow,
    /// A public key could not be put in its canonical encoding.
    Encoding,
    /// The signing backend failed.
    Signing,
    /// An input spends an output that is already spent.
    DoubleSpend,
    /// A signature did not verify.
    Verification,
}

/// Outcome of a ledger or key operation.
pub type Result<T> = core::result::Result<T, PrimitiveError>;

} // verus!
