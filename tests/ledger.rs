use rsa::RsaPrivateKey;
use tipchune::{
    Action, Address, Block, Blockchain, Digest, PrimitiveError, PrivateKey, PublicKey,
    Transaction, TxIn, TxOut, TxOutPtr, TX_PER_BLOCK,
};

fn new_key() -> (PrivateKey, PublicKey) {
    let mut rng = rand::thread_rng();
    let private_key = PrivateKey::new(RsaPrivateKey::new(&mut rng, 512).expect("key generation"))
        .expect("valid key");
    let public_key = private_key.to_public_key().expect("key encoding");
    (private_key, public_key)
}

fn base(to: Address, amount: u64) -> Transaction {
    Transaction { inputs: vec![], outputs: vec![TxOut { rx_addr: to, amount }] }
}

fn signed_input(signer: &PrivateKey, key: &PublicKey, src: Digest, idx: usize) -> TxIn {
    let mut input = TxIn {
        signature: vec![],
        public_key: key.clone(),
        src_output: TxOutPtr { tx_hash: src, output_idx: idx },
    };
    input.signature = signer.sign(&input.signed_digest()).expect("signing");
    input
}

fn spend(signer: &PrivateKey, key: &PublicKey, src: Digest, idx: usize, to: Address, amount: u64) -> Transaction {
    Transaction {
        inputs: vec![signed_input(signer, key, src, idx)],
        outputs: vec![TxOut { rx_addr: to, amount }],
    }
}

/// A ledger whose genesis block seeds `n` outputs of `amount` to `owner`;
/// returns it with the genesis digest and the seeding transaction's digest.
fn seeded(owner: &PublicKey, n: usize, amount: u64, difficulty: usize) -> (Blockchain, Digest, Digest) {
    let seed = Transaction {
        inputs: vec![],
        outputs: (0..n).map(|_| TxOut { rx_addr: owner.address(), amount }).collect(),
    };
    let seed_digest = seed.hash();
    let genesis = Block::new(vec![seed], Digest::from_slice(&[0; 32]));
    let genesis_digest = genesis.hash();
    (Blockchain::new(difficulty, genesis), genesis_digest, seed_digest)
}

fn nobody() -> Address {
    Address(Digest::from_slice(&[7; 32]))
}

#[test]
fn genesis_is_the_tip_at_height_zero() {
    let (_, owner) = new_key();
    let (chain, g, _) = seeded(&owner, 1, 100, 0);
    assert_eq!(chain.current_hash().bytes, g.bytes);
    assert_eq!(chain.height(&g), Some(0));
}

#[test]
fn queue_assembles_block_on_tip() {
    let (owner_priv, owner) = new_key();
    let (mut chain, g, seed) = seeded(&owner, TX_PER_BLOCK - 1, 100, 0);
    let (_, receiver) = new_key();
    assert!(matches!(chain.queue(base(nobody(), 0)), Ok(Action::Nothing)));
    for i in 0..TX_PER_BLOCK - 2 {
        let tx = spend(&owner_priv, &owner, seed, i, receiver.address(), 100);
        assert!(matches!(chain.queue(tx), Ok(Action::Nothing)));
    }
    let last = spend(&owner_priv, &owner, seed, TX_PER_BLOCK - 2, receiver.address(), 100);
    let block = match chain.queue(last) {
        Ok(Action::BroadcastBlock(block)) => block,
        _ => panic!("the sixteenth transaction should make a block"),
    };
    assert_eq!(block.desc.parent_hash.bytes, g.bytes);
    assert_eq!(block.body.transactions.len(), TX_PER_BLOCK);
    let digest = block.hash();
    assert_eq!(chain.height(&digest), Some(1));
    assert_eq!(chain.current_hash().bytes, digest.bytes);
}

#[test]
fn sixteen_spends_without_base_are_rejected() {
    let (owner_priv, owner) = new_key();
    let (mut chain, g, seed) = seeded(&owner, TX_PER_BLOCK, 100, 0);
    for i in 0..TX_PER_BLOCK - 1 {
        let tx = spend(&owner_priv, &owner, seed, i, nobody(), 100);
        assert!(matches!(chain.queue(tx), Ok(Action::Nothing)));
    }
    let last = spend(&owner_priv, &owner, seed, TX_PER_BLOCK - 1, nobody(), 100);
    assert!(matches!(chain.queue(last), Err(PrimitiveError::MalformedBaseTransaction)));
    assert_eq!(chain.current_hash().bytes, g.bytes);
    // the pool was emptied: a base transaction alone does not make a block
    assert!(matches!(chain.queue(base(nobody(), 0)), Ok(Action::Nothing)));
}

#[test]
fn push_accepts_balanced_block() {
    let (owner_priv, owner) = new_key();
    let (mut chain, g, seed) = seeded(&owner, 2, 100, 0);
    let txs = vec![
        base(nobody(), 30),
        spend(&owner_priv, &owner, seed, 0, nobody(), 70),
    ];
    let block = Block::new(txs, g);
    let digest = block.hash();
    let body = chain.push(block).expect("balanced block");
    assert_eq!(body.transactions.len(), 2);
    assert_eq!(chain.current_hash().bytes, digest.bytes);
    assert_eq!(chain.height(&digest), Some(1));
}

#[test]
fn spend_of_output_in_same_block() {
    let (owner_priv, owner) = new_key();
    let (mut chain, g, seed) = seeded(&owner, 1, 100, 0);
    let first = spend(&owner_priv, &owner, seed, 0, owner.address(), 100);
    let second = spend(&owner_priv, &owner, first.hash(), 0, nobody(), 100);
    let block = Block::new(vec![base(nobody(), 0), first, second], g);
    assert!(chain.push(block).is_ok());
}

#[test]
fn insufficient_work_is_rejected() {
    let (_, owner) = new_key();
    let (mut chain, g, _) = seeded(&owner, 1, 100, 8);
    let mut block = Block::new(vec![base(nobody(), 0)], g);
    while block.hash().bytes[0] == 0 {
        block.desc.nonce += 1;
    }
    assert!(matches!(chain.push(block), Err(PrimitiveError::InsufficientWork)));
    assert_eq!(chain.current_hash().bytes, g.bytes);
}

#[test]
fn dangling_reference_is_rejected() {
    let (owner_priv, owner) = new_key();
    let (mut chain, g, seed) = seeded(&owner, 1, 100, 0);
    let unknown = spend(&owner_priv, &owner, Digest::from_slice(&[5; 32]), 0, nobody(), 100);
    let block = Block::new(vec![base(nobody(), 0), unknown], g);
    assert!(matches!(chain.push(block), Err(PrimitiveError::DanglingReference)));
    let out_of_range = spend(&owner_priv, &owner, seed, 1, nobody(), 100);
    let block = Block::new(vec![base(nobody(), 0), out_of_range], g);
    assert!(matches!(chain.push(block), Err(PrimitiveError::DanglingReference)));
}

#[test]
fn ownership_mismatch_is_rejected_even_with_valid_signature() {
    let (_, owner) = new_key();
    let (thief_priv, thief) = new_key();
    let (mut chain, g, seed) = seeded(&owner, 1, 100, 0);
    // the thief signs correctly with its own key, but that key does not own the output
    let theft = spend(&thief_priv, &thief, seed, 0, thief.address(), 100);
    let block = Block::new(vec![base(nobody(), 0), theft], g);
    assert!(matches!(chain.push(block), Err(PrimitiveError::OwnershipMismatch)));
}

#[test]
fn invalid_signature_is_rejected() {
    let (_, owner) = new_key();
    let (thief_priv, _) = new_key();
    let (mut chain, g, seed) = seeded(&owner, 1, 100, 0);
    let forged = spend(&thief_priv, &owner, seed, 0, nobody(), 100);
    let block = Block::new(vec![base(nobody(), 0), forged], g);
    assert!(matches!(chain.push(block), Err(PrimitiveError::InvalidSignature)));
}

#[test]
fn unbalanced_transaction_is_rejected() {
    let (owner_priv, owner) = new_key();
    let (mut chain, g, seed) = seeded(&owner, 1, 100, 0);
    let mint = spend(&owner_priv, &owner, seed, 0, nobody(), 150);
    let block = Block::new(vec![base(nobody(), 0), mint], g);
    assert!(matches!(chain.push(block), Err(PrimitiveError::UnbalancedTransaction)));
}

#[test]
fn unbalanced_block_is_rejected() {
    let (owner_priv, owner) = new_key();
    let (mut chain, g, seed) = seeded(&owner, 1, 100, 0);
    let fair = spend(&owner_priv, &owner, seed, 0, nobody(), 100);
    let block = Block::new(vec![base(nobody(), 5), fair], g);
    assert!(matches!(chain.push(block), Err(PrimitiveError::UnbalancedBlock)));
}

#[test]
fn malformed_base_is_rejected() {
    let (_, owner) = new_key();
    let (mut chain, g, _) = seeded(&owner, 1, 100, 0);
    let two_outputs = Transaction {
        inputs: vec![],
        outputs: vec![TxOut { rx_addr: nobody(), amount: 0 }, TxOut { rx_addr: nobody(), amount: 0 }],
    };
    let block = Block::new(vec![two_outputs], g);
    assert!(matches!(chain.push(block), Err(PrimitiveError::MalformedBaseTransaction)));
    let empty = Block::new(vec![], g);
    assert!(matches!(chain.push(empty), Err(PrimitiveError::MalformedBaseTransaction)));
}

#[test]
fn unknown_parent_is_rejected() {
    let (_, owner) = new_key();
    let (mut chain, g, _) = seeded(&owner, 1, 100, 0);
    let orphan = Block::new(vec![base(nobody(), 0)], Digest::from_slice(&[9; 32]));
    let digest = orphan.hash();
    assert!(matches!(chain.push(orphan), Err(PrimitiveError::UnknownParent)));
    assert_eq!(chain.current_hash().bytes, g.bytes);
    assert_eq!(chain.height(&digest), None);
}

#[test]
fn fork_choice_keeps_first_at_equal_height() {
    let (_, owner) = new_key();
    let (mut chain, g, _) = seeded(&owner, 1, 100, 0);
    let b1 = Block::new(vec![base(nobody(), 0)], g);
    let mut b2 = Block::new(vec![base(owner.address(), 0)], g);
    b2.desc.nonce = 1;
    let d1 = b1.hash();
    let d2 = b2.hash();
    assert_ne!(d1.bytes, d2.bytes);
    assert!(chain.push(b1).is_ok());
    assert!(chain.push(b2).is_ok());
    assert_eq!(chain.current_hash().bytes, d1.bytes);
    assert_eq!(chain.height(&d2), Some(1));
    let b3 = Block::new(vec![base(nobody(), 0)], d2);
    let d3 = b3.hash();
    assert!(chain.push(b3).is_ok());
    assert_eq!(chain.current_hash().bytes, d3.bytes);
    assert_eq!(chain.height(&d3), Some(2));
}

#[test]
fn ownership_mismatch_comes_before_signature() {
    let (_, owner) = new_key();
    let (_, thief) = new_key();
    let (mut chain, g, seed) = seeded(&owner, 1, 100, 0);
    let theft = Transaction {
        inputs: vec![TxIn {
            signature: vec![0; 64],
            public_key: thief.clone(),
            src_output: TxOutPtr { tx_hash: seed, output_idx: 0 },
        }],
        outputs: vec![TxOut { rx_addr: thief.address(), amount: 100 }],
    };
    let block = Block::new(vec![base(nobody(), 0), theft], g);
    assert!(matches!(chain.push(block), Err(PrimitiveError::OwnershipMismatch)));
}

#[test]
fn same_block_pushed_twice_keeps_height() {
    let (_, owner) = new_key();
    let (mut chain, g, _) = seeded(&owner, 1, 100, 0);
    let first = Block::new(vec![base(nobody(), 0)], g);
    let again = Block::new(vec![base(nobody(), 0)], g);
    let digest = first.hash();
    assert_eq!(digest.bytes, again.hash().bytes);
    assert!(chain.push(first).is_ok());
    assert!(chain.push(again).is_ok());
    assert_eq!(chain.height(&digest), Some(1));
    assert_eq!(chain.current_hash().bytes, digest.bytes);
}

#[test]
fn double_spend_within_block_is_rejected() {
    let (owner_priv, owner) = new_key();
    let (mut chain, g, seed) = seeded(&owner, 1, 100, 0);
    let first = spend(&owner_priv, &owner, seed, 0, nobody(), 100);
    let second = spend(&owner_priv, &owner, seed, 0, owner.address(), 100);
    let block = Block::new(vec![base(nobody(), 100), first, second], g);
    assert!(matches!(chain.push(block), Err(PrimitiveError::DoubleSpend)));
    assert_eq!(chain.current_hash().bytes, g.bytes);
}

#[test]
fn double_spend_of_history_is_rejected() {
    let (owner_priv, owner) = new_key();
    let (mut chain, g, seed) = seeded(&owner, 1, 100, 0);
    let first = spend(&owner_priv, &owner, seed, 0, nobody(), 100);
    let block = Block::new(vec![base(nobody(), 0), first], g);
    let d1 = block.hash();
    assert!(chain.push(block).is_ok());
    let again = spend(&owner_priv, &owner, seed, 0, owner.address(), 100);
    let block = Block::new(vec![base(owner.address(), 0), again], d1);
    assert!(matches!(chain.push(block), Err(PrimitiveError::DoubleSpend)));
    assert_eq!(chain.current_hash().bytes, d1.bytes);
}

#[test]
fn ownership_mismatch_comes_before_double_spend() {
    let (owner_priv, owner) = new_key();
    let (thief_priv, thief) = new_key();
    let (mut chain, g, seed) = seeded(&owner, 1, 100, 0);
    let first = spend(&owner_priv, &owner, seed, 0, nobody(), 100);
    let theft = spend(&thief_priv, &thief, seed, 0, thief.address(), 100);
    let block = Block::new(vec![base(nobody(), 100), first, theft], g);
    assert!(matches!(chain.push(block), Err(PrimitiveError::OwnershipMismatch)));
}
