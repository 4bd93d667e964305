use pow_chain::block::Block;
use pow_chain::transaction::Transaction;
use sha2::{Digest, Sha256};

fn tx(sender: &str, receiver: &str, amount: u64, timestamp: i64) -> Transaction {
    Transaction {
        sender: sender.to_string(),
        receiver: receiver.to_string(),
        amount,
        timestamp,
        signature: Vec::new(),
    }
}

fn expected_hash(
    index: u64,
    timestamp: i64,
    txs: &[Transaction],
    miner: &str,
    previous_hash: &str,
    nonce: u64,
    difficulty: usize,
) -> String {
    let mut tx_hasher = Sha256::new();
    for t in txs {
        tx_hasher.update(t.id().as_bytes());
    }
    let tx_hash = hex::encode(tx_hasher.finalize());
    let input = format!(
        "{}{}{}{}{}{}{}",
        index, timestamp, tx_hash, miner, previous_hash, nonce, difficulty
    );
    hex::encode(Sha256::digest(input.as_bytes()))
}

#[test]
fn mined_block_hash_follows_the_formula() {
    let b = Block::mined_at(
        3,
        1_700_000_000,
        vec![tx("COINBASE", "m", 50, 1)],
        "m".to_string(),
        "prev".to_string(),
        2,
    )
    .unwrap();
    assert_eq!(b.index, 3);
    assert_eq!(b.timestamp, 1_700_000_000);
    assert_eq!(b.miner, "m");
    assert_eq!(b.previous_hash, "prev");
    assert_eq!(b.difficulty, 2);
    assert!(b.hash.starts_with("00"));
    assert_eq!(
        b.hash,
        expected_hash(3, 1_700_000_000, &b.transactions, "m", "prev", b.nonce, 2)
    );
    assert_eq!(b.hash, b.calculate_hash());
}

#[test]
fn mined_block_uses_the_least_nonce() {
    let txs = vec![tx("COINBASE", "m", 50, 1)];
    let b = Block::mined_at(1, -5, txs.clone(), "m".to_string(), "p".to_string(), 2).unwrap();
    for n in 0..b.nonce {
        assert!(!expected_hash(1, -5, &txs, "m", "p", n, 2).starts_with("00"));
    }
}

#[test]
fn difficulty_zero_takes_nonce_zero() {
    let b = Block::mined_at(0, 0, Vec::new(), "GENESIS".to_string(), "0".to_string(), 0).unwrap();
    assert_eq!(b.nonce, 0);
    assert_eq!(b.hash, expected_hash(0, 0, &[], "GENESIS", "0", 0, 0));
}

#[test]
fn empty_block_hash_of_known_input() {
    // The digest of no transaction ids is SHA-256 of nothing.
    let mut b = Block {
        index: 0,
        timestamp: 0,
        transactions: Vec::new(),
        miner: "GENESIS".to_string(),
        previous_hash: "0".to_string(),
        hash: String::new(),
        nonce: 0,
        difficulty: 2,
    };
    let input = "00e3b0c44298fc1c149afbf4c8996fb92427ae41e4649b934ca495991b7852b855GENESIS002";
    assert_eq!(b.calculate_hash(), hex::encode(Sha256::digest(input.as_bytes())));
    assert!(b.mine());
    assert!(b.hash.starts_with("00"));
}

#[test]
fn new_block_is_mined_with_given_fields() {
    let b = Block::new(7, Vec::new(), "x".to_string(), "y".to_string(), 1).unwrap();
    assert_eq!(b.index, 7);
    assert_eq!(b.miner, "x");
    assert_eq!(b.previous_hash, "y");
    assert!(b.hash.starts_with('0'));
    assert_eq!(b.hash, b.calculate_hash());
}

fn linked_pair() -> (Block, Block) {
    let first = Block::mined_at(0, 10, Vec::new(), "GENESIS".to_string(), "0".to_string(), 2).unwrap();
    let second = Block::mined_at(
        1,
        20,
        vec![tx("COINBASE", "m", 50, 20)],
        "m".to_string(),
        first.hash.clone(),
        2,
    )
    .unwrap();
    (first, second)
}

#[test]
fn mined_successor_is_valid() {
    let (first, second) = linked_pair();
    assert!(second.is_valid(&first));
}

#[test]
fn wrong_index_or_link_is_invalid() {
    let (first, second) = linked_pair();
    assert!(!first.is_valid(&first));
    let mut relinked = second.clone();
    relinked.previous_hash = "0".to_string();
    assert!(!relinked.is_valid(&first));
}

#[test]
fn tampered_block_is_invalid() {
    let (first, second) = linked_pair();
    let mut changed = second.clone();
    changed.transactions[0].amount = 5000;
    assert!(!changed.is_valid(&first));
    let mut renonced = second.clone();
    renonced.nonce += 1;
    assert!(!renonced.is_valid(&first));
}

#[test]
fn hash_without_enough_zeros_is_invalid() {
    let first = Block::mined_at(0, 10, Vec::new(), "GENESIS".to_string(), "0".to_string(), 2).unwrap();
    let mut b = Block::mined_at(1, 11, Vec::new(), "m".to_string(), first.hash.clone(), 0).unwrap();
    assert!(b.is_valid(&first));
    // A hash of 64 digits never begins with 65 zeros.
    b.difficulty = 65;
    b.hash = b.calculate_hash();
    assert!(!b.is_valid(&first));
}

#[test]
fn unsigned_transfer_makes_block_invalid() {
    let first = Block::mined_at(0, 10, Vec::new(), "GENESIS".to_string(), "0".to_string(), 1).unwrap();
    let b = Block::mined_at(
        1,
        11,
        vec![tx("ab", "c", 1, 0)],
        "m".to_string(),
        first.hash.clone(),
        1,
    )
    .unwrap();
    assert!(!b.is_valid(&first));
}

#[test]
fn clone_keeps_the_block() {
    let (_, second) = linked_pair();
    let c = second.clone();
    assert_eq!(c.hash, second.hash);
    assert_eq!(c.nonce, second.nonce);
    assert_eq!(c.transactions.len(), 1);
    assert_eq!(c.transactions[0].receiver, "m");
}

#[test]
fn calculated_hash_has_64_hex_digits() {
    let (first, second) = linked_pair();
    for b in [&first, &second] {
        let h = b.calculate_hash();
        assert_eq!(h.len(), 64);
        assert!(h.chars().all(|c| c.is_ascii_hexdigit() && !c.is_ascii_uppercase()));
    }
}
