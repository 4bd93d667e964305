use pow_chain::transaction::Transaction;
use pow_chain::wallet::Wallet;
use sha2::{Digest, Sha256};

const SECRET: &str = "9d61b19deffd5a60ba844af492ec2cc44449c5697b326919703bac031cae7f60";

fn rfc_wallet() -> Wallet {
    Wallet::from_secret_key(&hex::decode(SECRET).unwrap()).unwrap()
}

fn tx(sender: &str, receiver: &str, amount: u64, timestamp: i64) -> Transaction {
    Transaction {
        sender: sender.to_string(),
        receiver: receiver.to_string(),
        amount,
        timestamp,
        signature: Vec::new(),
    }
}

#[test]
fn sign_data_joins_fields_with_colons() {
    assert_eq!(tx("alice", "bob", 5, -7).sign_data(), b"alice:bob:5:-7".to_vec());
    assert_eq!(
        tx("a", "b", u64::MAX, 1_700_000_000).sign_data(),
        b"a:b:18446744073709551615:1700000000".to_vec()
    );
    assert_eq!(tx("", "", 0, 0).sign_data(), b"::0:0".to_vec());
}

#[test]
fn sign_data_uses_utf8_bytes() {
    assert_eq!(tx("矿工", "b", 1, 2).sign_data(), "矿工:b:1:2".as_bytes().to_vec());
}

#[test]
fn new_and_coinbase_fill_fields() {
    let t = Transaction::new("alice".to_string(), "bob".to_string(), 12);
    assert_eq!(t.sender, "alice");
    assert_eq!(t.receiver, "bob");
    assert_eq!(t.amount, 12);
    assert!(t.signature.is_empty());
    let c = Transaction::coinbase("bob".to_string(), 50);
    assert_eq!(c.sender, "COINBASE");
    assert_eq!(c.receiver, "bob");
    assert_eq!(c.amount, 50);
    assert!(c.signature.is_empty());
}

#[test]
fn coinbase_always_verifies() {
    assert!(Transaction::coinbase("anyone".to_string(), 50).verify());
    assert!(tx("COINBASE", "x", 0, 0).verify());
}

#[test]
fn id_is_sha256_of_signed_bytes_and_signature() {
    let t = tx("COINBASE", "bob", 50, 0);
    assert_eq!(t.id(), "17cd352d19d36b324f8ef77050a9db081dac294a947e919f92d00a91fc86cf73");
    let mut signed = tx("alice", "bob", 3, 9);
    signed.signature = vec![1, 2, 3];
    let mut hasher = Sha256::new();
    hasher.update(b"alice:bob:3:9");
    hasher.update([1u8, 2, 3]);
    assert_eq!(signed.id(), hex::encode(hasher.finalize()));
}

#[test]
fn signed_transaction_verifies() {
    let wallet = rfc_wallet();
    let mut t = Transaction::new(wallet.address(), "bob".to_string(), 10);
    t.sign(&wallet);
    assert_eq!(t.signature.len(), 64);
    assert_eq!(t.signature, wallet.sign(&t.sign_data()));
    assert!(t.verify());
}

#[test]
fn upper_case_sender_address_also_verifies() {
    let wallet = rfc_wallet();
    let mut t = tx(&wallet.address().to_uppercase(), "bob", 10, 5);
    t.sign(&wallet);
    assert!(t.verify());
}

#[test]
fn tampered_transaction_fails() {
    let wallet = rfc_wallet();
    let mut t = tx(&wallet.address(), "bob", 10, 5);
    t.sign(&wallet);
    let mut more = tx(&wallet.address(), "bob", 11, 5);
    more.signature = t.signature.clone();
    assert!(!more.verify());
    let mut other_receiver = tx(&wallet.address(), "eve", 10, 5);
    other_receiver.signature = t.signature.clone();
    assert!(!other_receiver.verify());
}

#[test]
fn unsigned_or_badly_addressed_transactions_fail() {
    let wallet = rfc_wallet();
    assert!(!tx(&wallet.address(), "bob", 1, 1).verify());
    let mut not_hex = tx("alice", "bob", 1, 1);
    not_hex.sign(&wallet);
    assert!(!not_hex.verify());
    let mut odd = tx("abc", "bob", 1, 1);
    odd.sign(&wallet);
    assert!(!odd.verify());
}

#[test]
fn signature_by_another_wallet_fails() {
    let owner = rfc_wallet();
    let thief = Wallet::generate();
    let mut t = tx(&owner.address(), "thief", 10, 5);
    t.sign(&thief);
    assert!(!t.verify());
}

#[test]
fn clone_keeps_every_field() {
    let mut t = tx("a", "b", 4, 8);
    t.signature = vec![9, 9];
    let c = t.clone();
    assert_eq!(c.sender, "a");
    assert_eq!(c.receiver, "b");
    assert_eq!(c.amount, 4);
    assert_eq!(c.timestamp, 8);
    assert_eq!(c.signature, vec![9, 9]);
}

#[test]
fn new_at_and_coinbase_at_keep_the_time() {
    let t = Transaction::new_at("a".to_string(), "b".to_string(), 3, -9);
    assert_eq!(t.timestamp, -9);
    assert_eq!(t.sign_data(), b"a:b:3:-9".to_vec());
    let c = Transaction::coinbase_at("bob".to_string(), 50, 0);
    assert_eq!(c.timestamp, 0);
    assert_eq!(c.id(), "17cd352d19d36b324f8ef77050a9db081dac294a947e919f92d00a91fc86cf73");
}

#[test]
fn different_fields_sign_different_bytes() {
    let base = tx("alice", "bob", 5, 7);
    assert_ne!(base.sign_data(), tx("alice", "bob", 5, -7).sign_data());
    assert_ne!(base.sign_data(), tx("alice", "bob", 50, 7).sign_data());
    assert_ne!(base.sign_data(), tx("alic", "ebob", 5, 7).sign_data());
    assert_ne!(base.sign_data(), tx("alice", "bo", 5, 7).sign_data());
    // With a ':' in a name the fields can run into each other.
    assert_eq!(tx("a:b", "c", 1, 2).sign_data(), tx("a", "b:c", 1, 2).sign_data());
}
