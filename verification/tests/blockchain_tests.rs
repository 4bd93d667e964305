use pow_chain::balances::Balances;
use pow_chain::block::Block;
use pow_chain::blockchain::Blockchain;
use pow_chain::transaction::Transaction;
use pow_chain::wallet::Wallet;

const SECRET: &str = "9d61b19deffd5a60ba844af492ec2cc44449c5697b326919703bac031cae7f60";

fn rfc_wallet() -> Wallet {
    Wallet::from_secret_key(&hex::decode(SECRET).unwrap()).unwrap()
}

fn balance(chain: &Blockchain, address: &str) -> Option<i64> {
    chain.balances.get(&address.to_string())
}

fn dummy_block(index: u64, timestamp: i64) -> Block {
    Block {
        index,
        timestamp,
        transactions: Vec::new(),
        miner: "m".to_string(),
        previous_hash: "p".to_string(),
        hash: "h".to_string(),
        nonce: 0,
        difficulty: 2,
    }
}

#[test]
fn new_chain_has_a_mined_genesis_block() {
    let chain = Blockchain::new("chain.json").unwrap();
    assert_eq!(chain.chain.len(), 1);
    let genesis = &chain.chain[0];
    assert_eq!(genesis.index, 0);
    assert_eq!(genesis.miner, "GENESIS");
    assert_eq!(genesis.previous_hash, "0");
    assert_eq!(genesis.difficulty, 2);
    assert!(genesis.transactions.is_empty());
    assert!(genesis.hash.starts_with("00"));
    assert_eq!(genesis.hash, genesis.calculate_hash());
    assert_eq!(chain.difficulty, 2);
    assert_eq!(chain.mining_reward, 50);
    assert!(chain.pending_transactions.is_empty());
    assert_eq!(chain.balances.len(), 0);
    assert_eq!(chain.save_path, "chain.json");
    assert!(chain.is_valid());
    assert_eq!(chain.current_reward(), 50);
}

#[test]
fn mining_pays_the_miner_and_keeps_the_chain_valid() {
    let mut chain = Blockchain::new("c.json").unwrap();
    let genesis_hash = chain.chain[0].hash.clone();
    let block = chain.mine_pending("minerA").unwrap();
    assert_eq!(block.index, 1);
    assert_eq!(block.previous_hash, genesis_hash);
    assert_eq!(block.miner, "minerA");
    assert_eq!(block.transactions.len(), 1);
    assert_eq!(block.transactions[0].sender, "COINBASE");
    assert_eq!(block.transactions[0].receiver, "minerA");
    assert_eq!(block.transactions[0].amount, 50);
    assert!(block.hash.starts_with("00"));
    assert_eq!(chain.chain.len(), 2);
    assert_eq!(chain.chain[1].hash, block.hash);
    assert_eq!(balance(&chain, "minerA"), Some(50));
    assert_eq!(chain.mining_reward, 50);
    assert!(chain.is_valid());
    chain.mine_pending("minerA").unwrap();
    assert_eq!(balance(&chain, "minerA"), Some(100));
    assert!(chain.is_valid());
}

#[test]
fn coinbase_transaction_is_refused() {
    let mut chain = Blockchain::new("c.json").unwrap();
    let t = Transaction::coinbase("me".to_string(), 50);
    assert_eq!(chain.add_transaction(t), Err("不允许手动创建 coinbase 交易".to_string()));
    assert!(chain.pending_transactions.is_empty());
}

#[test]
fn zero_amount_is_refused() {
    let mut chain = Blockchain::new("c.json").unwrap();
    let wallet = rfc_wallet();
    let mut t = Transaction::new(wallet.address(), "bob".to_string(), 0);
    t.sign(&wallet);
    assert_eq!(chain.add_transaction(t), Err("转账金额必须大于 0".to_string()));
}

#[test]
fn bad_signature_is_refused() {
    let mut chain = Blockchain::new("c.json").unwrap();
    let wallet = rfc_wallet();
    let t = Transaction::new(wallet.address(), "bob".to_string(), 5);
    assert_eq!(chain.add_transaction(t), Err("交易签名无效".to_string()));
}

#[test]
fn insufficient_balance_is_refused_with_amounts() {
    let mut chain = Blockchain::new("c.json").unwrap();
    let wallet = rfc_wallet();
    let mut t = Transaction::new(wallet.address(), "bob".to_string(), 10);
    t.sign(&wallet);
    assert_eq!(
        chain.add_transaction(t),
        Err("余额不足: 当前 0 聪, 需要 10 聪".to_string())
    );
    chain.mine_pending(&wallet.address()).unwrap();
    let mut big = Transaction::new(wallet.address(), "bob".to_string(), 51);
    big.sign(&wallet);
    assert_eq!(
        chain.add_transaction(big),
        Err("余额不足: 当前 50 聪, 需要 51 聪".to_string())
    );
    assert_eq!(balance(&chain, &wallet.address()), Some(50));
}

#[test]
fn accepted_transfer_reserves_then_credits() {
    let mut chain = Blockchain::new("c.json").unwrap();
    let wallet = rfc_wallet();
    chain.mine_pending(&wallet.address()).unwrap();
    let mut t = Transaction::new(wallet.address(), "bob".to_string(), 20);
    t.sign(&wallet);
    assert_eq!(chain.add_transaction(t), Ok(()));
    assert_eq!(chain.pending_transactions.len(), 1);
    assert_eq!(balance(&chain, &wallet.address()), Some(30));
    assert_eq!(balance(&chain, "bob"), None);
    let block = chain.mine_pending("carol").unwrap();
    assert_eq!(block.transactions.len(), 2);
    assert_eq!(block.transactions[1].receiver, "bob");
    assert!(chain.pending_transactions.is_empty());
    assert_eq!(balance(&chain, "bob"), Some(20));
    assert_eq!(balance(&chain, "carol"), Some(50));
    assert_eq!(balance(&chain, &wallet.address()), Some(30));
    // The recomputation only credits receivers, so the reserved amount is
    // missing from it and the check fails after any transfer.
    assert!(!chain.is_valid());
}

#[test]
fn tampered_chain_is_invalid() {
    let mut chain = Blockchain::new("c.json").unwrap();
    chain.mine_pending("a").unwrap();
    chain.mine_pending("b").unwrap();
    assert!(chain.is_valid());
    chain.chain[1].transactions[0].amount = 1000;
    assert!(!chain.is_valid());
}

#[test]
fn edited_balances_make_chain_invalid() {
    let mut chain = Blockchain::new("c.json").unwrap();
    chain.mine_pending("a").unwrap();
    chain.balances.insert("a".to_string(), 51);
    assert!(!chain.is_valid());
    chain.balances.insert("a".to_string(), 50);
    assert!(chain.is_valid());
    chain.balances.insert("z".to_string(), 0);
    assert!(!chain.is_valid());
}

#[test]
fn reward_halves_every_hundred_blocks() {
    let blocks: Vec<Block> = (0..99).map(|i| dummy_block(i, 0)).collect();
    let chain = Blockchain::restore(blocks, 2, 50, Balances::new(), "c.json");
    assert_eq!(chain.current_reward(), 50);
    let blocks: Vec<Block> = (0..100).map(|i| dummy_block(i, 0)).collect();
    let chain = Blockchain::restore(blocks, 2, 50, Balances::new(), "c.json");
    assert_eq!(chain.current_reward(), 25);
    let blocks: Vec<Block> = (0..250).map(|i| dummy_block(i, 0)).collect();
    let chain = Blockchain::restore(blocks, 2, 50, Balances::new(), "c.json");
    assert_eq!(chain.current_reward(), 12);
    let blocks: Vec<Block> = (0..600).map(|i| dummy_block(i, 0)).collect();
    let chain = Blockchain::restore(blocks, 2, 50, Balances::new(), "c.json");
    assert_eq!(chain.current_reward(), 0);
}

#[test]
fn fast_blocks_raise_the_difficulty() {
    let blocks: Vec<Block> = (0..10).map(|i| dummy_block(i, i as i64)).collect();
    let mut chain = Blockchain::restore(blocks, 2, 50, Balances::new(), "c.json");
    let block = chain.mine_pending("m").unwrap();
    assert_eq!(chain.difficulty, 3);
    assert_eq!(block.difficulty, 3);
    assert!(block.hash.starts_with("000"));
    assert_eq!(block.index, 10);
    assert_eq!(block.previous_hash, "h");
}

#[test]
fn slow_blocks_lower_the_difficulty() {
    let slow: Vec<Block> = (0..10).map(|i| dummy_block(i, i as i64 * 1000)).collect();
    let mut chain = Blockchain::restore(slow, 3, 50, Balances::new(), "c.json");
    let block = chain.mine_pending("m").unwrap();
    assert_eq!(chain.difficulty, 2);
    assert_eq!(block.difficulty, 2);
}

#[test]
fn slow_blocks_do_not_go_below_two() {
    let slow: Vec<Block> = (0..10).map(|i| dummy_block(i, i as i64 * 1000)).collect();
    let mut chain = Blockchain::restore(slow, 2, 50, Balances::new(), "c.json");
    let block = chain.mine_pending("m").unwrap();
    assert_eq!(chain.difficulty, 2);
    assert_eq!(block.difficulty, 2);
}

#[test]
fn average_between_bounds_keeps_the_difficulty() {
    // 90 seconds over the window: 9 seconds per block on average.
    let blocks: Vec<Block> = (0..10).map(|i| dummy_block(i, i as i64 * 10)).collect();
    let mut chain = Blockchain::restore(blocks, 2, 50, Balances::new(), "c.json");
    chain.mine_pending("m").unwrap();
    assert_eq!(chain.difficulty, 2);
}

#[test]
fn no_adjustment_off_the_interval() {
    let blocks: Vec<Block> = (0..11).map(|i| dummy_block(i, i as i64)).collect();
    let mut chain = Blockchain::restore(blocks, 2, 50, Balances::new(), "c.json");
    chain.mine_pending("m").unwrap();
    assert_eq!(chain.difficulty, 2);
}

#[test]
fn restore_keeps_the_parts() {
    let mut balances = Balances::new();
    balances.insert("a".to_string(), 7);
    let chain = Blockchain::restore(vec![dummy_block(0, 0)], 4, 25, balances, "saved.json");
    assert_eq!(chain.chain.len(), 1);
    assert_eq!(chain.difficulty, 4);
    assert_eq!(chain.mining_reward, 25);
    assert_eq!(balance(&chain, "a"), Some(7));
    assert!(chain.pending_transactions.is_empty());
    assert_eq!(chain.save_path, "saved.json");
}

#[test]
fn new_at_stamps_the_genesis_block() {
    let chain = Blockchain::new_at("c.json", 1_700_000_000).unwrap();
    assert_eq!(chain.chain[0].timestamp, 1_700_000_000);
    assert!(chain.is_valid());
}

#[test]
fn mine_pending_at_stamps_block_and_coinbase() {
    let mut chain = Blockchain::new_at("c.json", 100).unwrap();
    let block = chain.mine_pending_at("m", 150, 160).unwrap();
    assert_eq!(block.timestamp, 160);
    assert_eq!(block.transactions[0].timestamp, 150);
    assert_eq!(block.transactions[0].receiver, "m");
    assert_eq!(block.hash, block.calculate_hash());
    assert!(chain.is_valid());
}

#[test]
fn can_mine_on_a_fresh_chain() {
    let chain = Blockchain::new("c.json").unwrap();
    assert!(chain.can_mine("m"));
}

#[test]
fn cannot_mine_without_blocks() {
    let chain = Blockchain::restore(Vec::new(), 2, 50, Balances::new(), "c.json");
    assert!(!chain.can_mine("m"));
}

#[test]
fn cannot_mine_when_the_reward_would_overflow_a_balance() {
    let mut balances = Balances::new();
    balances.insert("m".to_string(), i64::MAX - 10);
    let chain = Blockchain::restore(vec![dummy_block(0, 0)], 2, 50, balances, "c.json");
    assert!(!chain.can_mine("m"));
    assert!(chain.can_mine("other"));
}

#[test]
fn cannot_mine_when_the_reward_shift_overflows() {
    let blocks: Vec<Block> = (0..6400).map(|i| dummy_block(i, 0)).collect();
    let chain = Blockchain::restore(blocks, 2, 50, Balances::new(), "c.json");
    assert!(!chain.can_mine("m"));
}

#[test]
fn can_validate_a_fresh_chain() {
    let chain = Blockchain::new("c.json").unwrap();
    assert!(chain.can_validate());
}

#[test]
fn cannot_validate_after_the_largest_index() {
    let blocks = vec![dummy_block(u64::MAX, 0), dummy_block(0, 0)];
    let chain = Blockchain::restore(blocks, 2, 50, Balances::new(), "c.json");
    assert!(!chain.can_validate());
}

#[test]
fn broken_link_ends_the_checks() {
    let blocks = vec![dummy_block(0, 0), dummy_block(5, 0), dummy_block(u64::MAX, 0), dummy_block(0, 0)];
    let chain = Blockchain::restore(blocks, 2, 50, Balances::new(), "c.json");
    assert!(chain.can_validate());
    assert!(!chain.is_valid());
}

#[test]
fn cannot_validate_when_credits_overflow() {
    let genesis = Block::mined_at(0, 0, Vec::new(), "GENESIS".to_string(), "0".to_string(), 1).unwrap();
    let big = i64::MAX as u64;
    let txs = vec![
        Transaction::coinbase_at("x".to_string(), big, 1),
        Transaction::coinbase_at("x".to_string(), big, 1),
    ];
    let block = Block::mined_at(1, 1, txs, "m".to_string(), genesis.hash.clone(), 1).unwrap();
    let chain = Blockchain::restore(vec![genesis, block], 2, 50, Balances::new(), "c.json");
    assert!(!chain.can_validate());
}

#[test]
fn try_add_transaction_refuses_like_add_transaction() {
    let mut chain = Blockchain::new("c.json").unwrap();
    let t = Transaction::coinbase("me".to_string(), 50);
    assert_eq!(
        chain.try_add_transaction(t),
        Some(Err("不允许手动创建 coinbase 交易".to_string()))
    );
}

#[test]
fn try_add_transaction_accepts_and_reserves() {
    let mut chain = Blockchain::new("c.json").unwrap();
    let wallet = rfc_wallet();
    chain.mine_pending(&wallet.address()).unwrap();
    let mut t = Transaction::new(wallet.address(), "bob".to_string(), 20);
    t.sign(&wallet);
    assert_eq!(chain.try_add_transaction(t), Some(Ok(())));
    assert_eq!(balance(&chain, &wallet.address()), Some(30));
}

#[test]
fn try_add_transaction_declines_what_cannot_be_reserved() {
    let mut chain = Blockchain::new("c.json").unwrap();
    let wallet = rfc_wallet();
    // u64::MAX read as i64 is -1: the sender's missing balance (0) covers it,
    // but there is no balance to take it from.
    let mut t = Transaction::new(wallet.address(), "bob".to_string(), u64::MAX);
    t.sign(&wallet);
    assert_eq!(chain.try_add_transaction(t), None);
    assert!(chain.pending_transactions.is_empty());
    assert_eq!(chain.balances.len(), 0);
}

fn ledger_total(chain: &Blockchain) -> i128 {
    let mut sum: i128 = 0;
    for i in 0..chain.balances.len() {
        sum += chain.balances.entry(i).1 as i128;
    }
    for t in &chain.pending_transactions {
        sum += t.amount as i128;
    }
    sum
}

#[test]
fn reserving_moves_funds_and_mining_adds_only_the_reward() {
    let mut chain = Blockchain::new("c.json").unwrap();
    let wallet = rfc_wallet();
    chain.mine_pending(&wallet.address()).unwrap();
    assert_eq!(ledger_total(&chain), 50);
    let mut t = Transaction::new(wallet.address(), "bob".to_string(), 20);
    t.sign(&wallet);
    assert_eq!(chain.add_transaction(t), Ok(()));
    assert_eq!(ledger_total(&chain), 50);
    let mut refused = Transaction::new(wallet.address(), "bob".to_string(), 31);
    refused.sign(&wallet);
    assert!(chain.add_transaction(refused).is_err());
    assert_eq!(ledger_total(&chain), 50);
    chain.mine_pending("carol").unwrap();
    assert_eq!(ledger_total(&chain), 100);
}

#[test]
fn adjustment_average_over_the_last_ten_blocks() {
    let blocks: Vec<Block> = (0..10).map(|i| dummy_block(i, i as i64 * 25)).collect();
    let chain = Blockchain::restore(blocks, 4, 50, Balances::new(), "c.json");
    // 225 seconds over the window of ten.
    assert_eq!(chain.adjustment_average(), Some(22));
    assert_eq!(chain.next_difficulty(), 3);
    let blocks: Vec<Block> = (0..10).map(|i| dummy_block(i, i as i64)).collect();
    let chain = Blockchain::restore(blocks, 6, 50, Balances::new(), "c.json");
    assert_eq!(chain.adjustment_average(), Some(0));
    assert_eq!(chain.next_difficulty(), 6);
}

#[test]
fn no_adjustment_average_off_the_interval() {
    let blocks: Vec<Block> = (0..11).map(|i| dummy_block(i, i as i64)).collect();
    let chain = Blockchain::restore(blocks, 2, 50, Balances::new(), "c.json");
    assert_eq!(chain.adjustment_average(), None);
    assert_eq!(chain.next_difficulty(), 2);
    let chain = Blockchain::restore(Vec::new(), 5, 50, Balances::new(), "c.json");
    assert_eq!(chain.adjustment_average(), None);
    assert_eq!(chain.next_difficulty(), 5);
}
