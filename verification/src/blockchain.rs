//! The chain: its blocks, the pool of transactions waiting to be mined, the
//! current difficulty and reward, and the balances of all addresses.
//!
//! Every tenth block the difficulty moves by one towards a ten-second block
//! time, within 2 to 6 zero digits; the mining reward starts at 50 and
//! halves every hundred blocks. Accepting a transfer reserves its amount
//! from the sender's balance; mining credits every receiver in the block.

use crate::balances::{balance_of, credit_fits, credited, Balances};
use crate::block::{
    block_follows, hash_with_nonce, nonce_works, unmined, unsealable, sealed_by_least_nonce, transaction_views, Block,
    BlockView, HASH_DIGITS,
};
use crate::clock::current_unix_time;
use crate::encoding::{ascii_chars, decimal_digits, decimal_signed, decimal_text, decimal_text_unsigned};
use crate::transaction::{coinbase_label, coinbase_sender, verifies, Transaction, TransactionView};
use vstd::prelude::*;
use vstd::string::StringExecFns;

verus! {

/// The fewest leading zero digits a block hash needs.
pub const MIN_DIFFICULTY: usize = 2;

/// The most leading zero digits a block hash needs.
pub const MAX_DIFFICULTY: usize = 6;

/// The difficulty is reconsidered whenever the chain length is a multiple
/// of this.
pub const DIFFICULTY_ADJUST_INTERVAL: u64 = 10;

/// Seconds between blocks that the difficulty aims at.
pub const TARGET_BLOCK_TIME: i64 = 10;

/// The reward of the first blocks.
pub const INITIAL_MINING_REWARD: u64 = 50;

/// The reward halves after this many blocks.
pub const REWARD_HALVING_INTERVAL: u64 = 100;

/// The views of a sequence of blocks.
pub open spec fn block_views(blocks: Seq<Block>) -> Seq<BlockView> {
    blocks.map_values(|b: Block| b@)
}

/// The mining reward for a chain of `length` blocks: 50 shifted right once
/// per hundred blocks.
pub open spec fn reward_for_length(length: nat) -> u64 {
    INITIAL_MINING_REWARD >> ((length / 100) as u64)
}

/// The average time between blocks over a window of ten, truncated towards
/// zero as integer division does.
pub open spec fn average_block_time(elapsed: int) -> int {
    if elapsed >= 0 {
        elapsed / 10
    } else {
        -((-elapsed) / 10)
    }
}

/// Whether the difficulty is reconsidered at this chain length.
pub open spec fn adjustment_due(length: nat) -> bool {
    length >= 2 && length % 10 == 0
}

/// Seconds between the last block and the block ten places before the end.
pub open spec fn window_elapsed(chain: Seq<BlockView>) -> int {
    chain.last().timestamp - chain[chain.len() - 10].timestamp
}

/// The difficulty after adjustment: up by one (at most 6) when the last ten
/// blocks came faster than 5 seconds apart on average, down by one (at least
/// 2) when slower than 20, unchanged otherwise or when no adjustment is due.
pub open spec fn adjusted_difficulty(chain: Seq<BlockView>, difficulty: usize) -> usize {
    if !adjustment_due(chain.len()) {
        difficulty
    } else {
        let average = average_block_time(window_elapsed(chain));
        if average < TARGET_BLOCK_TIME / 2 {
            if difficulty + 1 <= MAX_DIFFICULTY {
                (difficulty + 1) as usize
            } else {
                MAX_DIFFICULTY
            }
        } else if average > TARGET_BLOCK_TIME * 2 {
            if difficulty - 1 >= MIN_DIFFICULTY {
                (difficulty - 1) as usize
            } else {
                MIN_DIFFICULTY
            }
        } else {
            difficulty
        }
    }
}

/// The adjustment neither overflows the timestamp difference nor steps the
/// difficulty outside `usize`.
pub open spec fn adjustment_safe(chain: Seq<BlockView>, difficulty: usize) -> bool {
    adjustment_due(chain.len()) ==> {
        let elapsed = window_elapsed(chain);
        let average = average_block_time(elapsed);
        &&& i64::MIN <= elapsed <= i64::MAX
        &&& average < TARGET_BLOCK_TIME / 2 ==> difficulty < usize::MAX
        &&& average >= TARGET_BLOCK_TIME / 2 && average > TARGET_BLOCK_TIME * 2 ==> difficulty > 0
    }
}

/// What a transaction pays: its receiver and its amount read as `i64`.
pub open spec fn payment_of(tx: TransactionView) -> (Seq<char>, i64) {
    (tx.receiver, tx.amount as i64)
}

/// The payments of a block's transactions, in order.
pub open spec fn block_payments(b: BlockView) -> Seq<(Seq<char>, i64)> {
    payments_of(b.transactions)
}

/// The balances after crediting each payment in order.
pub open spec fn apply_payments(m: Map<Seq<char>, i64>, payments: Seq<(Seq<char>, i64)>) -> Map<
    Seq<char>,
    i64,
>
    decreases payments.len(),
{
    if payments.len() == 0 {
        m
    } else {
        let p = payments.last();
        credited(apply_payments(m, payments.drop_last()), p.0, p.1)
    }
}

/// Every payment, credited in order, keeps the balance it changes within
/// `i64`.
pub open spec fn payments_fit(m: Map<Seq<char>, i64>, payments: Seq<(Seq<char>, i64)>) -> bool {
    forall|k: int|
        0 <= k < payments.len() ==> #[trigger] credit_fits(
            apply_payments(m, payments.take(k)),
            payments[k].0,
            payments[k].1,
        )
}

/// The balances that the blocks' transactions credit, starting from none.
pub open spec fn chain_credits(blocks: Seq<BlockView>) -> Map<Seq<char>, i64>
    decreases blocks.len(),
{
    if blocks.len() == 0 {
        Map::empty()
    } else {
        apply_payments(chain_credits(blocks.drop_last()), block_payments(blocks.last()))
    }
}

/// Crediting the chain's transactions in order never leaves `i64`.
pub open spec fn chain_credits_fit(blocks: Seq<BlockView>) -> bool {
    forall|b: int|
        0 <= b < blocks.len() ==> #[trigger] payments_fit(
            chain_credits(blocks.take(b)),
            block_payments(blocks[b]),
        )
}

/// Every block before position `upto` follows its predecessor.
pub open spec fn blocks_follow_upto(blocks: Seq<BlockView>, upto: int) -> bool {
    forall|j: int| 1 <= j < upto ==> #[trigger] block_follows(blocks[j], blocks[j - 1])
}

/// Every block but the first follows its predecessor.
pub open spec fn all_blocks_follow(blocks: Seq<BlockView>) -> bool {
    blocks_follow_upto(blocks, blocks.len() as int)
}

/// Checking the links block by block never reaches a predecessor whose
/// index is `u64::MAX` (whose successor index would overflow).
pub open spec fn links_checkable(blocks: Seq<BlockView>) -> bool {
    forall|i: int|
        1 <= i < blocks.len() && #[trigger] blocks_follow_upto(blocks, i) ==> blocks[i - 1].index
            < u64::MAX
}

/// A valid chain: every block follows its predecessor, and the balances are
/// exactly what the chain's transactions credit.
pub open spec fn chain_valid(blocks: Seq<BlockView>, balances: Map<Seq<char>, i64>) -> bool {
    &&& all_blocks_follow(blocks)
    &&& balances == chain_credits(blocks)
}

/// The error for a manually created coinbase transaction.
pub open spec fn coinbase_rejected() -> Seq<char> {
    "不允许手动创建 coinbase 交易"@
}

/// The error for a transfer of nothing.
pub open spec fn zero_amount_rejected() -> Seq<char> {
    "转账金额必须大于 0"@
}

/// The error for a transaction whose signature is invalid.
pub open spec fn signature_rejected() -> Seq<char> {
    "交易签名无效"@
}

/// The error for a transfer above the sender's balance.
pub open spec fn insufficient_balance(balance: int, amount: u64) -> Seq<char> {
    "余额不足: 当前 "@ + ascii_chars(decimal_signed(balance)) + " 聪, 需要 "@ + ascii_chars(
        decimal_digits(amount as nat),
    ) + " 聪"@
}

/// Why a transaction is refused, if it is: a coinbase sender, a zero
/// amount, an invalid signature, or an amount (read as `i64`) above the
/// sender's balance, checked in that order.
pub open spec fn rejection(balances: Map<Seq<char>, i64>, tx: TransactionView) -> Option<Seq<char>> {
    if tx.sender == coinbase_sender() {
        Some(coinbase_rejected())
    } else if tx.amount == 0 {
        Some(zero_amount_rejected())
    } else if !verifies(tx) {
        Some(signature_rejected())
    } else if balance_of(balances, tx.sender) < (tx.amount as i64) {
        Some(insufficient_balance(balance_of(balances, tx.sender), tx.amount))
    } else {
        None
    }
}

/// An accepted transaction can be reserved: the sender has a balance, and
/// taking the amount from it stays within `i64`.
pub open spec fn reservation_possible(balances: Map<Seq<char>, i64>, tx: TransactionView) -> bool {
    rejection(balances, tx) is None ==> {
        &&& balances.contains_key(tx.sender)
        &&& i64::MIN <= balances[tx.sender] - (tx.amount as i64) <= i64::MAX
    }
}

/// The reward halves every hundred blocks.
pub proof fn lemma_reward_halves(length: nat)
    requires
        (length + 100) / 100 < 64,
    ensures
        reward_for_length(length + 100) == reward_for_length(length) / 2,
{
    let h = (length / 100) as u64;
    assert((length + 100) / 100 == length / 100 + 1);
    assert(((length + 100) / 100) as u64 == h + 1);
    assert(h < 63);
    assert((50u64 >> ((h + 1) as u64)) == (50u64 >> h) / 2) by (bit_vector)
        requires
            h < 63,
    ;
}

/// Adjusting keeps a difficulty between 2 and 6 within that range, and moves
/// it by at most one.
pub proof fn lemma_difficulty_stays_in_range(chain: Seq<BlockView>, difficulty: usize)
    requires
        MIN_DIFFICULTY <= difficulty <= MAX_DIFFICULTY,
    ensures
        MIN_DIFFICULTY <= adjusted_difficulty(chain, difficulty) <= MAX_DIFFICULTY,
        adjusted_difficulty(chain, difficulty) <= difficulty + 1,
        difficulty <= adjusted_difficulty(chain, difficulty) + 1,
{
}

/// A chain admits one ledger only: two balance maps that both make it valid
/// are the same.
pub proof fn lemma_valid_ledger_is_unique(
    blocks: Seq<BlockView>,
    first: Map<Seq<char>, i64>,
    second: Map<Seq<char>, i64>,
)
    requires
        chain_valid(blocks, first),
        chain_valid(blocks, second),
    ensures
        first == second,
{
}

/// Changing one balance of a valid chain's ledger (setting an address to a
/// value it did not have) makes the chain invalid.
pub proof fn lemma_tampered_balance_detected(
    blocks: Seq<BlockView>,
    balances: Map<Seq<char>, i64>,
    address: Seq<char>,
    amount: i64,
)
    requires
        chain_valid(blocks, balances),
        !(balances.contains_key(address) && balances[address] == amount),
    ensures
        !chain_valid(blocks, balances.insert(address, amount)),
{
    let tampered = balances.insert(address, amount);
    assert(tampered.contains_key(address) && tampered[address] == amount);
    assert(tampered != balances);
}

/// In a chain whose blocks all follow their predecessors, indices count up
/// by one from the first block's.
pub proof fn lemma_indices_count_up(blocks: Seq<BlockView>)
    requires
        all_blocks_follow(blocks),
    ensures
        forall|i: int| 0 <= i < blocks.len() ==> #[trigger] blocks[i].index == blocks[0].index + i,
    decreases blocks.len(),
{
    if blocks.len() > 1 {
        let prefix = blocks.drop_last();
        assert forall|j: int| 1 <= j < prefix.len() implies #[trigger] block_follows(prefix[j], prefix[j - 1]) by {
            assert(block_follows(blocks[j], blocks[j - 1]));
        }
        lemma_indices_count_up(prefix);
        assert forall|i: int| 0 <= i < blocks.len() implies #[trigger] blocks[i].index == blocks[0].index + i by {
            if i < prefix.len() {
                assert(prefix[i].index == prefix[0].index + i);
            } else {
                assert(block_follows(blocks[i], blocks[i - 1]));
                assert(prefix[i - 1].index == prefix[0].index + (i - 1));
            }
        }
    }
}


/// The difficulty adjustment reads only the last ten blocks: two chains of
/// the same length whose last ten blocks carry the same timestamps adjust a
/// difficulty alike, whatever the blocks before them hold.
pub proof fn lemma_adjustment_reads_only_the_last_ten(
    first: Seq<BlockView>,
    second: Seq<BlockView>,
    difficulty: usize,
)
    requires
        first.len() == second.len(),
        forall|k: int|
            0 <= k < first.len() && first.len() - 10 <= k ==> #[trigger] first[k].timestamp
                == second[k].timestamp,
    ensures
        adjusted_difficulty(first, difficulty) == adjusted_difficulty(second, difficulty),
        adjustment_safe(first, difficulty) == adjustment_safe(second, difficulty),
{
    if adjustment_due(first.len()) {
        assert(first.len() >= 10);
        assert(first[first.len() - 10].timestamp == second[second.len() - 10].timestamp);
        assert(first[first.len() - 1].timestamp == second[second.len() - 1].timestamp);
    }
}

/// When the last ten blocks are `gap` seconds apart, the average the
/// adjustment compares is the nine gaps between them divided by ten.
pub proof fn lemma_adjustment_average_of_even_blocks(chain: Seq<BlockView>, gap: int)
    requires
        chain.len() >= 10,
        gap >= 0,
        forall|j: int|
            0 <= j < 10 ==> #[trigger] chain[chain.len() - 10 + j].timestamp == chain[chain.len()
                - 10].timestamp + j * gap,
    ensures
        average_block_time(window_elapsed(chain)) == (9 * gap) / 10,
{
    assert(chain[chain.len() - 10 + 9].timestamp == chain[chain.len() - 10].timestamp + 9 * gap);
}

/// A transfer is refused for want of funds exactly when the sender's
/// balance is below its amount: an authentic transfer of a positive amount,
/// not from the coinbase, that the balance covers (the whole balance
/// included) is accepted.
pub proof fn lemma_covered_transfer_is_accepted(balances: Map<Seq<char>, i64>, tx: TransactionView)
    requires
        tx.sender != coinbase_sender(),
        0 < tx.amount <= i64::MAX,
        verifies(tx),
    ensures
        rejection(balances, tx) is None <==> balance_of(balances, tx.sender) >= tx.amount,
        balance_of(balances, tx.sender) < tx.amount ==> rejection(balances, tx) == Some(
            insufficient_balance(balance_of(balances, tx.sender), tx.amount),
        ),
{
}

/// The sum of the amounts of some transactions.
pub open spec fn amounts_total(txs: Seq<TransactionView>) -> int
    decreases txs.len(),
{
    if txs.len() == 0 {
        0
    } else {
        amounts_total(txs.drop_last()) + txs.last().amount
    }
}

/// The sum of the amounts that some payments credit.
pub open spec fn payments_total(payments: Seq<(Seq<char>, i64)>) -> int
    decreases payments.len(),
{
    if payments.len() == 0 {
        0
    } else {
        payments_total(payments.drop_last()) + payments.last().1
    }
}

/// A payment placed in front adds its amount to the sum.
proof fn lemma_payments_total_prepend(head: (Seq<char>, i64), rest: Seq<(Seq<char>, i64)>)
    ensures
        payments_total(seq![head] + rest) == head.1 + payments_total(rest),
    decreases rest.len(),
{
    let all = seq![head] + rest;
    if rest.len() == 0 {
        assert(all.drop_last() =~= Seq::<(Seq<char>, i64)>::empty());
        assert(payments_total(all.drop_last()) == 0);
        assert(rest =~= Seq::<(Seq<char>, i64)>::empty());
    } else {
        assert(all.drop_last() =~= seq![head] + rest.drop_last());
        assert(all.last() == rest.last());
        lemma_payments_total_prepend(head, rest.drop_last());
    }
}

/// Transfers whose amounts fit in `i64` credit exactly their amounts.
proof fn lemma_payments_total_of(txs: Seq<TransactionView>)
    requires
        forall|i: int| 0 <= i < txs.len() ==> #[trigger] txs[i].amount <= i64::MAX,
    ensures
        payments_total(payments_of(txs)) == amounts_total(txs),
    decreases txs.len(),
{
    if txs.len() > 0 {
        assert(payments_of(txs).drop_last() =~= payments_of(txs.drop_last()));
        assert(txs.last().amount <= i64::MAX);
        lemma_payments_total_of(txs.drop_last());
    }
}

/// The coinbase transaction paying `amount` to `receiver` at `timestamp`.
pub open spec fn coinbase_view(receiver: Seq<char>, amount: u64, timestamp: i64) -> TransactionView {
    TransactionView {
        sender: coinbase_sender(),
        receiver,
        amount,
        timestamp,
        signature: Seq::empty(),
    }
}

/// The payments of a sequence of transactions.
pub open spec fn payments_of(txs: Seq<TransactionView>) -> Seq<(Seq<char>, i64)> {
    txs.map_values(|t: TransactionView| payment_of(t))
}

/// The chain of blocks and its ledger.
pub struct Blockchain {
    pub chain: Vec<Block>,
    pub pending_transactions: Vec<Transaction>,
    pub difficulty: usize,
    pub mining_reward: u64,
    pub balances: Balances,
    pub save_path: String,
}

impl Blockchain {
    /// The views of the chain's blocks.
    pub open spec fn blocks(&self) -> Seq<BlockView> {
        block_views(self.chain@)
    }

    /// The views of the pending transactions.
    pub open spec fn pending(&self) -> Seq<TransactionView> {
        transaction_views(self.pending_transactions@)
    }

    /// A new chain holding only a mined genesis block (index 0, no
    /// transactions, miner `GENESIS`, previous hash `0`, difficulty 2), with
    /// reward 50, no pending transactions and no balances. `None` when no
    /// nonce seals the genesis block. The genesis block is stamped with the
    /// current time (see `new_at`). A new chain is valid.
    pub fn new(save_path: &str) -> (chain: Option<Self>)
        ensures
            chain matches Some(c) ==> {
                &&& c.chain@.len() == 1
                &&& c.chain@[0].index == 0
                &&& c.chain@[0].transactions@.len() == 0
                &&& c.chain@[0].miner@ == "GENESIS"@
                &&& c.chain@[0].previous_hash@ == "0"@
                &&& c.chain@[0].difficulty == MIN_DIFFICULTY
                &&& sealed_by_least_nonce(c.chain@[0]@)
                &&& c.pending_transactions@.len() == 0
                &&& c.difficulty == MIN_DIFFICULTY
                &&& c.mining_reward == INITIAL_MINING_REWARD
                &&& c.balances.view() == Map::<Seq<char>, i64>::empty()
                &&& c.save_path@ == save_path@
                &&& chain_valid(c.blocks(), c.balances.view())
            },
            chain is None ==> exists|timestamp: i64|
                #[trigger] unsealable(
                    unmined(0, timestamp, Seq::empty(), "GENESIS"@, "0"@, MIN_DIFFICULTY),
                ),
    {
        let now = current_unix_time();
        let chain = Blockchain::new_at(save_path, now);
        proof {
            if chain is None {
                assert(unsealable(
                    unmined(0, now, Seq::empty(), "GENESIS"@, "0"@, MIN_DIFFICULTY),
                ));
            }
        }
        chain
    }

    /// A new chain holding only a mined genesis block (index 0, no
    /// transactions, miner `GENESIS`, previous hash `0`, difficulty 2), with
    /// reward 50, no pending transactions and no balances. `None` when no
    /// nonce seals the genesis block. The genesis block is stamped
    /// `timestamp`. A new chain is valid.
    pub fn new_at(save_path: &str, timestamp: i64) -> (chain: Option<Self>)
        ensures
            chain matches Some(c) ==> {
                &&& c.chain@.len() == 1
                &&& c.chain@[0].index == 0
                &&& c.chain@[0].timestamp == timestamp
                &&& c.chain@[0].transactions@.len() == 0
                &&& c.chain@[0].miner@ == "GENESIS"@
                &&& c.chain@[0].previous_hash@ == "0"@
                &&& c.chain@[0].difficulty == MIN_DIFFICULTY
                &&& sealed_by_least_nonce(c.chain@[0]@)
                &&& c.pending_transactions@.len() == 0
                &&& c.difficulty == MIN_DIFFICULTY
                &&& c.mining_reward == INITIAL_MINING_REWARD
                &&& c.balances.view() == Map::<Seq<char>, i64>::empty()
                &&& c.save_path@ == save_path@
                &&& chain_valid(c.blocks(), c.balances.view())
            },
            chain is None ==> unsealable(
                unmined(0, timestamp, Seq::empty(), "GENESIS"@, "0"@, MIN_DIFFICULTY),
            ),
    {
        let no_transactions: Vec<Transaction> = Vec::new();
        assert(transaction_views(no_transactions@) =~= Seq::<TransactionView>::empty());
        let genesis = Block::mined_at(
            0,
            timestamp,
            no_transactions,
            String::from_str("GENESIS"),
            String::from_str("0"),
            MIN_DIFFICULTY,
        );
        match genesis {
            Some(genesis) => {
                let mut chain: Vec<Block> = Vec::new();
                chain.push(genesis);
                let c = Blockchain {
                    chain,
                    pending_transactions: Vec::new(),
                    difficulty: MIN_DIFFICULTY,
                    mining_reward: INITIAL_MINING_REWARD,
                    balances: Balances::new(),
                    save_path: String::from_str(save_path),
                };
                proof {
                    let blocks = c.blocks();
                    assert(blocks.drop_last() =~= Seq::<BlockView>::empty());
                    assert(block_payments(blocks.last()) =~= Seq::<(Seq<char>, i64)>::empty());
                    assert(chain_credits(blocks.drop_last()) == Map::<Seq<char>, i64>::empty());
                    assert(apply_payments(Map::<Seq<char>, i64>::empty(), block_payments(blocks.last()))
                        == Map::<Seq<char>, i64>::empty());
                    assert(chain_credits(blocks) == Map::<Seq<char>, i64>::empty());
                }
                Some(c)
            },
            None => None,
        }
    }

    /// A chain restored from stored parts, with no pending transactions.
    pub fn restore(
        chain: Vec<Block>,
        difficulty: usize,
        mining_reward: u64,
        balances: Balances,
        save_path: &str,
    ) -> (restored: Self)
        ensures
            restored.chain == chain,
            restored.pending_transactions@.len() == 0,
            restored.difficulty == difficulty,
            restored.mining_reward == mining_reward,
            restored.balances == balances,
            restored.save_path@ == save_path@,
    {
        Blockchain {
            chain,
            pending_transactions: Vec::new(),
            difficulty,
            mining_reward,
            balances,
            save_path: String::from_str(save_path),
        }
    }

    /// The average time between the last ten blocks, when the next block is
    /// due to adjust the difficulty and the time span between them fits in
    /// `i64`; `None` otherwise.
    pub fn adjustment_average(&self) -> (average: Option<i64>)
        ensures
            average == (if adjustment_due(self.chain@.len()) && i64::MIN <= window_elapsed(
                self.blocks(),
            ) <= i64::MAX {
                Some(average_block_time(window_elapsed(self.blocks())) as i64)
            } else {
                None
            }),
    {
        let len = self.chain.len() as u64;
        if len < 2 || len % DIFFICULTY_ADJUST_INTERVAL != 0 {
            return None;
        }
        let recent_start = (len - DIFFICULTY_ADJUST_INTERVAL) as usize;
        let last = self.chain.len() - 1;
        match self.chain[last].timestamp.checked_sub(self.chain[recent_start].timestamp) {
            None => None,
            Some(elapsed) => {
                let average = elapsed / (DIFFICULTY_ADJUST_INTERVAL as i64);
                assert(average == average_block_time(window_elapsed(self.blocks())));
                Some(average)
            },
        }
    }

    /// The difficulty the next block gets (see `adjusted_difficulty`).
    pub fn next_difficulty(&self) -> (difficulty: usize)
        requires
            adjustment_safe(self.blocks(), self.difficulty),
        ensures
            difficulty == adjusted_difficulty(self.blocks(), self.difficulty),
    {
        match self.adjustment_average() {
            None => self.difficulty,
            Some(average) => {
                if average < TARGET_BLOCK_TIME / 2 {
                    let raised = self.difficulty + 1;
                    if raised < MAX_DIFFICULTY {
                        raised
                    } else {
                        MAX_DIFFICULTY
                    }
                } else if average > TARGET_BLOCK_TIME * 2 {
                    let lowered = self.difficulty - 1;
                    if lowered > MIN_DIFFICULTY {
                        lowered
                    } else {
                        MIN_DIFFICULTY
                    }
                } else {
                    self.difficulty
                }
            },
        }
    }

    /// Moves the difficulty as `adjusted_difficulty` says; nothing else
    /// changes.
    fn adjust_difficulty(&mut self)
        requires
            adjustment_safe(old(self).blocks(), old(self).difficulty),
        ensures
            final(self).difficulty == adjusted_difficulty(old(self).blocks(), old(self).difficulty),
            final(self).chain == old(self).chain,
            final(self).pending_transactions == old(self).pending_transactions,
            final(self).mining_reward == old(self).mining_reward,
            final(self).balances == old(self).balances,
            final(self).save_path == old(self).save_path,
    {
        self.difficulty = self.next_difficulty();
    }

    /// The reward for the next block (see `reward_for_length`).
    pub fn current_reward(&self) -> (reward: u64)
        requires
            self.chain@.len() / 100 < 64,
        ensures
            reward == reward_for_length(self.chain@.len()),
    {
        let halvings = self.chain.len() as u64 / REWARD_HALVING_INTERVAL;
        INITIAL_MINING_REWARD >> halvings
    }

    /// Accepts a transfer into the pending pool and reserves its amount from
    /// the sender's balance, or refuses it with the reason that `rejection`
    /// gives and changes nothing. For amounts up to `i64::MAX` the sum of all
    /// balances and pending amounts stays the same: reserving moves funds,
    /// it creates none.
    pub fn add_transaction(&mut self, tx: Transaction) -> (result: Result<(), String>)
        requires
            reservation_possible(old(self).balances.view(), tx@),
        ensures
            final(self).chain == old(self).chain,
            final(self).difficulty == old(self).difficulty,
            final(self).mining_reward == old(self).mining_reward,
            final(self).save_path == old(self).save_path,
            match result {
                Ok(()) => {
                    &&& rejection(old(self).balances.view(), tx@) is None
                    &&& final(self).pending_transactions@ == old(self).pending_transactions@.push(tx)
                    &&& final(self).balances.view() == old(self).balances.view().insert(
                        tx@.sender,
                        (old(self).balances.view()[tx@.sender] - (tx.amount as i64)) as i64,
                    )
                },
                Err(message) => {
                    &&& rejection(old(self).balances.view(), tx@) == Some(message@)
                    &&& final(self).pending_transactions == old(self).pending_transactions
                    &&& final(self).balances == old(self).balances
                },
            },
            tx.amount <= i64::MAX ==> final(self).balances.total() + amounts_total(final(self).pending())
                == old(self).balances.total() + amounts_total(old(self).pending()),
    {
        if tx.sender == coinbase_label() {
            return Err(String::from_str("不允许手动创建 coinbase 交易"));
        }
        if tx.amount == 0 {
            return Err(String::from_str("转账金额必须大于 0"));
        }
        if !tx.verify() {
            return Err(String::from_str("交易签名无效"));
        }
        let balance = match self.balances.get(&tx.sender) {
            Some(v) => v,
            None => 0,
        };
        let amount = #[verifier::truncate] (tx.amount as i64);
        if balance < amount {
            let mut message = String::from_str("余额不足: 当前 ");
            let balance_text = decimal_text(balance);
            message.append(balance_text.as_str());
            message.append(" 聪, 需要 ");
            let amount_text = decimal_text_unsigned(tx.amount);
            message.append(amount_text.as_str());
            message.append(" 聪");
            return Err(message);
        }
        let sender = tx.sender.clone();
        let ghost old_pending = self.pending();
        self.balances.insert(sender, balance - amount);
        self.pending_transactions.push(tx);
        proof {
            assert(self.pending().drop_last() =~= old_pending);
        }
        Ok(())
    }

    /// Whether the chain is valid (see `chain_valid`): each block follows the
    /// one before it, and the balances equal what the chain's transactions
    /// credit, recomputed from the start.
    pub fn is_valid(&self) -> (valid: bool)
        requires
            links_checkable(self.blocks()),
            all_blocks_follow(self.blocks()) ==> chain_credits_fit(self.blocks()),
        ensures
            valid == chain_valid(self.blocks(), self.balances.view()),
    {
        let ghost blocks = self.blocks();
        let count = self.chain.len();
        let mut i: usize = 1;
        while i < count
            invariant
                count == self.chain.len(),
                blocks == self.blocks(),
                links_checkable(blocks),
                1 <= i,
                count == 0 || i <= count,
                blocks_follow_upto(blocks, i as int),
            decreases count - i,
        {
            assert(blocks[i - 1].index < u64::MAX);
            if !self.chain[i].is_valid(&self.chain[i - 1]) {
                assert(!block_follows(blocks[i as int], blocks[i - 1]));
                return false;
            }
            i += 1;
        }
        assert(all_blocks_follow(blocks));
        let mut computed = Balances::new();
        let mut b: usize = 0;
        while b < count
            invariant
                count == self.chain.len(),
                blocks == self.blocks(),
                chain_credits_fit(blocks),
                b <= count,
                computed.view() == chain_credits(blocks.take(b as int)),
            decreases count - b,
        {
            let txs = &self.chain[b].transactions;
            let ghost payments = block_payments(blocks[b as int]);
            let ghost start = computed.view();
            assert(payments_fit(start, payments));
            let tx_count = txs.len();
            let mut t: usize = 0;
            while t < tx_count
                invariant
                    tx_count == txs.len(),
                    payments == block_payments(blocks[b as int]),
                    payments.len() == tx_count,
                    *txs == self.chain@[b as int].transactions,
                    blocks == self.blocks(),
                    b < count,
                    count == self.chain.len(),
                    payments_fit(start, payments),
                    t <= tx_count,
                    computed.view() == apply_payments(start, payments.take(t as int)),
                decreases tx_count - t,
            {
                let tx = &txs[t];
                assert(payments[t as int] == (tx.receiver@, tx.amount as i64));
                assert(credit_fits(apply_payments(start, payments.take(t as int)), payments[t as int].0, payments[t as int].1));
                computed.credit(&tx.receiver, #[verifier::truncate] (tx.amount as i64));
                assert(payments.take(t + 1).drop_last() =~= payments.take(t as int));
                t += 1;
            }
            assert(payments.take(tx_count as int) =~= payments);
            assert(blocks.take(b + 1).drop_last() =~= blocks.take(b as int));
            b += 1;
        }
        assert(blocks.take(count as int) =~= blocks);
        computed.same_as(&self.balances)
    }

    /// Mines the pending transactions into a new block: adjusts the
    /// difficulty, pays the current reward to the miner in a coinbase
    /// transaction placed first, links the block to the last one, seals it
    /// with the least working nonce, credits every receiver in it, and
    /// appends it. Returns the new block; `None`, with nothing changed, when
    /// no nonce seals it. The coinbase transaction and the block are
    /// stamped with the current time (see `mine_pending_at`).
    ///
    /// Mining keeps a valid chain valid, when its first block has index 0
    /// and every pending transaction is authentic. It adds the reward, and
    /// nothing else, to the sum of all balances and pending amounts, when
    /// each pending amount fits in `i64`.
    pub fn mine_pending(&mut self, miner_address: &str) -> (mined: Option<Block>)
        requires
            old(self).chain@.len() >= 1,
            old(self).chain@.len() / 100 < 64,
            adjustment_safe(old(self).blocks(), old(self).difficulty),
            adjusted_difficulty(old(self).blocks(), old(self).difficulty) <= HASH_DIGITS,
            payments_fit(
                old(self).balances.view(),
                seq![(miner_address@, reward_for_length(old(self).chain@.len()) as i64)]
                    + payments_of(old(self).pending()),
            ),
        ensures
            final(self).save_path == old(self).save_path,
            mined matches Some(block) ==> {
                &&& final(self).blocks() == old(self).blocks().push(block@)
                &&& block.index == old(self).chain@.len()
                &&& block.previous_hash@ == old(self).chain@.last().hash@
                &&& block.miner@ == miner_address@
                &&& block.difficulty == adjusted_difficulty(old(self).blocks(), old(self).difficulty)
                &&& final(self).difficulty == block.difficulty
                &&& block@.transactions.len() == old(self).pending_transactions@.len() + 1
                &&& block@.transactions[0].sender == coinbase_sender()
                &&& block@.transactions[0].receiver == miner_address@
                &&& block@.transactions[0].amount == reward_for_length(old(self).chain@.len())
                &&& block@.transactions[0].signature.len() == 0
                &&& block@.transactions.drop_first() == old(self).pending()
                &&& sealed_by_least_nonce(block@)
                &&& final(self).pending_transactions@.len() == 0
                &&& final(self).mining_reward == reward_for_length(old(self).chain@.len())
                &&& final(self).balances.view() == apply_payments(
                    old(self).balances.view(),
                    block_payments(block@),
                )
                &&& (forall|i: int| 0 <= i < old(self).pending().len()
                    ==> #[trigger] old(self).pending()[i].amount <= i64::MAX)
                    ==> final(self).balances.total() + amounts_total(final(self).pending())
                    == old(self).balances.total() + amounts_total(old(self).pending())
                    + reward_for_length(old(self).chain@.len())
                &&& (chain_valid(old(self).blocks(), old(self).balances.view())
                    && old(self).chain@[0].index == 0 && forall|i: int|
                    0 <= i < old(self).pending().len() ==> verifies(
                        #[trigger] old(self).pending()[i],
                    )) ==> chain_valid(final(self).blocks(), final(self).balances.view())
            },
            mined is None ==> {
                &&& final(self).chain == old(self).chain
                &&& final(self).pending() == old(self).pending()
                &&& final(self).difficulty == old(self).difficulty
                &&& final(self).mining_reward == old(self).mining_reward
                &&& final(self).balances == old(self).balances
                &&& exists|block_time: i64, coinbase_time: i64|
                    #[trigger] unsealable(
                        unmined(
                            old(self).chain@.len() as u64,
                            block_time,
                            seq![
                                coinbase_view(
                                    miner_address@,
                                    reward_for_length(old(self).chain@.len()),
                                    coinbase_time,
                                ),
                            ] + old(self).pending(),
                            miner_address@,
                            old(self).chain@.last().hash@,
                            adjusted_difficulty(old(self).blocks(), old(self).difficulty),
                        ),
                    )
            },
    {
        let coinbase_time = current_unix_time();
        let block_time = current_unix_time();
        let mined = self.mine_pending_at(miner_address, coinbase_time, block_time);
        proof {
            if mined is None {
                let candidate = unmined(
                    old(self).chain@.len() as u64,
                    block_time,
                    seq![
                        coinbase_view(
                            miner_address@,
                            reward_for_length(old(self).chain@.len()),
                            coinbase_time,
                        ),
                    ] + old(self).pending(),
                    miner_address@,
                    old(self).chain@.last().hash@,
                    adjusted_difficulty(old(self).blocks(), old(self).difficulty),
                );
                assert(unsealable(candidate));
            }
        }
        mined
    }

    /// Mines the pending transactions into a new block: adjusts the
    /// difficulty, pays the current reward to the miner in a coinbase
    /// transaction stamped `coinbase_time` and placed first, links the block
    /// (stamped `block_time`) to the last one, seals it with the least
    /// working nonce, credits every receiver in it, and appends it. Returns
    /// the new block; `None`, with nothing changed, when no nonce seals it.
    ///
    /// Mining keeps a valid chain valid, when its first block has index 0
    /// and every pending transaction is authentic. It adds the reward, and
    /// nothing else, to the sum of all balances and pending amounts, when
    /// each pending amount fits in `i64`.
    pub fn mine_pending_at(
        &mut self,
        miner_address: &str,
        coinbase_time: i64,
        block_time: i64,
    ) -> (mined: Option<Block>)
        requires
            old(self).chain@.len() >= 1,
            old(self).chain@.len() / 100 < 64,
            adjustment_safe(old(self).blocks(), old(self).difficulty),
            adjusted_difficulty(old(self).blocks(), old(self).difficulty) <= HASH_DIGITS,
            payments_fit(
                old(self).balances.view(),
                seq![(miner_address@, reward_for_length(old(self).chain@.len()) as i64)]
                    + payments_of(old(self).pending()),
            ),
        ensures
            final(self).save_path == old(self).save_path,
            mined matches Some(block) ==> {
                &&& final(self).blocks() == old(self).blocks().push(block@)
                &&& block.index == old(self).chain@.len()
                &&& block.previous_hash@ == old(self).chain@.last().hash@
                &&& block.miner@ == miner_address@
                &&& block.difficulty == adjusted_difficulty(old(self).blocks(), old(self).difficulty)
                &&& final(self).difficulty == block.difficulty
                &&& block@.transactions.len() == old(self).pending_transactions@.len() + 1
                &&& block@.transactions[0].sender == coinbase_sender()
                &&& block@.transactions[0].receiver == miner_address@
                &&& block@.transactions[0].amount == reward_for_length(old(self).chain@.len())
                &&& block@.transactions[0].signature.len() == 0
                &&& block@.transactions[0].timestamp == coinbase_time
                &&& block.timestamp == block_time
                &&& block@.transactions.drop_first() == old(self).pending()
                &&& sealed_by_least_nonce(block@)
                &&& final(self).pending_transactions@.len() == 0
                &&& final(self).mining_reward == reward_for_length(old(self).chain@.len())
                &&& final(self).balances.view() == apply_payments(
                    old(self).balances.view(),
                    block_payments(block@),
                )
                &&& (forall|i: int| 0 <= i < old(self).pending().len()
                    ==> #[trigger] old(self).pending()[i].amount <= i64::MAX)
                    ==> final(self).balances.total() + amounts_total(final(self).pending())
                    == old(self).balances.total() + amounts_total(old(self).pending())
                    + reward_for_length(old(self).chain@.len())
                &&& (chain_valid(old(self).blocks(), old(self).balances.view())
                    && old(self).chain@[0].index == 0 && forall|i: int|
                    0 <= i < old(self).pending().len() ==> verifies(
                        #[trigger] old(self).pending()[i],
                    )) ==> chain_valid(final(self).blocks(), final(self).balances.view())
            },
            mined is None ==> {
                &&& final(self).chain == old(self).chain
                &&& final(self).pending() == old(self).pending()
                &&& final(self).difficulty == old(self).difficulty
                &&& final(self).mining_reward == old(self).mining_reward
                &&& final(self).balances == old(self).balances
                &&& unsealable(
                    unmined(
                        old(self).chain@.len() as u64,
                        block_time,
                        seq![
                            coinbase_view(
                                miner_address@,
                                reward_for_length(old(self).chain@.len()),
                                coinbase_time,
                            ),
                        ] + old(self).pending(),
                        miner_address@,
                        old(self).chain@.last().hash@,
                        adjusted_difficulty(old(self).blocks(), old(self).difficulty),
                    ),
                )
            },
    {
        let ghost old_blocks = self.blocks();
        let ghost old_pending = self.pending();
        let ghost old_balances = self.balances.view();
        let ghost old_total = self.balances.total();
        let old_difficulty = self.difficulty;
        self.adjust_difficulty();
        let reward = self.current_reward();
        let miner = String::from_str(miner_address);
        let coinbase = Transaction::coinbase_at(miner.clone(), reward, coinbase_time);
        let mut transactions: Vec<Transaction> = Vec::new();
        transactions.push(coinbase);
        let mut pending: Vec<Transaction> = Vec::new();
        std::mem::swap(&mut pending, &mut self.pending_transactions);
        let ghost taken = pending@;
        transactions.append(&mut pending);
        let index = self.chain.len() as u64;
        let previous_hash = self.chain[self.chain.len() - 1].hash.clone();
        let mut block = Block {
            index,
            timestamp: block_time,
            transactions,
            miner,
            previous_hash,
            hash: String::new(),
            nonce: 0,
            difficulty: self.difficulty,
        };
        let ghost before_mining = block@;
        assert(transaction_views(block.transactions@).drop_first() =~= old_pending);
        if !block.mine() {
            proof {
                assert(block.previous_hash@ == old(self).chain@.last().hash@);
                assert(block.difficulty == adjusted_difficulty(old(self).blocks(), old(self).difficulty));
                let candidate = unmined(
                    old(self).chain@.len() as u64,
                    block.timestamp,
                    seq![
                        coinbase_view(
                            miner_address@,
                            reward_for_length(old(self).chain@.len()),
                            block@.transactions[0].timestamp,
                        ),
                    ] + old(self).pending(),
                    miner_address@,
                    old(self).chain@.last().hash@,
                    adjusted_difficulty(old(self).blocks(), old(self).difficulty),
                );
                assert(candidate.transactions =~= before_mining.transactions);
                assert forall|n: u64| !nonce_works(candidate, n) by {
                    assert(hash_with_nonce(candidate, n) == hash_with_nonce(before_mining, n));
                    if n == u64::MAX {
                        assert(hash_with_nonce(block@, n) == hash_with_nonce(before_mining, n));
                    }
                }
                assert(unsealable(candidate));
            }
            let mut restored: Vec<Transaction> = Vec::new();
            std::mem::swap(&mut restored, &mut block.transactions);
            restored.remove(0);
            assert(restored@ =~= taken);
            self.pending_transactions = restored;
            self.difficulty = old_difficulty;
            return None;
        }
        assert forall|n: u64| n < block.nonce implies !nonce_works(block@, n) by {
            assert(!nonce_works(before_mining, n));
        }
        let ghost payments = block_payments(block@);
        assert(payments =~= seq![(miner_address@, reward as i64)] + payments_of(old_pending));
        let ghost chain_now = self.chain;
        let ghost pending_now = self.pending_transactions;
        let ghost difficulty_now = self.difficulty;
        let count = block.transactions.len();
        let mut i: usize = 0;
        #[verifier::loop_isolation(false)]
        while i < count
            invariant
                count == block.transactions.len(),
                payments == block_payments(block@),
                payments.len() == count,
                payments_fit(old_balances, payments),
                i <= count,
                self.balances.view() == apply_payments(old_balances, payments.take(i as int)),
                self.balances.total() == old_total + payments_total(payments.take(i as int)),
                self.chain == chain_now,
                self.pending_transactions == pending_now,
                self.difficulty == difficulty_now,
                self.mining_reward == old(self).mining_reward,
                self.save_path == old(self).save_path,
            decreases count - i,
        {
            let tx = &block.transactions[i];
            assert(payments[i as int] == (tx.receiver@, tx.amount as i64));
            assert(credit_fits(apply_payments(old_balances, payments.take(i as int)), payments[i as int].0, payments[i as int].1));
            self.balances.credit(&tx.receiver, #[verifier::truncate] (tx.amount as i64));
            assert(payments.take(i + 1).drop_last() =~= payments.take(i as int));
            i += 1;
        }
        assert(payments.take(count as int) =~= payments);
        proof {
            let h = (old(self).chain@.len() / 100) as u64;
            assert(50u64 >> h <= 50u64) by (bit_vector);
            lemma_payments_total_prepend((miner_address@, reward as i64), payments_of(old_pending));
            if forall|i: int| 0 <= i < old_pending.len() ==> #[trigger] old_pending[i].amount <= i64::MAX {
                lemma_payments_total_of(old_pending);
            }
        }
        self.mining_reward = reward;
        let copy = block.clone();
        self.chain.push(block);
        proof {
            let new_blocks = self.blocks();
            assert(new_blocks =~= old_blocks.push(copy@));
            if chain_valid(old_blocks, old_balances) && old_blocks[0].index == 0 && forall|i: int|
                0 <= i < old_pending.len() ==> verifies(#[trigger] old_pending[i]) {
                lemma_indices_count_up(old_blocks);
                let last = old_blocks.len() - 1;
                assert(old_blocks[last].index == last);
                let b = copy@;
                assert forall|k: int| 0 <= k < b.transactions.len() implies verifies(#[trigger] b.transactions[k]) by {
                    if k > 0 {
                        assert(b.transactions[k] == old_pending[k - 1]);
                    }
                }
                assert(block_follows(b, old_blocks[last]));
                assert forall|j: int| 1 <= j < new_blocks.len() implies #[trigger] block_follows(new_blocks[j], new_blocks[j - 1]) by {
                    if j < old_blocks.len() {
                        assert(block_follows(old_blocks[j], old_blocks[j - 1]));
                    }
                }
                assert(new_blocks.drop_last() =~= old_blocks);
            }
        }
        Some(copy)
    }

    /// Whether the difficulty adjustment can be made (see
    /// `adjustment_safe`).
    fn adjustment_is_safe(&self) -> (safe: bool)
        ensures
            safe == adjustment_safe(self.blocks(), self.difficulty),
    {
        let len = self.chain.len() as u64;
        if len < 2 || len % DIFFICULTY_ADJUST_INTERVAL != 0 {
            return true;
        }
        match self.adjustment_average() {
            None => false,
            Some(average) => {
                if average < TARGET_BLOCK_TIME / 2 {
                    self.difficulty < usize::MAX
                } else if average > TARGET_BLOCK_TIME * 2 {
                    self.difficulty > 0
                } else {
                    true
                }
            },
        }
    }

    /// Whether `mine_pending` can be called for this miner: the chain has a
    /// last block, the reward's shift stays below 64, the difficulty
    /// adjustment stays in range and asks for at most 64 zeros, and crediting the coinbase and the pending
    /// transfers keeps every balance within `i64`.
    pub fn can_mine(&self, miner_address: &str) -> (ok: bool)
        ensures
            ok == {
                &&& self.chain@.len() >= 1
                &&& self.chain@.len() / 100 < 64
                &&& adjustment_safe(self.blocks(), self.difficulty)
                &&& adjusted_difficulty(self.blocks(), self.difficulty) <= HASH_DIGITS
                &&& payments_fit(
                    self.balances.view(),
                    seq![(miner_address@, reward_for_length(self.chain@.len()) as i64)]
                        + payments_of(self.pending()),
                )
            },
    {
        let len = self.chain.len();
        if len < 1 || len / 100 >= 64 {
            return false;
        }
        if !self.adjustment_is_safe() {
            return false;
        }
        if self.next_difficulty() > HASH_DIGITS {
            return false;
        }
        let reward = self.current_reward();
        let miner = String::from_str(miner_address);
        let ghost start = self.balances.view();
        let ghost payments = seq![(miner_address@, reward as i64)] + payments_of(self.pending());
        let mut simulated = self.balances.clone();
        if !simulated.try_credit(&miner, #[verifier::truncate] (reward as i64)) {
            assert(payments.take(0) =~= Seq::<(Seq<char>, i64)>::empty());
            assert(apply_payments(start, payments.take(0)) == start);
            assert(!credit_fits(apply_payments(start, payments.take(0)), payments[0].0, payments[0].1));
            return false;
        }
        assert(payments.take(1).drop_last() =~= payments.take(0));
        assert(payments.take(0) =~= Seq::<(Seq<char>, i64)>::empty());
        assert(apply_payments(start, payments.take(0)) == start);
        assert(payments[0] == (miner@, reward as i64));
        assert(apply_payments(start, payments.take(1)) == credited(start, miner@, reward as i64));
        let count = self.pending_transactions.len();
        let mut j: usize = 0;
        while j < count
            invariant
                count == self.pending_transactions.len(),
                payments == seq![(miner_address@, reward as i64)] + payments_of(self.pending()),
                payments.len() == count + 1,
                reward == reward_for_length(self.chain@.len()),
                start == self.balances.view(),
                self.chain@.len() >= 1,
                self.chain@.len() / 100 < 64,
                adjustment_safe(self.blocks(), self.difficulty),
                j <= count,
                simulated.view() == apply_payments(start, payments.take(j + 1)),
                forall|k: int|
                    0 <= k < j + 1 ==> #[trigger] credit_fits(
                        apply_payments(start, payments.take(k)),
                        payments[k].0,
                        payments[k].1,
                    ),
            decreases count - j,
        {
            let tx = &self.pending_transactions[j];
            assert(payments[j + 1] == (tx.receiver@, tx.amount as i64));
            if !simulated.try_credit(&tx.receiver, #[verifier::truncate] (tx.amount as i64)) {
                assert(!credit_fits(
                    apply_payments(start, payments.take(j + 1)),
                    payments[j + 1].0,
                    payments[j + 1].1,
                ));
                return false;
            }
            assert(payments.take(j + 2).drop_last() =~= payments.take(j + 1));
            j += 1;
        }
        true
    }

    /// Whether `is_valid` can be called: checking the links never reaches a
    /// predecessor with index `u64::MAX`, and, when every block follows its
    /// predecessor, recomputing the balances never leaves `i64`.
    pub fn can_validate(&self) -> (ok: bool)
        ensures
            ok == (links_checkable(self.blocks()) && (all_blocks_follow(self.blocks())
                ==> chain_credits_fit(self.blocks()))),
    {
        let ghost blocks = self.blocks();
        let count = self.chain.len();
        let mut i: usize = 1;
        while i < count
            invariant
                count == self.chain.len(),
                blocks == self.blocks(),
                1 <= i,
                count == 0 || i <= count,
                blocks_follow_upto(blocks, i as int),
                forall|k: int| 0 <= k < i - 1 ==> #[trigger] blocks[k].index < u64::MAX,
            decreases count - i,
        {
            if self.chain[i - 1].index == u64::MAX {
                assert(!links_checkable(blocks)) by {
                    assert(blocks_follow_upto(blocks, i as int));
                }
                return false;
            }
            if !self.chain[i].is_valid(&self.chain[i - 1]) {
                assert(!all_blocks_follow(blocks)) by {
                    assert(!block_follows(blocks[i as int], blocks[i - 1]));
                }
                assert forall|k: int|
                    1 <= k < blocks.len() && #[trigger] blocks_follow_upto(blocks, k) implies blocks[k
                    - 1].index < u64::MAX by {
                    if k > i {
                        assert(block_follows(blocks[i as int], blocks[i - 1]));
                    }
                }
                return true;
            }
            i += 1;
        }
        assert(all_blocks_follow(blocks));
        assert forall|k: int|
            1 <= k < blocks.len() && #[trigger] blocks_follow_upto(blocks, k) implies blocks[k
            - 1].index < u64::MAX by {}
        let mut computed = Balances::new();
        let mut b: usize = 0;
        while b < count
            invariant
                count == self.chain.len(),
                blocks == self.blocks(),
                all_blocks_follow(blocks),
                links_checkable(blocks),
                b <= count,
                computed.view() == chain_credits(blocks.take(b as int)),
                forall|c: int|
                    0 <= c < b ==> #[trigger] payments_fit(
                        chain_credits(blocks.take(c)),
                        block_payments(blocks[c]),
                    ),
            decreases count - b,
        {
            let txs = &self.chain[b].transactions;
            let ghost payments = block_payments(blocks[b as int]);
            let ghost start = computed.view();
            let tx_count = txs.len();
            let mut t: usize = 0;
            while t < tx_count
                invariant
                    tx_count == txs.len(),
                    payments == block_payments(blocks[b as int]),
                    payments.len() == tx_count,
                    *txs == self.chain@[b as int].transactions,
                    blocks == self.blocks(),
                    b < count,
                    count == self.chain.len(),
                    start == chain_credits(blocks.take(b as int)),
                    all_blocks_follow(blocks),
                    links_checkable(blocks),
                    t <= tx_count,
                    computed.view() == apply_payments(start, payments.take(t as int)),
                    forall|k: int|
                        0 <= k < t ==> #[trigger] credit_fits(
                            apply_payments(start, payments.take(k)),
                            payments[k].0,
                            payments[k].1,
                        ),
                decreases tx_count - t,
            {
                let tx = &txs[t];
                assert(payments[t as int] == (tx.receiver@, tx.amount as i64));
                if !computed.try_credit(&tx.receiver, #[verifier::truncate] (tx.amount as i64)) {
                    assert(!payments_fit(start, payments)) by {
                        assert(!credit_fits(
                            apply_payments(start, payments.take(t as int)),
                            payments[t as int].0,
                            payments[t as int].1,
                        ));
                    }
                    assert(!chain_credits_fit(blocks)) by {
                        assert(!payments_fit(chain_credits(blocks.take(b as int)), block_payments(blocks[b as int])));
                    }
                    return false;
                }
                assert(payments.take(t + 1).drop_last() =~= payments.take(t as int));
                t += 1;
            }
            assert(payments.take(tx_count as int) =~= payments);
            assert(payments_fit(start, payments));
            assert(blocks.take(b + 1).drop_last() =~= blocks.take(b as int));
            b += 1;
        }
        true
    }

    /// Whether a transaction, if accepted, can be reserved (see
    /// `reservation_possible`).
    fn reservation_is_possible(&self, tx: &Transaction) -> (ok: bool)
        ensures
            ok == reservation_possible(self.balances.view(), tx@),
    {
        if tx.sender == coinbase_label() || tx.amount == 0 || !tx.verify() {
            return true;
        }
        let amount = #[verifier::truncate] (tx.amount as i64);
        match self.balances.get(&tx.sender) {
            None => 0 < amount,
            Some(balance) => {
                if balance < amount {
                    true
                } else {
                    balance.checked_sub(amount).is_some()
                }
            },
        }
    }

    /// `add_transaction` where the amount of an accepted transaction can be
    /// reserved; `None`, with nothing changed, where it cannot (the sender
    /// has no balance, or the subtraction would overflow).
    pub fn try_add_transaction(&mut self, tx: Transaction) -> (result: Option<Result<(), String>>)
        ensures
            final(self).chain == old(self).chain,
            final(self).difficulty == old(self).difficulty,
            final(self).mining_reward == old(self).mining_reward,
            final(self).save_path == old(self).save_path,
            result is None <==> !reservation_possible(old(self).balances.view(), tx@),
            result is None ==> {
                &&& final(self).pending_transactions == old(self).pending_transactions
                &&& final(self).balances == old(self).balances
            },
            result matches Some(Ok(())) ==> {
                &&& rejection(old(self).balances.view(), tx@) is None
                &&& final(self).pending_transactions@ == old(self).pending_transactions@.push(tx)
                &&& final(self).balances.view() == old(self).balances.view().insert(
                    tx@.sender,
                    (old(self).balances.view()[tx@.sender] - (tx.amount as i64)) as i64,
                )
            },
            result matches Some(Err(message)) ==> {
                &&& rejection(old(self).balances.view(), tx@) == Some(message@)
                &&& final(self).pending_transactions == old(self).pending_transactions
                &&& final(self).balances == old(self).balances
            },
            tx.amount <= i64::MAX ==> final(self).balances.total() + amounts_total(final(self).pending())
                == old(self).balances.total() + amounts_total(old(self).pending()),
    {
        if self.reservation_is_possible(&tx) {
            Some(self.add_transaction(tx))
        } else {
            None
        }
    }
}

} // verus!
