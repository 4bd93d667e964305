//! Blocks: a batch of transactions, linked to the previous block by its
//! hash and sealed by proof of work. A block's hash is the SHA-256 digest,
//! in hexadecimal, of its fields written one after the other; it must begin
//! with as many `0` digits as the block's difficulty.

use crate::clock::current_unix_time;
use crate::crypto::{sha256, sha256_digest};
use crate::encoding::{
    decimal_digits, decimal_signed, hex_encode, hex_lower, lemma_hex_lower_shape, push_decimal,
    push_decimal_signed, push_utf8, ZERO_DIGIT,
};
use crate::transaction::{id_of, verifies, Transaction, TransactionView};
use vstd::prelude::*;
use vstd::utf8::encode_utf8;

verus! {

/// Number of hexadecimal digits of a block hash, the most zeros a
/// difficulty can ask for.
pub const HASH_DIGITS: usize = 64;

/// The mathematical value of a block.
pub struct BlockView {
    pub index: u64,
    pub timestamp: i64,
    pub transactions: Seq<TransactionView>,
    pub miner: Seq<char>,
    pub previous_hash: Seq<char>,
    pub hash: Seq<char>,
    pub nonce: u64,
    pub difficulty: usize,
}

/// The views of a sequence of transactions.
pub open spec fn transaction_views(txs: Seq<Transaction>) -> Seq<TransactionView> {
    txs.map_values(|t: Transaction| t@)
}

/// The identifiers of the transactions, as bytes, one after the other.
pub open spec fn ids_bytes(txs: Seq<TransactionView>) -> Seq<u8>
    decreases txs.len(),
{
    if txs.len() == 0 {
        seq![]
    } else {
        ids_bytes(txs.drop_last()) + encode_utf8(id_of(txs.last()))
    }
}

/// The digest of a block's transactions: SHA-256 of their identifiers, in
/// hexadecimal.
pub open spec fn transactions_hash_of(txs: Seq<TransactionView>) -> Seq<char> {
    hex_lower(sha256(ids_bytes(txs)))
}

/// The bytes hashed to seal a block with a given nonce: index, timestamp,
/// transactions digest, miner, previous hash, nonce and difficulty, the
/// numbers in decimal, with nothing between them.
pub open spec fn hash_input(b: BlockView, nonce: u64) -> Seq<u8> {
    decimal_digits(b.index as nat) + decimal_signed(b.timestamp as int) + encode_utf8(
        transactions_hash_of(b.transactions),
    ) + encode_utf8(b.miner) + encode_utf8(b.previous_hash) + decimal_digits(nonce as nat)
        + decimal_digits(b.difficulty as nat)
}

/// The hash a block has with a given nonce.
pub open spec fn hash_with_nonce(b: BlockView, nonce: u64) -> Seq<char> {
    hex_lower(sha256(hash_input(b, nonce)))
}

/// The hash a block should carry: the one for its own nonce.
pub open spec fn calculated_hash(b: BlockView) -> Seq<char> {
    hash_with_nonce(b, b.nonce)
}

/// Whether a hash begins with `difficulty` zero digits (compared byte by
/// byte on its UTF-8 text).
pub open spec fn meets_difficulty(hash: Seq<char>, difficulty: usize) -> bool {
    let bytes = encode_utf8(hash);
    &&& difficulty <= bytes.len()
    &&& forall|i: int| 0 <= i < difficulty ==> bytes[i] == ZERO_DIGIT
}

/// Whether a nonce seals the block at its difficulty.
pub open spec fn nonce_works(b: BlockView, nonce: u64) -> bool {
    meets_difficulty(hash_with_nonce(b, nonce), b.difficulty)
}

/// Whether a block validly follows `previous`: the next index, a link to the
/// previous hash, a hash with enough leading zeros, authentic transactions,
/// and a hash that matches the block's content.
pub open spec fn block_follows(b: BlockView, previous: BlockView) -> bool {
    &&& b.index == previous.index + 1
    &&& b.previous_hash == previous.hash
    &&& meets_difficulty(b.hash, b.difficulty)
    &&& forall|i: int| 0 <= i < b.transactions.len() ==> verifies(#[trigger] b.transactions[i])
    &&& b.hash == calculated_hash(b)
}

/// The fields of a block before it is mined (its nonce and hash play no
/// part in which nonces work).
pub open spec fn unmined(
    index: u64,
    timestamp: i64,
    transactions: Seq<TransactionView>,
    miner: Seq<char>,
    previous_hash: Seq<char>,
    difficulty: usize,
) -> BlockView {
    BlockView {
        index,
        timestamp,
        transactions,
        miner,
        previous_hash,
        hash: Seq::empty(),
        nonce: 0,
        difficulty,
    }
}

/// Whether no nonce at all seals the block at its difficulty.
pub open spec fn unsealable(b: BlockView) -> bool {
    forall|n: u64| !nonce_works(b, n)
}

/// Whether `b` is sealed by the least nonce that works: its hash is the one
/// for its nonce, that nonce works, and no smaller one does.
pub open spec fn sealed_by_least_nonce(b: BlockView) -> bool {
    &&& b.hash == calculated_hash(b)
    &&& nonce_works(b, b.nonce)
    &&& forall|n: u64| n < b.nonce ==> !nonce_works(b, n)
}

/// A block of the chain.
#[derive(Debug)]
pub struct Block {
    pub index: u64,
    pub timestamp: i64,
    pub transactions: Vec<Transaction>,
    pub miner: String,
    pub previous_hash: String,
    pub hash: String,
    pub nonce: u64,
    pub difficulty: usize,
}

impl View for Block {
    type V = BlockView;

    open spec fn view(&self) -> BlockView {
        BlockView {
            index: self.index,
            timestamp: self.timestamp,
            transactions: transaction_views(self.transactions@),
            miner: self.miner@,
            previous_hash: self.previous_hash@,
            hash: self.hash@,
            nonce: self.nonce,
            difficulty: self.difficulty,
        }
    }
}

impl Clone for Block {
    fn clone(&self) -> (copy: Self)
        ensures
            copy@ == self@,
    {
        let transactions = self.transactions.clone();
        assert(transaction_views(transactions@) =~= transaction_views(self.transactions@)) by {
            assert forall|i: int| 0 <= i < transactions@.len() implies transactions@[i]@
                == self.transactions@[i]@ by {
                assert(cloned::<Transaction>(self.transactions[i], transactions[i]));
            }
        }
        Block {
            index: self.index,
            timestamp: self.timestamp,
            transactions,
            miner: self.miner.clone(),
            previous_hash: self.previous_hash.clone(),
            hash: self.hash.clone(),
            nonce: self.nonce,
            difficulty: self.difficulty,
        }
    }
}

/// Whether the text begins with `count` zero digits.
fn has_zero_prefix(hash: &String, count: usize) -> (ok: bool)
    ensures
        ok == meets_difficulty(hash@, count),
{
    let bytes = hash.as_str().as_bytes();
    if count > bytes.len() {
        return false;
    }
    let mut i: usize = 0;
    while i < count
        invariant
            count <= bytes@.len(),
            bytes@ == encode_utf8(hash@),
            i <= count,
            forall|j: int| 0 <= j < i ==> bytes@[j] == ZERO_DIGIT,
        decreases count - i,
    {
        if bytes[i] != ZERO_DIGIT {
            return false;
        }
        i += 1;
    }
    true
}

impl Block {
    /// The digest of the block's transactions: SHA-256 of their identifiers
    /// one after the other (what feeding them to one hasher in turn gives).
    fn transactions_hash(&self) -> (hash: String)
        ensures
            hash@ == transactions_hash_of(self@.transactions),
    {
        let ghost txs = self@.transactions;
        let mut data: Vec<u8> = Vec::new();
        let count = self.transactions.len();
        let mut i: usize = 0;
        while i < count
            invariant
                count == self.transactions.len(),
                txs == self@.transactions,
                i <= count,
                data@ == ids_bytes(txs.take(i as int)),
            decreases count - i,
        {
            let id = self.transactions[i].id();
            push_utf8(&mut data, &id);
            assert(txs.take(i + 1).drop_last() =~= txs.take(i as int));
            i += 1;
        }
        assert(txs.take(count as int) =~= txs);
        let digest = sha256_digest(data.as_slice());
        hex_encode(digest.as_slice())
    }

    /// The hash the block has with `nonce`, given the digest of its
    /// transactions.
    fn hash_for(&self, transactions_hash: &String, nonce: u64) -> (hash: String)
        requires
            transactions_hash@ == transactions_hash_of(self@.transactions),
        ensures
            hash@ == hash_with_nonce(self@, nonce),
            hash@.len() == HASH_DIGITS,
            encode_utf8(hash@).len() == HASH_DIGITS,
    {
        let mut data: Vec<u8> = Vec::new();
        push_decimal(&mut data, self.index);
        push_decimal_signed(&mut data, self.timestamp);
        push_utf8(&mut data, transactions_hash);
        push_utf8(&mut data, &self.miner);
        push_utf8(&mut data, &self.previous_hash);
        push_decimal(&mut data, nonce);
        push_decimal(&mut data, self.difficulty as u64);
        assert(data@ =~= hash_input(self@, nonce));
        let digest = sha256_digest(data.as_slice());
        proof {
            lemma_hex_lower_shape(digest@);
        }
        hex_encode(digest.as_slice())
    }

    /// The hash the block should carry for its content and nonce: 64
    /// lower-case hexadecimal digits.
    pub fn calculate_hash(&self) -> (hash: String)
        ensures
            hash@ == calculated_hash(self@),
            hash@.len() == HASH_DIGITS,
    {
        let transactions_hash = self.transactions_hash();
        self.hash_for(&transactions_hash, self.nonce)
    }

    /// Proof of work: tries nonces upward from the current one until the
    /// hash begins with `difficulty` zero digits, storing each hash tried.
    /// Returns whether a nonce was found; if none up to `u64::MAX` works,
    /// returns false with the last one tried. A hash has 64 digits, so a
    /// difficulty above 64 could never be met: the search would not end.
    pub fn mine(&mut self) -> (found: bool)
        requires
            old(self).difficulty <= HASH_DIGITS,
        ensures
            final(self).index == old(self).index,
            final(self).timestamp == old(self).timestamp,
            final(self).transactions == old(self).transactions,
            final(self).miner == old(self).miner,
            final(self).previous_hash == old(self).previous_hash,
            final(self).difficulty == old(self).difficulty,
            old(self).nonce <= final(self).nonce,
            final(self).hash@ == calculated_hash(final(self)@),
            found == nonce_works(final(self)@, final(self).nonce),
            found || final(self).nonce == u64::MAX,
            forall|n: u64|
                old(self).nonce <= n < final(self).nonce ==> !nonce_works(old(self)@, n),
    {
        let transactions_hash = self.transactions_hash();
        let ghost start = self@;
        loop
            invariant
                self.index == old(self).index,
                self.timestamp == old(self).timestamp,
                self.transactions == old(self).transactions,
                self.miner == old(self).miner,
                self.previous_hash == old(self).previous_hash,
                self.difficulty == old(self).difficulty,
                start == old(self)@,
                transactions_hash@ == transactions_hash_of(self@.transactions),
                old(self).nonce <= self.nonce,
                forall|n: u64| old(self).nonce <= n < self.nonce ==> !nonce_works(start, n),
            decreases u64::MAX - self.nonce,
        {
            let hash = self.hash_for(&transactions_hash, self.nonce);
            let ok = has_zero_prefix(&hash, self.difficulty);
            self.hash = hash;
            assert(hash_with_nonce(self@, self.nonce) == hash_with_nonce(start, self.nonce));
            if ok {
                return true;
            }
            if self.nonce == u64::MAX {
                return false;
            }
            self.nonce = self.nonce + 1;
        }
    }

    /// Mines a block with the given content and time: the block with the
    /// least nonce that works, or `None` when no nonce does.
    pub fn mined_at(
        index: u64,
        timestamp: i64,
        transactions: Vec<Transaction>,
        miner: String,
        previous_hash: String,
        difficulty: usize,
    ) -> (block: Option<Block>)
        requires
            difficulty <= HASH_DIGITS,
        ensures
            block matches Some(b) ==> {
                &&& b.index == index
                &&& b.timestamp == timestamp
                &&& b.transactions == transactions
                &&& b.miner == miner
                &&& b.previous_hash == previous_hash
                &&& b.difficulty == difficulty
                &&& sealed_by_least_nonce(b@)
            },
            block is None ==> unsealable(
                unmined(
                    index,
                    timestamp,
                    transaction_views(transactions@),
                    miner@,
                    previous_hash@,
                    difficulty,
                ),
            ),
    {
        let mut block = Block {
            index,
            timestamp,
            transactions,
            miner,
            previous_hash,
            hash: String::new(),
            nonce: 0,
            difficulty,
        };
        let ghost start = block@;
        if block.mine() {
            assert forall|n: u64| n < block.nonce implies !nonce_works(block@, n) by {
                assert(hash_with_nonce(block@, n) == hash_with_nonce(start, n));
                assert(!nonce_works(start, n));
            }
            Some(block)
        } else {
            assert forall|n: u64|
                !nonce_works(
                    unmined(
                        index,
                        timestamp,
                        transaction_views(block.transactions@),
                        block.miner@,
                        block.previous_hash@,
                        difficulty,
                    ),
                    n,
                ) by {
                assert(hash_with_nonce(
                    unmined(
                        index,
                        timestamp,
                        transaction_views(block.transactions@),
                        block.miner@,
                        block.previous_hash@,
                        difficulty,
                    ),
                    n,
                ) == hash_with_nonce(start, n));
                if n == u64::MAX {
                    assert(hash_with_nonce(block@, n) == hash_with_nonce(start, n));
                }
            }
            None
        }
    }

    /// Mines a block stamped with the current time (see `mined_at`); `None`
    /// when no nonce seals it at that time.
    pub fn new(
        index: u64,
        transactions: Vec<Transaction>,
        miner: String,
        previous_hash: String,
        difficulty: usize,
    ) -> (block: Option<Block>)
        requires
            difficulty <= HASH_DIGITS,
        ensures
            block matches Some(b) ==> {
                &&& b.index == index
                &&& b.transactions == transactions
                &&& b.miner == miner
                &&& b.previous_hash == previous_hash
                &&& b.difficulty == difficulty
                &&& sealed_by_least_nonce(b@)
            },
            block is None ==> exists|timestamp: i64|
                #[trigger] unsealable(
                    unmined(
                        index,
                        timestamp,
                        transaction_views(transactions@),
                        miner@,
                        previous_hash@,
                        difficulty,
                    ),
                ),
    {
        let timestamp = current_unix_time();
        let ghost candidate = unmined(
            index,
            timestamp,
            transaction_views(transactions@),
            miner@,
            previous_hash@,
            difficulty,
        );
        let block = Block::mined_at(index, timestamp, transactions, miner, previous_hash, difficulty);
        assert(block is None ==> unsealable(candidate));
        block
    }

    /// Whether the block validly follows `previous_block` (see
    /// `block_follows`).
    pub fn is_valid(&self, previous_block: &Block) -> (ok: bool)
        requires
            previous_block.index < u64::MAX,
        ensures
            ok == block_follows(self@, previous_block@),
    {
        if self.index != previous_block.index + 1 {
            return false;
        }
        if self.previous_hash != previous_block.hash {
            return false;
        }
        if !has_zero_prefix(&self.hash, self.difficulty) {
            return false;
        }
        let count = self.transactions.len();
        let mut i: usize = 0;
        while i < count
            invariant
                count == self.transactions.len(),
                i <= count,
                forall|j: int| 0 <= j < i ==> verifies(#[trigger] self@.transactions[j]),
            decreases count - i,
        {
            if !self.transactions[i].verify() {
                assert(!verifies(self@.transactions[i as int]));
                return false;
            }
            i += 1;
        }
        let expected = self.calculate_hash();
        self.hash == expected
    }
}


/// Each transaction's identifier, as bytes.
pub open spec fn id_texts(txs: Seq<TransactionView>) -> Seq<Seq<u8>> {
    txs.map_values(|t: TransactionView| encode_utf8(id_of(t)))
}

/// The transactions digest commits to every transaction, in order: it is
/// the SHA-256 digest of all their identifiers joined end to end, and
/// appending a transaction appends its identifier to what is hashed.
pub proof fn lemma_transactions_digest_covers_every_id(txs: Seq<TransactionView>, next: TransactionView)
    ensures
        ids_bytes(txs) == id_texts(txs).flatten(),
        transactions_hash_of(txs) == hex_lower(sha256(id_texts(txs).flatten())),
        ids_bytes(txs.push(next)) == ids_bytes(txs) + encode_utf8(id_of(next)),
    decreases txs.len(),
{
    broadcast use Seq::lemma_flatten_push;
    if txs.len() == 0 {
        assert(id_texts(txs) =~= Seq::<Seq<u8>>::empty());
    } else {
        lemma_transactions_digest_covers_every_id(txs.drop_last(), txs.last());
        assert(id_texts(txs) =~= id_texts(txs.drop_last()).push(encode_utf8(id_of(txs.last()))));
    }
    assert(txs.push(next).drop_last() =~= txs);
}

/// A block that validly follows another holds only authentic transactions:
/// one transaction that does not verify, wherever it stands, makes the
/// block invalid.
pub proof fn lemma_valid_block_has_only_authentic_transactions(
    b: BlockView,
    previous: BlockView,
    i: int,
)
    requires
        0 <= i < b.transactions.len(),
        !verifies(b.transactions[i]),
    ensures
        !block_follows(b, previous),
{
}

} // verus!
