//! Transactions: a transfer of an amount from a sender address to a receiver
//! address, stamped with a time and signed by the sender's wallet. Coinbase
//! transactions pay mining rewards and carry no signature.

use crate::clock::current_unix_time;
use crate::crypto::{ed25519_signature, sha256, sha256_digest};
use crate::encoding::{
    decimal_digits, decimal_signed, hex_decode, hex_decode_text, hex_encode, hex_lower,
    lemma_decimal_digits_injective, lemma_decimal_lacks_colon, lemma_decimal_signed_injective,
    lemma_hex_lower_shape, lemma_hex_round_trip, lemma_split_at_separator, lemma_utf8_injective,
    lemma_utf8_lacks_colon, push_decimal, push_decimal_signed, push_utf8,
};
use crate::wallet::{signature_valid, Wallet};
use vstd::prelude::*;
use vstd::string::StringExecFns;
use vstd::utf8::encode_utf8;

verus! {

/// ASCII code of `:`, the separator of the signed fields.
pub const FIELD_SEPARATOR: u8 = 58;

/// The sender of every coinbase transaction.
pub open spec fn coinbase_sender() -> Seq<char> {
    seq!['C', 'O', 'I', 'N', 'B', 'A', 'S', 'E']
}

/// The mathematical value of a transaction.
pub struct TransactionView {
    pub sender: Seq<char>,
    pub receiver: Seq<char>,
    pub amount: u64,
    pub timestamp: i64,
    pub signature: Seq<u8>,
}

/// The bytes a sender signs: `sender:receiver:amount:timestamp`, the numbers
/// in decimal.
pub open spec fn sign_data_of(tx: TransactionView) -> Seq<u8> {
    encode_utf8(tx.sender) + seq![FIELD_SEPARATOR] + encode_utf8(tx.receiver) + seq![
        FIELD_SEPARATOR,
    ] + decimal_digits(tx.amount as nat) + seq![FIELD_SEPARATOR] + decimal_signed(
        tx.timestamp as int,
    )
}

/// Whether a transaction is authentic: a coinbase transaction always is;
/// any other must have a sender that is hexadecimal text of a public key
/// under which its signature of the signed bytes is valid.
pub open spec fn verifies(tx: TransactionView) -> bool {
    ||| tx.sender == coinbase_sender()
    ||| match hex_decode(encode_utf8(tx.sender)) {
        Some(public) => signature_valid(public, sign_data_of(tx), tx.signature),
        None => false,
    }
}

/// The identifier of a transaction: the SHA-256 digest of the signed bytes
/// followed by the signature, in lower-case hexadecimal.
pub open spec fn id_of(tx: TransactionView) -> Seq<char> {
    hex_lower(sha256(sign_data_of(tx) + tx.signature))
}

/// The signed bytes determine sender, receiver, amount and time, as long as
/// sender and receiver hold no `:`: two such transactions sign the same bytes
/// exactly when those four fields agree.
pub proof fn lemma_sign_data_injective(first: TransactionView, second: TransactionView)
    requires
        !first.sender.contains(':'),
        !first.receiver.contains(':'),
        !second.sender.contains(':'),
        !second.receiver.contains(':'),
    ensures
        sign_data_of(first) == sign_data_of(second) <==> (first.sender == second.sender
            && first.receiver == second.receiver && first.amount == second.amount
            && first.timestamp == second.timestamp),
{
    if sign_data_of(first) == sign_data_of(second) {
        let sep = seq![FIELD_SEPARATOR];
        let numbers1 = decimal_digits(first.amount as nat) + sep + decimal_signed(first.timestamp as int);
        let numbers2 = decimal_digits(second.amount as nat) + sep + decimal_signed(second.timestamp as int);
        let tail1 = encode_utf8(first.receiver) + sep + numbers1;
        let tail2 = encode_utf8(second.receiver) + sep + numbers2;
        assert(sign_data_of(first) =~= encode_utf8(first.sender) + sep + tail1);
        assert(sign_data_of(second) =~= encode_utf8(second.sender) + sep + tail2);
        lemma_utf8_lacks_colon(first.sender);
        lemma_utf8_lacks_colon(second.sender);
        lemma_split_at_separator(encode_utf8(first.sender), tail1, encode_utf8(second.sender), tail2, FIELD_SEPARATOR);
        lemma_utf8_injective(first.sender, second.sender);
        lemma_utf8_lacks_colon(first.receiver);
        lemma_utf8_lacks_colon(second.receiver);
        lemma_split_at_separator(encode_utf8(first.receiver), numbers1, encode_utf8(second.receiver), numbers2, FIELD_SEPARATOR);
        lemma_utf8_injective(first.receiver, second.receiver);
        lemma_decimal_lacks_colon(first.amount as nat);
        lemma_decimal_lacks_colon(second.amount as nat);
        lemma_split_at_separator(
            decimal_digits(first.amount as nat),
            decimal_signed(first.timestamp as int),
            decimal_digits(second.amount as nat),
            decimal_signed(second.timestamp as int),
            FIELD_SEPARATOR,
        );
        lemma_decimal_digits_injective(first.amount as nat, second.amount as nat);
        lemma_decimal_signed_injective(first.timestamp as int, second.timestamp as int);
    }
}

/// A transfer between two addresses.
#[derive(Debug)]
pub struct Transaction {
    pub sender: String,
    pub receiver: String,
    pub amount: u64,
    pub timestamp: i64,
    pub signature: Vec<u8>,
}

impl View for Transaction {
    type V = TransactionView;

    open spec fn view(&self) -> TransactionView {
        TransactionView {
            sender: self.sender@,
            receiver: self.receiver@,
            amount: self.amount,
            timestamp: self.timestamp,
            signature: self.signature@,
        }
    }
}

impl Clone for Transaction {
    fn clone(&self) -> (copy: Self)
        ensures
            copy@ == self@,
    {
        let signature = self.signature.clone();
        assert(signature@ =~= self.signature@);
        Transaction {
            sender: self.sender.clone(),
            receiver: self.receiver.clone(),
            amount: self.amount,
            timestamp: self.timestamp,
            signature,
        }
    }
}

/// The text `COINBASE`.
pub fn coinbase_label() -> (label: String)
    ensures
        label@ == coinbase_sender(),
{
    let label = String::from_str("COINBASE");
    proof {
        reveal_strlit("COINBASE");
    }
    assert(label@ =~= coinbase_sender());
    label
}

impl Transaction {
    /// An unsigned transfer stamped with the current time (see `new_at`).
    pub fn new(sender: String, receiver: String, amount: u64) -> (tx: Self)
        ensures
            tx.sender == sender,
            tx.receiver == receiver,
            tx.amount == amount,
            tx.signature@ == Seq::<u8>::empty(),
    {
        let now = current_unix_time();
        Transaction::new_at(sender, receiver, amount, now)
    }

    /// An unsigned transfer stamped with the time `timestamp`.
    pub fn new_at(sender: String, receiver: String, amount: u64, timestamp: i64) -> (tx: Self)
        ensures
            tx.sender == sender,
            tx.receiver == receiver,
            tx.amount == amount,
            tx.timestamp == timestamp,
            tx.signature@ == Seq::<u8>::empty(),
    {
        Transaction { sender, receiver, amount, timestamp, signature: Vec::new() }
    }

    /// A coinbase transaction paying `amount` to `receiver`, stamped with the
    /// current time and unsigned (see `coinbase_at`).
    pub fn coinbase(receiver: String, amount: u64) -> (tx: Self)
        ensures
            tx.sender@ == coinbase_sender(),
            tx.receiver == receiver,
            tx.amount == amount,
            tx.signature@ == Seq::<u8>::empty(),
    {
        let now = current_unix_time();
        Transaction::coinbase_at(receiver, amount, now)
    }

    /// A coinbase transaction paying `amount` to `receiver`, stamped with the
    /// time `timestamp` and unsigned.
    pub fn coinbase_at(receiver: String, amount: u64, timestamp: i64) -> (tx: Self)
        ensures
            tx.sender@ == coinbase_sender(),
            tx.receiver == receiver,
            tx.amount == amount,
            tx.timestamp == timestamp,
            tx.signature@ == Seq::<u8>::empty(),
    {
        Transaction { sender: coinbase_label(), receiver, amount, timestamp, signature: Vec::new() }
    }

    /// The bytes the sender signs: `sender:receiver:amount:timestamp`.
    pub fn sign_data(&self) -> (data: Vec<u8>)
        ensures
            data@ == sign_data_of(self@),
    {
        let mut data: Vec<u8> = Vec::new();
        push_utf8(&mut data, &self.sender);
        data.push(FIELD_SEPARATOR);
        push_utf8(&mut data, &self.receiver);
        data.push(FIELD_SEPARATOR);
        push_decimal(&mut data, self.amount);
        data.push(FIELD_SEPARATOR);
        push_decimal_signed(&mut data, self.timestamp);
        assert(data@ =~= sign_data_of(self@));
        data
    }

    /// Signs the transaction with a wallet: the signature becomes the
    /// wallet's signature of the signed bytes, and nothing else changes.
    /// When the sender is the wallet's address and the wallet's keys belong
    /// together, the signed transaction verifies.
    pub fn sign(&mut self, wallet: &Wallet)
        ensures
            final(self).sender == old(self).sender,
            final(self).receiver == old(self).receiver,
            final(self).amount == old(self).amount,
            final(self).timestamp == old(self).timestamp,
            final(self).signature@ == ed25519_signature(wallet.secret_view(), sign_data_of(old(self)@)),
            wallet.keys_match() && old(self).sender@ == wallet.address_view() ==> verifies(
                final(self)@,
            ),
    {
        let data = self.sign_data();
        let signature = wallet.sign(data.as_slice());
        self.signature = signature;
        proof {
            if wallet.keys_match() && self.sender@ == wallet.address_view() {
                let public = wallet.public_view();
                lemma_hex_lower_shape(public);
                lemma_hex_round_trip(public);
                assert(sign_data_of(self@) == sign_data_of(old(self)@));
                assert(hex_decode(encode_utf8(self.sender@)) == Some(public));
            }
        }
    }

    /// Whether the transaction is authentic (see `verifies`).
    pub fn verify(&self) -> (ok: bool)
        ensures
            ok == verifies(self@),
    {
        let label = coinbase_label();
        if self.sender == label {
            return true;
        }
        match hex_decode_text(self.sender.as_str().as_bytes()) {
            Some(public) => {
                let data = self.sign_data();
                Wallet::verify(public.as_slice(), data.as_slice(), self.signature.as_slice())
            },
            None => false,
        }
    }

    /// The transaction's identifier (see `id_of`).
    pub fn id(&self) -> (id: String)
        ensures
            id@ == id_of(self@),
            id@.len() == 64,
    {
        let mut data = self.sign_data();
        data.extend_from_slice(self.signature.as_slice());
        assert(data@ =~= sign_data_of(self@) + self.signature@);
        let digest = sha256_digest(data.as_slice());
        proof {
            lemma_hex_lower_shape(digest@);
        }
        hex_encode(digest.as_slice())
    }
}

} // verus!
