//! Accounts: holders of a spendable balance and a monotonic nonce.

use vstd::prelude::*;

verus! {

use crate::coder;
use crate::coder::{
    u64_le, u64_from_le, digest_of, lemma_u64_le_from_le,
};
use crate::transaction::{Transaction, tx_hash_ok};
use crate::ChainError;

/// The mathematical value of an account.
#[verifier::ext_equal]
pub ghost struct AccountView {
    pub nonce: u64,
    pub balance: u64,
    pub address: Seq<u8>,
    pub hash: Seq<u8>,
    pub private: Seq<u8>,
}

#[derive(Debug)]
pub struct Account {
    pub nonce: u64,
    /// Spendable funds.
    pub balance: u64,
    pub address: [u8; 32],
    pub hash: [u8; 32],
    /// Private key; never leaves the account.
    private: [u8; 32],
}

impl View for Account {
    type V = AccountView;

    closed spec fn view(&self) -> AccountView {
        AccountView {
            nonce: self.nonce,
            balance: self.balance,
            address: self.address@,
            hash: self.hash@,
            private: self.private@,
        }
    }
}

/// The digest fields of a view have their fixed width.
pub open spec fn wf_account_view(a: AccountView) -> bool {
    a.address.len() == 32 && a.hash.len() == 32 && a.private.len() == 32
}

/// Canonical encoding of the hash-covered fields: everything but `hash`.
pub open spec fn enc_account_core(a: AccountView) -> Seq<u8> {
    u64_le(a.nonce) + u64_le(a.balance) + a.address + a.private
}

/// An account's hash commits to all its other fields.
pub open spec fn account_hash_ok(a: AccountView) -> bool {
    a.hash == digest_of(enc_account_core(a))
}

/// Canonical encoding of a full account record, `hash` included.
pub open spec fn enc_account(a: AccountView) -> Seq<u8> {
    u64_le(a.nonce) + u64_le(a.balance) + a.address + a.hash + a.private
}

impl Account {
    /// A fresh account: zero balance, zero nonce, hash computed.
    pub fn new(address: [u8; 32], private: [u8; 32]) -> (account: Account)
        ensures
            account@.nonce == 0,
            account@.balance == 0,
            account@.address == address@,
            account@.private == private@,
            account_hash_ok(account@),
    {
        let mut account = Account { nonce: 0, balance: 0, address, hash: [0u8; 32], private };
        account.set_hash();
        account
    }

    /// Encodes the hash-covered fields.
    fn encode_core(&self) -> (r: Vec<u8>)
        ensures
            r@ =~= enc_account_core(self@),
    {
        let mut v: Vec<u8> = Vec::new();
        coder::push_u64_le(&mut v, self.nonce);
        coder::push_u64_le(&mut v, self.balance);
        coder::push_bytes32(&mut v, &self.address);
        coder::push_bytes32(&mut v, &self.private);
        v
    }

    /// Recomputes `hash` from the other fields, which stay as they are.
    fn set_hash(&mut self)
        ensures
            final(self).hash@ == digest_of(enc_account_core(old(self)@)),
            final(self).nonce == old(self).nonce,
            final(self).balance == old(self).balance,
            final(self).address == old(self).address,
            final(self)@.private == old(self)@.private,
            account_hash_ok(final(self)@),
    {
        let data = self.encode_core();
        let hash = coder::get_hash(data.as_slice());
        self.hash = hash;
        assert(enc_account_core(self@) =~= enc_account_core(old(self)@));
    }

    /// What the returned transaction of a successful spend looks like:
    /// from the spender's address to `to`, carrying the post-increment
    /// nonce, the placeholder signature, and a hash that commits to it.
    pub open spec fn spend_tx_ok(
        a: AccountView,
        to: Seq<u8>,
        amount: u64,
        fee: u64,
        tx: crate::transaction::TxView,
    ) -> bool {
        &&& tx.from == a.address
        &&& tx.to == to
        &&& tx.amount == amount
        &&& tx.fee == fee
        &&& tx.nonce == a.nonce + 1
        &&& tx.sign == "sign"@
        &&& tx_hash_ok(tx)
    }

    /// Spends `amount` plus `fee` from the balance, steps the nonce, and
    /// returns the transaction carrying the post-increment nonce.
    ///
    /// Fails with `InsufficientFunds`, leaving the account untouched,
    /// exactly when the balance cannot cover `amount + fee`.
    pub fn send_to(&mut self, to: [u8; 32], amount: u64, fee: u64) -> (r: Result<
        Transaction,
        ChainError,
    >)
        requires
            old(self)@.nonce < u64::MAX,
        ensures
            amount + fee > old(self)@.balance ==> r == Result::<Transaction, ChainError>::Err(
                ChainError::InsufficientFunds,
            ) && final(self)@ == old(self)@,
            amount + fee <= old(self)@.balance ==> r is Ok
                && final(self)@.balance == old(self)@.balance - amount - fee
                && final(self)@.nonce == old(self)@.nonce + 1
                && final(self)@.address == old(self)@.address
                && final(self)@.private == old(self)@.private
                && account_hash_ok(final(self)@)
                && Self::spend_tx_ok(old(self)@, to@, amount, fee, r.unwrap()@),
    {
        if fee > self.balance || amount > self.balance - fee {
            return Err(ChainError::InsufficientFunds);
        }

        self.balance = self.balance - amount;
        self.balance = self.balance - fee;
        self.nonce = self.nonce + 1;
        self.set_hash();

        let tx = Transaction::new(self.address, to, amount, fee, self.nonce, "sign".to_owned());

        Ok(tx)
    }
}

impl Account {
    /// Canonical encoding of the full record.
    pub fn encode(&self) -> (r: Vec<u8>)
        ensures
            r@ =~= enc_account(self@),
    {
        let mut v: Vec<u8> = Vec::new();
        coder::push_u64_le(&mut v, self.nonce);
        coder::push_u64_le(&mut v, self.balance);
        coder::push_bytes32(&mut v, &self.address);
        coder::push_bytes32(&mut v, &self.hash);
        coder::push_bytes32(&mut v, &self.private);
        v
    }
}

/// The decoder for a full account record: the account whose canonical
/// encoding the whole byte string is, if it is one.
pub open spec fn spec_dec_account(b: Seq<u8>) -> Option<AccountView> {
    if b.len() != 112 {
        None
    } else {
        Some(
            AccountView {
                nonce: u64_from_le(b.subrange(0, 8)),
                balance: u64_from_le(b.subrange(8, 16)),
                address: b.subrange(16, 48),
                hash: b.subrange(48, 80),
                private: b.subrange(80, 112),
            },
        )
    }
}

/// Round trip: decoding the encoding of any account value gives that
/// value back.
pub proof fn lemma_account_round_trip(a: AccountView)
    requires
        wf_account_view(a),
    ensures
        spec_dec_account(enc_account(a)) == Some(a),
{
    let b = enc_account(a);
    lemma_u64_le_from_le(a.nonce);
    lemma_u64_le_from_le(a.balance);
    assert(u64_le(a.nonce) =~= b.subrange(0, 8));
    assert(u64_le(a.balance) =~= b.subrange(8, 16));
    assert(a.address =~= b.subrange(16, 48));
    assert(a.hash =~= b.subrange(48, 80));
    assert(a.private =~= b.subrange(80, 112));
}

/// Decodes a full account record, per [`spec_dec_account`].
pub fn decode_account(b: &Vec<u8>) -> (r: Option<Account>)
    ensures
        r is Some <==> spec_dec_account(b@) is Some,
        r matches Some(x) ==> spec_dec_account(b@) == Some(x@),
{
    let n = b.len();
    if n != 112 {
        return None;
    }
    let nonce = coder::read_u64_le(b, 0);
    let balance = coder::read_u64_le(b, 8);
    let address = coder::read_bytes32(b, 16);
    let hash = coder::read_bytes32(b, 48);
    let private = coder::read_bytes32(b, 80);
    let x = Account { nonce, balance, address, hash, private };
    Some(x)
}

} // verus!
