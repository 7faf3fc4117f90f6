//! Transfer records.
//!
//! A transaction is an immutable, content-addressed value: its `hash`
//! field is the digest of the canonical encoding of every other field,
//! computed at construction.

use vstd::prelude::*;

verus! {

use vstd::utf8::{encode_utf8, decode_utf8, valid_utf8};
use crate::coder;
use crate::coder::{
    u64_le, u64_from_le, enc_str, digest_of, zero32, lemma_u64_le_from_le,
};

/// The mathematical value of a transaction.
#[verifier::ext_equal]
pub ghost struct TxView {
    pub hash: Seq<u8>,
    pub from: Seq<u8>,
    pub to: Seq<u8>,
    pub amount: u64,
    pub fee: u64,
    pub nonce: u64,
    pub sign: Seq<char>,
}

#[derive(Debug)]
pub struct Transaction {
    pub hash: [u8; 32],
    pub from: [u8; 32],
    pub to: [u8; 32],
    /// Transferred amount.
    pub amount: u64,
    /// Fee paid to the miner.
    pub fee: u64,
    /// The sender account's nonce after producing this transaction.
    pub nonce: u64,
    /// Placeholder signature marker; real signing is out of scope.
    pub sign: String,
}

impl View for Transaction {
    type V = TxView;

    open spec fn view(&self) -> TxView {
        TxView {
            hash: self.hash@,
            from: self.from@,
            to: self.to@,
            amount: self.amount,
            fee: self.fee,
            nonce: self.nonce,
            sign: self.sign@,
        }
    }
}

/// The digest fields of a view have their fixed width.
pub open spec fn wf_tx_view(t: TxView) -> bool {
    t.hash.len() == 32 && t.from.len() == 32 && t.to.len() == 32
}

/// Canonical encoding of the hash-covered fields: everything but `hash`.
pub open spec fn enc_tx_core(t: TxView) -> Seq<u8> {
    t.from + t.to + u64_le(t.amount) + u64_le(t.fee) + u64_le(t.nonce) + enc_str(t.sign)
}

/// A transaction's hash commits to all its other fields.
pub open spec fn tx_hash_ok(t: TxView) -> bool {
    t.hash == digest_of(enc_tx_core(t))
}

/// Canonical encoding of a full transaction record, `hash` included.
pub open spec fn enc_tx(t: TxView) -> Seq<u8> {
    t.hash + enc_tx_core(t)
}

/// A transaction is a coinbase (miner reward) iff it comes from the
/// all-zero address and goes to a real one.
pub open spec fn spec_is_coinbase(t: TxView) -> bool {
    t.from == zero32() && t.to != zero32()
}

impl Transaction {
    pub fn new(from: [u8; 32], to: [u8; 32], amount: u64, fee: u64, nonce: u64, sign: String) -> (
        tx: Transaction)
        ensures
            tx@.from == from@,
            tx@.to == to@,
            tx@.amount == amount,
            tx@.fee == fee,
            tx@.nonce == nonce,
            tx@.sign == sign@,
            tx_hash_ok(tx@),
    {
        let mut tx = Transaction { hash: [0u8; 32], from, to, amount, fee, nonce, sign };
        tx.set_hash();
        tx
    }

    /// Encodes the hash-covered fields.
    fn encode_core(&self) -> (r: Vec<u8>)
        ensures
            r@ =~= enc_tx_core(self@),
    {
        let mut v: Vec<u8> = Vec::new();
        coder::push_bytes32(&mut v, &self.from);
        coder::push_bytes32(&mut v, &self.to);
        coder::push_u64_le(&mut v, self.amount);
        coder::push_u64_le(&mut v, self.fee);
        coder::push_u64_le(&mut v, self.nonce);
        coder::push_str(&mut v, &self.sign);
        v
    }

    /// Recomputes `hash` from the other fields, which stay as they are.
    pub fn set_hash(&mut self)
        ensures
            final(self).hash@ == digest_of(enc_tx_core(old(self)@)),
            final(self).from == old(self).from,
            final(self).to == old(self).to,
            final(self).amount == old(self).amount,
            final(self).fee == old(self).fee,
            final(self).nonce == old(self).nonce,
            final(self).sign == old(self).sign,
            tx_hash_ok(final(self)@),
    {
        let data = self.encode_core();
        let hash = coder::get_hash(data.as_slice());
        self.hash = hash;
        assert(enc_tx_core(self@) =~= enc_tx_core(old(self)@));
    }

    /// Coinbase test: zero sender, non-zero receiver.
    pub fn is_coinbase(&self) -> (r: bool)
        ensures
            r == spec_is_coinbase(self@),
    {
        let zero = [0u8; 32];
        assert(zero@ =~= zero32());
        let from_zero = coder::bytes32_eq(&self.from, &zero);
        let to_zero = coder::bytes32_eq(&self.to, &zero);
        from_zero && !to_zero
    }

    /// A field-for-field copy with the same mathematical value.
    pub fn duplicate(&self) -> (r: Transaction)
        ensures
            r@ == self@,
    {
        Transaction {
            hash: self.hash,
            from: self.from,
            to: self.to,
            amount: self.amount,
            fee: self.fee,
            nonce: self.nonce,
            sign: self.sign.as_str().to_owned(),
        }
    }

    /// Canonical encoding of the full record.
    pub fn encode(&self) -> (r: Vec<u8>)
        ensures
            r@ =~= enc_tx(self@),
    {
        let mut v: Vec<u8> = Vec::new();
        coder::push_bytes32(&mut v, &self.hash);
        let core = self.encode_core();
        let mut i: usize = 0;
        while i < core.len()
            invariant
                i <= core@.len(),
                v@ =~= self.hash@ + core@.subrange(0, i as int),
            decreases core@.len() - i,
        {
            v.push(core[i]);
            i = i + 1;
        }
        assert(core@.subrange(0, core@.len() as int) =~= core@);
        v
    }
}

/// Where each field lies inside a well-formed transaction encoding:
/// the fixed-width fields first, then the signature bytes.
pub proof fn lemma_enc_tx_fields(t: TxView)
    requires
        wf_tx_view(t),
    ensures
        enc_tx(t).len() == 128 + encode_utf8(t.sign).len(),
        t.hash =~= enc_tx(t).subrange(0, 32),
        t.from =~= enc_tx(t).subrange(32, 64),
        t.to =~= enc_tx(t).subrange(64, 96),
        u64_le(t.amount) =~= enc_tx(t).subrange(96, 104),
        u64_le(t.fee) =~= enc_tx(t).subrange(104, 112),
        u64_le(t.nonce) =~= enc_tx(t).subrange(112, 120),
        u64_le(encode_utf8(t.sign).len() as u64) =~= enc_tx(t).subrange(120, 128),
        encode_utf8(t.sign) =~= enc_tx(t).subrange(128, enc_tx(t).len() as int),
{
}

/// The decoder for one transaction record at position `off` of `b`:
/// either the transaction read there together with the position just
/// past it, or nothing when the bytes are not a transaction encoding.
pub open spec fn dec_tx_at(b: Seq<u8>, off: int) -> Option<(TxView, int)> {
    if !(0 <= off && off + 128 <= b.len()) {
        None
    } else {
        let slen = u64_from_le(b.subrange(off + 120, off + 128)) as int;
        if off + 128 + slen > b.len() {
            None
        } else if !valid_utf8(b.subrange(off + 128, off + 128 + slen)) {
            None
        } else {
            Some(
                (
                    TxView {
                        hash: b.subrange(off, off + 32),
                        from: b.subrange(off + 32, off + 64),
                        to: b.subrange(off + 64, off + 96),
                        amount: u64_from_le(b.subrange(off + 96, off + 104)),
                        fee: u64_from_le(b.subrange(off + 104, off + 112)),
                        nonce: u64_from_le(b.subrange(off + 112, off + 120)),
                        sign: decode_utf8(b.subrange(off + 128, off + 128 + slen)),
                    },
                    off + 128 + slen,
                ),
            )
        }
    }
}

/// The decoder reads back exactly the transaction whose encoding sits
/// at `off`, whatever follows it.
pub proof fn lemma_dec_tx_of_enc(t: TxView, b: Seq<u8>, off: int)
    requires
        wf_tx_view(t),
        encode_utf8(t.sign).len() <= u64::MAX,
        0 <= off,
        off + enc_tx(t).len() <= b.len(),
        enc_tx(t) =~= b.subrange(off, off + enc_tx(t).len()),
    ensures
        dec_tx_at(b, off) == Some((t, off + enc_tx(t).len() as int)),
{
    broadcast use vstd::utf8::encode_utf8_valid_utf8;
    broadcast use vstd::utf8::encode_utf8_decode_utf8;

    lemma_enc_tx_fields(t);
    let e = enc_tx(t);
    let m = e.len() as int;
    let c = b.subrange(off, off + m);
    assert(e.subrange(96, 104) =~= b.subrange(off + 96, off + 104));
    assert(e.subrange(104, 112) =~= b.subrange(off + 104, off + 112));
    assert(e.subrange(112, 120) =~= b.subrange(off + 112, off + 120));
    assert(e.subrange(120, 128) =~= b.subrange(off + 120, off + 128));
    assert(e.subrange(128, m) =~= b.subrange(off + 128, off + m));
    assert(e.subrange(0, 32) =~= b.subrange(off, off + 32));
    assert(e.subrange(32, 64) =~= b.subrange(off + 32, off + 64));
    assert(e.subrange(64, 96) =~= b.subrange(off + 64, off + 96));
    lemma_u64_le_from_le(t.amount);
    lemma_u64_le_from_le(t.fee);
    lemma_u64_le_from_le(t.nonce);
    lemma_u64_le_from_le(encode_utf8(t.sign).len() as u64);
    assert(dec_tx_at(b, off) == Some((t, off + m)));
}

/// Decodes one transaction record starting at `off`, as [`dec_tx_at`]
/// reads it.
pub fn decode_tx_at(b: &Vec<u8>, off: usize) -> (r: Option<(Transaction, usize)>)
    requires
        off <= b@.len(),
    ensures
        r is Some <==> dec_tx_at(b@, off as int) is Some,
        r matches Some(p) ==> dec_tx_at(b@, off as int) == Some((p.0@, p.1 as int)) && off < p.1
            <= b@.len() && wf_tx_view(p.0@),
{
    let n = b.len();
    if n - off < 128 {
        return None;
    }
    let slen = coder::read_u64_le(b, off + 120);
    if slen > (n - off - 128) as u64 {
        return None;
    }
    let end = off + 128 + (slen as usize);
    let sbytes = coder::copy_range(b, off + 128, end);
    let sign = match coder::bytes_to_string(sbytes) {
        Some(s) => s,
        None => {
            return None;
        },
    };
    let hash = coder::read_bytes32(b, off);
    let from = coder::read_bytes32(b, off + 32);
    let to = coder::read_bytes32(b, off + 64);
    let amount = coder::read_u64_le(b, off + 96);
    let fee = coder::read_u64_le(b, off + 104);
    let nonce = coder::read_u64_le(b, off + 112);
    let x = Transaction { hash, from, to, amount, fee, nonce, sign };
    Some((x, end))
}

/// The decoder for a full transaction record: the transaction whose
/// canonical encoding the whole byte string is, if it is one.
pub open spec fn spec_dec_transaction(b: Seq<u8>) -> Option<TxView> {
    match dec_tx_at(b, 0) {
        Some((t, end)) => if end == b.len() {
            Some(t)
        } else {
            None
        },
        None => None,
    }
}

/// Round trip: decoding the encoding of any transaction value gives
/// that value back.
pub proof fn lemma_tx_round_trip(t: TxView)
    requires
        wf_tx_view(t),
        encode_utf8(t.sign).len() <= u64::MAX,
    ensures
        spec_dec_transaction(enc_tx(t)) == Some(t),
{
    let b = enc_tx(t);
    assert(b.subrange(0, b.len() as int) =~= b);
    lemma_dec_tx_of_enc(t, b, 0);
}

/// Decodes a full transaction record, per [`spec_dec_transaction`].
pub fn decode_transaction(b: &Vec<u8>) -> (r: Option<Transaction>)
    ensures
        r is Some <==> spec_dec_transaction(b@) is Some,
        r matches Some(x) ==> spec_dec_transaction(b@) == Some(x@),
{
    let n = b.len();
    match decode_tx_at(b, 0) {
        Some((x, end)) => {
            if end == n {
                Some(x)
            } else {
                None
            }
        },
        None => None,
    }
}

} // verus!
