//! Blocks and the Merkle commitment over their transactions.
//!
//! A block header commits to the whole transaction list through a single
//! Merkle root, and to the rest of the chain through the previous
//! block's hash.

use vstd::prelude::*;

verus! {

use crate::coder;
use crate::coder::{
    u64_le, u64_from_le, u32_le, u32_from_le, digest_of, zero32, lemma_u64_le_from_le,
    lemma_u32_le_from_le, lemma_i64_cast,
};
use crate::transaction::{
    Transaction, TxView, enc_tx, wf_tx_view, dec_tx_at, lemma_dec_tx_of_enc,
};
use vstd::utf8::encode_utf8;

/// The mathematical value of a block header.
#[verifier::ext_equal]
pub ghost struct HeaderView {
    pub height: u64,
    pub time: i64,
    pub tx_hash: Seq<u8>,
    pub pre_hash: Seq<u8>,
    pub bits: u32,
    pub nonce: u32,
    pub state_root: Seq<u8>,
}

#[derive(Debug)]
pub struct BlockHeader {
    /// Position of the block in the chain.
    pub height: u64,
    /// Wall-clock seconds at construction.
    pub time: i64,
    /// Merkle root over the transaction hashes, in list order.
    pub tx_hash: [u8; 32],
    /// The previous block's header hash.
    pub pre_hash: [u8; 32],
    /// Current difficulty target in compact form.
    pub bits: u32,
    /// Stepped by the proof-of-work search.
    pub nonce: u32,
    /// Reserved; always zero in this scope.
    pub state_root: [u8; 32],
}

impl View for BlockHeader {
    type V = HeaderView;

    open spec fn view(&self) -> HeaderView {
        HeaderView {
            height: self.height,
            time: self.time,
            tx_hash: self.tx_hash@,
            pre_hash: self.pre_hash@,
            bits: self.bits,
            nonce: self.nonce,
            state_root: self.state_root@,
        }
    }
}

/// The mathematical value of a block.
#[verifier::ext_equal]
pub ghost struct BlockView {
    pub header: HeaderView,
    pub hash: Seq<u8>,
    pub transactions: Seq<TxView>,
}

#[derive(Debug)]
pub struct Block {
    pub header: BlockHeader,
    /// The header's digest at the winning nonce; all-zero until the
    /// proof-of-work succeeds.
    pub hash: [u8; 32],
    pub transactions: Vec<Transaction>,
}

/// The transaction views of a list of transactions.
pub open spec fn views_of_txs(s: Seq<Transaction>) -> Seq<TxView> {
    Seq::new(s.len(), |i: int| s[i]@)
}

impl View for Block {
    type V = BlockView;

    open spec fn view(&self) -> BlockView {
        BlockView {
            header: self.header@,
            hash: self.hash@,
            transactions: views_of_txs(self.transactions@),
        }
    }
}

/// The digest fields of the views have their fixed width, and the
/// machine bounds every encoded length respects.
pub open spec fn wf_header_view(h: HeaderView) -> bool {
    h.tx_hash.len() == 32 && h.pre_hash.len() == 32 && h.state_root.len() == 32
}

pub open spec fn wf_block_view(b: BlockView) -> bool {
    &&& wf_header_view(b.header)
    &&& b.hash.len() == 32
    &&& b.transactions.len() <= u64::MAX
    &&& forall|i: int|
        0 <= i < b.transactions.len() ==> wf_tx_view(#[trigger] b.transactions[i])
            && encode_utf8(b.transactions[i].sign).len() <= u64::MAX
}

/// Canonical encoding of a block header: the commitment unit the
/// proof-of-work digests.
pub open spec fn enc_header(h: HeaderView) -> Seq<u8> {
    u64_le(h.height) + u64_le(h.time as u64) + h.tx_hash + h.pre_hash + u32_le(h.bits) + u32_le(
        h.nonce,
    ) + h.state_root
}

/// Canonical encoding of a transaction list, record after record.
pub open spec fn enc_tx_seq(s: Seq<TxView>) -> Seq<u8>
    decreases s.len(),
{
    if s.len() == 0 {
        Seq::empty()
    } else {
        enc_tx(s[0]) + enc_tx_seq(s.drop_first())
    }
}

/// Canonical encoding of a full block record: header, hash, transaction
/// count, transactions.
pub open spec fn enc_block(b: BlockView) -> Seq<u8> {
    enc_header(b.header) + b.hash + u64_le(b.transactions.len() as u64) + enc_tx_seq(
        b.transactions,
    )
}

/// Appending one record to a list appends its encoding.
pub proof fn lemma_enc_tx_seq_snoc(s: Seq<TxView>, t: TxView)
    ensures
        enc_tx_seq(s.push(t)) =~= enc_tx_seq(s) + enc_tx(t),
    decreases s.len(),
{
    if s.len() == 0 {
        let u = s.push(t);
        assert(u[0] == t);
        assert(u.drop_first() =~= Seq::<TxView>::empty());
        assert(enc_tx_seq(u.drop_first()) == Seq::<u8>::empty());
        assert(enc_tx_seq(u) == enc_tx(t) + Seq::<u8>::empty());
        assert(enc_tx_seq(s) == Seq::<u8>::empty());
        assert(enc_tx_seq(u) =~= enc_tx_seq(s) + enc_tx(t));
    } else {
        assert(s.push(t).drop_first() =~= s.drop_first().push(t));
        lemma_enc_tx_seq_snoc(s.drop_first(), t);
    }
}

/// One digest out of two: the inner node of the Merkle tree.
pub open spec fn merkle_pair(l: Seq<u8>, r: Seq<u8>) -> Seq<u8> {
    digest_of(l + r)
}

/// One reduction level: adjacent digests pair left to right, and an odd
/// count pairs the last digest with itself.
pub open spec fn merkle_level(s: Seq<Seq<u8>>) -> Seq<Seq<u8>> {
    Seq::new(((s.len() + 1) / 2) as nat, |i: int|
        if 2 * i + 1 < s.len() {
            merkle_pair(s[2 * i], s[2 * i + 1])
        } else {
            merkle_pair(s[2 * i], s[2 * i])
        })
}

/// The Merkle root of an ordered list of digests: pairwise reduction to
/// a single digest; an empty list yields the all-zero digest.
pub open spec fn merkle_root_spec(s: Seq<Seq<u8>>) -> Seq<u8>
    decreases s.len(),
{
    if s.len() == 0 {
        zero32()
    } else if s.len() == 1 {
        s[0]
    } else {
        merkle_root_spec(merkle_level(s))
    }
}

/// The digest sequences of a vector of hashes.
pub open spec fn views_of_hashes(s: Seq<[u8; 32]>) -> Seq<Seq<u8>> {
    Seq::new(s.len(), |i: int| s[i]@)
}

/// The hash of each transaction of a list, in list order.
pub open spec fn tx_hashes(s: Seq<TxView>) -> Seq<Seq<u8>> {
    Seq::new(s.len(), |i: int| s[i].hash)
}

impl Block {
    /// The Merkle root of the given digests, by pairwise reduction.
    pub fn merkle_root(vec_hash: Vec<[u8; 32]>) -> (r: [u8; 32])
        ensures
            r@ =~= merkle_root_spec(views_of_hashes(vec_hash@)),
    {
        if vec_hash.len() == 0 {
            let z = [0u8; 32];
            assert(z@ =~= zero32());
            return z;
        }

        let mut cur = vec_hash;
        while cur.len() > 1
            invariant
                cur@.len() >= 1,
                merkle_root_spec(views_of_hashes(cur@)) == merkle_root_spec(
                    views_of_hashes(vec_hash@),
                ),
            decreases cur@.len(),
        {
            let size = cur.len();
            let half = 1 + (size - 1) / 2;
            assert(half == (size + 1) / 2);
            let mut next: Vec<[u8; 32]> = Vec::new();
            let mut k: usize = 0;
            while k < half
                invariant
                    size == cur@.len() >= 2,
                    half == (size + 1) / 2,
                    k <= half,
                    next@.len() == k,
                    forall|j: int|
                        0 <= j < k ==> (#[trigger] next@[j])@ == merkle_level(
                            views_of_hashes(cur@),
                        )[j],
                decreases half - k,
            {
                let i1 = 2 * k;
                let i2 = if 2 * k + 1 < size {
                    2 * k + 1
                } else {
                    i1
                };
                let mut buf: Vec<u8> = Vec::new();
                coder::push_bytes32(&mut buf, &cur[i1]);
                coder::push_bytes32(&mut buf, &cur[i2]);
                let h = coder::get_hash(buf.as_slice());
                assert(h@ == merkle_pair(cur@[i1 as int]@, cur@[i2 as int]@));
                next.push(h);
                k = k + 1;
            }
            assert(views_of_hashes(next@) =~= merkle_level(views_of_hashes(cur@)));
            cur = next;
        }
        assert(merkle_root_spec(views_of_hashes(cur@)) == cur@[0]@);
        cur[0]
    }

    /// Builds an unfinalized block at the given time: Merkle root over
    /// the transactions in list order, nonce zero, hash all-zero.
    pub fn new_with_time(
        vec_tx: Vec<Transaction>,
        pre_hash: [u8; 32],
        bits: u32,
        height: u64,
        time: i64,
    ) -> (b: Block)
        ensures
            b@.header.height == height,
            b@.header.time == time,
            b@.header.tx_hash =~= merkle_root_spec(tx_hashes(views_of_txs(vec_tx@))),
            b@.header.pre_hash == pre_hash@,
            b@.header.bits == bits,
            b@.header.nonce == 0,
            b@.header.state_root =~= zero32(),
            b@.hash =~= zero32(),
            b@.transactions =~= views_of_txs(vec_tx@),
    {
        let mut vec_hash: Vec<[u8; 32]> = Vec::new();
        let mut i: usize = 0;
        while i < vec_tx.len()
            invariant
                i <= vec_tx@.len(),
                vec_hash@.len() == i,
                forall|j: int| 0 <= j < i ==> (#[trigger] vec_hash@[j]) == vec_tx@[j].hash,
            decreases vec_tx@.len() - i,
        {
            vec_hash.push(vec_tx[i].hash);
            i = i + 1;
        }
        assert(views_of_hashes(vec_hash@) =~= tx_hashes(views_of_txs(vec_tx@)));

        Block {
            header: BlockHeader {
                height,
                time,
                tx_hash: Self::merkle_root(vec_hash),
                pre_hash,
                bits,
                nonce: 0,
                state_root: [0u8; 32],
            },
            hash: [0u8; 32],
            transactions: vec_tx,
        }
    }

    /// Builds an unfinalized block stamped with the clock's seconds.
    pub fn new(vec_tx: Vec<Transaction>, pre_hash: [u8; 32], bits: u32, height: u64) -> (b: Block)
        ensures
            b@.header.height == height,
            b@.header.tx_hash =~= merkle_root_spec(tx_hashes(views_of_txs(vec_tx@))),
            b@.header.pre_hash == pre_hash@,
            b@.header.bits == bits,
            b@.header.nonce == 0,
            b@.header.state_root =~= zero32(),
            b@.hash =~= zero32(),
            b@.transactions =~= views_of_txs(vec_tx@),
    {
        let time = crate::coder::now_seconds();
        Self::new_with_time(vec_tx, pre_hash, bits, height, time)
    }

    /// A field-for-field copy with the same mathematical value.
    pub fn duplicate(&self) -> (r: Block)
        ensures
            r@ =~= self@,
    {
        let mut txs: Vec<Transaction> = Vec::new();
        let mut i: usize = 0;
        while i < self.transactions.len()
            invariant
                i <= self.transactions@.len(),
                txs@.len() == i,
                forall|j: int| 0 <= j < i ==> (#[trigger] txs@[j])@ == self.transactions@[j]@,
            decreases self.transactions@.len() - i,
        {
            txs.push(self.transactions[i].duplicate());
            i = i + 1;
        }
        let r = Block {
            header: BlockHeader {
                height: self.header.height,
                time: self.header.time,
                tx_hash: self.header.tx_hash,
                pre_hash: self.header.pre_hash,
                bits: self.header.bits,
                nonce: self.header.nonce,
                state_root: self.header.state_root,
            },
            hash: self.hash,
            transactions: txs,
        };
        assert(views_of_txs(r.transactions@) =~= views_of_txs(self.transactions@));
        r
    }
}

impl BlockHeader {
    /// Canonical encoding of the header.
    pub fn encode(&self) -> (r: Vec<u8>)
        ensures
            r@ =~= enc_header(self@),
    {
        let mut v: Vec<u8> = Vec::new();
        coder::push_u64_le(&mut v, self.height);
        coder::push_u64_le(&mut v, self.time as u64);
        coder::push_bytes32(&mut v, &self.tx_hash);
        coder::push_bytes32(&mut v, &self.pre_hash);
        coder::push_u32_le(&mut v, self.bits);
        coder::push_u32_le(&mut v, self.nonce);
        coder::push_bytes32(&mut v, &self.state_root);
        v
    }
}

impl Block {
    /// Canonical encoding of the full block record.
    pub fn encode(&self) -> (r: Vec<u8>)
        ensures
            r@ =~= enc_block(self@),
    {
        let mut v = self.header.encode();
        coder::push_bytes32(&mut v, &self.hash);
        coder::push_u64_le(&mut v, self.transactions.len() as u64);
        let ghost prefix = v@;
        let ghost txviews = views_of_txs(self.transactions@);
        let mut i: usize = 0;
        while i < self.transactions.len()
            invariant
                i <= self.transactions@.len(),
                txviews == views_of_txs(self.transactions@),
                v@ =~= prefix + enc_tx_seq(txviews.take(i as int)),
            decreases self.transactions@.len() - i,
        {
            let e = self.transactions[i].encode();
            coder::push_all(&mut v, &e);
            proof {
                lemma_enc_tx_seq_snoc(txviews.take(i as int), txviews[i as int]);
                assert(txviews.take(i + 1) =~= txviews.take(i as int).push(txviews[i as int]));
            }
            i = i + 1;
        }
        assert(txviews.take(txviews.len() as int) =~= txviews);
        v
    }
}

/// The decoder for a transaction list of `count` records at `off`.
pub open spec fn dec_tx_list(b: Seq<u8>, off: int, count: nat) -> Option<(Seq<TxView>, int)>
    decreases count,
{
    if count == 0 {
        Some((Seq::empty(), off))
    } else {
        match dec_tx_at(b, off) {
            None => None,
            Some((t, end)) => match dec_tx_list(b, end, (count - 1) as nat) {
                None => None,
                Some((s, end2)) => Some((seq![t] + s, end2)),
            },
        }
    }
}

/// The list decoder reads back exactly the list whose encoding sits at
/// `off`, whatever follows it.
pub proof fn lemma_dec_tx_list_of_enc(s: Seq<TxView>, b: Seq<u8>, off: int)
    requires
        forall|i: int|
            0 <= i < s.len() ==> wf_tx_view(#[trigger] s[i]) && encode_utf8(s[i].sign).len()
                <= u64::MAX,
        0 <= off,
        off + enc_tx_seq(s).len() <= b.len(),
        enc_tx_seq(s) =~= b.subrange(off, off + enc_tx_seq(s).len()),
    ensures
        dec_tx_list(b, off, s.len()) == Some((s, off + enc_tx_seq(s).len() as int)),
    decreases s.len(),
{
    if s.len() == 0 {
        assert(dec_tx_list(b, off, 0) == Some((Seq::<TxView>::empty(), off)));
        assert(s =~= Seq::<TxView>::empty());
    } else {
        let t = s[0];
        let rest = s.drop_first();
        let m = enc_tx(t).len() as int;
        let total = enc_tx_seq(s).len() as int;
        assert(enc_tx_seq(s) == enc_tx(t) + enc_tx_seq(rest));
        assert(enc_tx(t) =~= b.subrange(off, off + m));
        lemma_dec_tx_of_enc(t, b, off);
        assert(b.subrange(off + m, off + total) =~= b.subrange(off, off + total).subrange(
            m,
            total,
        ));
        assert((enc_tx(t) + enc_tx_seq(rest)).subrange(m, total) =~= enc_tx_seq(rest));
        assert(enc_tx_seq(rest) =~= b.subrange(off + m, off + total));
        lemma_dec_tx_list_of_enc(rest, b, off + m);
        assert(seq![t] + rest =~= s);
    }
}

/// The decoder for a full block record: the block whose canonical
/// encoding the whole byte string is, if it is one.
pub open spec fn spec_dec_block(b: Seq<u8>) -> Option<BlockView> {
    if b.len() < 160 {
        None
    } else {
        let count = u64_from_le(b.subrange(152, 160));
        match dec_tx_list(b, 160, count as nat) {
            None => None,
            Some((txs, end)) => if end == b.len() {
                Some(
                    BlockView {
                        header: HeaderView {
                            height: u64_from_le(b.subrange(0, 8)),
                            time: u64_from_le(b.subrange(8, 16)) as i64,
                            tx_hash: b.subrange(16, 48),
                            pre_hash: b.subrange(48, 80),
                            bits: u32_from_le(b.subrange(80, 84)),
                            nonce: u32_from_le(b.subrange(84, 88)),
                            state_root: b.subrange(88, 120),
                        },
                        hash: b.subrange(120, 152),
                        transactions: txs,
                    },
                )
            } else {
                None
            },
        }
    }
}

/// Round trip: decoding the encoding of any block value gives that
/// value back.
#[verifier::rlimit(100)]
pub proof fn lemma_block_round_trip(bv: BlockView)
    requires
        wf_block_view(bv),
    ensures
        spec_dec_block(enc_block(bv)) == Some(bv),
{
    let b = enc_block(bv);
    let total = enc_tx_seq(bv.transactions).len() as int;
    assert(b.len() == 160 + total);
    assert(u64_le(bv.transactions.len() as u64) =~= b.subrange(152, 160));
    lemma_u64_le_from_le(bv.transactions.len() as u64);
    assert(u64_from_le(b.subrange(152, 160)) == bv.transactions.len() as u64);
    assert(enc_tx_seq(bv.transactions) =~= b.subrange(160, 160 + total));
    lemma_dec_tx_list_of_enc(bv.transactions, b, 160);
    assert(u64_le(bv.header.height) =~= b.subrange(0, 8));
    assert(u64_le(bv.header.time as u64) =~= b.subrange(8, 16));
    lemma_u64_le_from_le(bv.header.height);
    lemma_u64_le_from_le(bv.header.time as u64);
    lemma_i64_cast(bv.header.time);
    assert(bv.header.tx_hash =~= b.subrange(16, 48));
    assert(bv.header.pre_hash =~= b.subrange(48, 80));
    assert(u32_le(bv.header.bits) =~= b.subrange(80, 84));
    assert(u32_le(bv.header.nonce) =~= b.subrange(84, 88));
    lemma_u32_le_from_le(bv.header.bits);
    lemma_u32_le_from_le(bv.header.nonce);
    assert(bv.header.state_root =~= b.subrange(88, 120));
    assert(bv.hash =~= b.subrange(120, 152));
    assert(spec_dec_block(b) == Some(bv));
}

/// Decodes a full block record, per [`spec_dec_block`].
pub fn decode_block(b: &Vec<u8>) -> (r: Option<Block>)
    ensures
        r is Some <==> spec_dec_block(b@) is Some,
        r matches Some(x) ==> spec_dec_block(b@) == Some(x@),
{
    let n = b.len();
    if n < 160 {
        return None;
    }
    let height = coder::read_u64_le(b, 0);
    let time = coder::read_u64_le(b, 8) as i64;
    let tx_hash = coder::read_bytes32(b, 16);
    let pre_hash = coder::read_bytes32(b, 48);
    let bits = coder::read_u32_le(b, 80);
    let nonce = coder::read_u32_le(b, 84);
    let state_root = coder::read_bytes32(b, 88);
    let hash = coder::read_bytes32(b, 120);
    let count = coder::read_u64_le(b, 152);

    let mut txs: Vec<Transaction> = Vec::new();
    let mut off: usize = 160;
    let mut i: u64 = 0;
    while i < count
        invariant
            i <= count,
            off <= n == b@.len(),
            txs@.len() == i,
            n >= 160,
            count == u64_from_le(b@.subrange(152, 160)),
            dec_tx_list(b@, 160, count as nat) is Some <==> dec_tx_list(
                b@,
                off as int,
                (count - i) as nat,
            ) is Some,
            dec_tx_list(b@, off as int, (count - i) as nat) matches Some(p) ==> dec_tx_list(
                b@,
                160,
                count as nat,
            ) == Some((views_of_txs(txs@) + p.0, p.1)),
        decreases count - i,
    {
        match crate::transaction::decode_tx_at(b, off) {
            Some((x, end)) => {
                proof {
                    let k = (count - i) as nat;
                    assert(dec_tx_list(b@, off as int, k) == (match dec_tx_list(
                        b@,
                        end as int,
                        (k - 1) as nat,
                    ) {
                        None => None::<(Seq<TxView>, int)>,
                        Some((s, end2)) => Some((seq![x@] + s, end2)),
                    }));
                    assert forall|p: (Seq<TxView>, int)|
                        dec_tx_list(b@, end as int, (k - 1) as nat) == Some(p) implies (
                    views_of_txs(txs@) + (seq![x@] + p.0)) =~= (views_of_txs(txs@.push(x)) + p.0)
                        by {}
                }
                txs.push(x);
                off = end;
                i = i + 1;
            },
            None => {
                return None;
            },
        }
    }
    assert(dec_tx_list(b@, off as int, 0) == Some((Seq::<TxView>::empty(), off as int)));
    assert(views_of_txs(txs@) + Seq::<TxView>::empty() =~= views_of_txs(txs@));
    if off != n {
        return None;
    }
    let x = Block {
        header: BlockHeader { height, time, tx_hash, pre_hash, bits, nonce, state_root },
        hash,
        transactions: txs,
    };
    assert(spec_dec_block(b@) == Some(x@));
    Some(x)
}

} // verus!
