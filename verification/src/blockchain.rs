//! The chain state: an append-only, hash-linked history with a single
//! mutable cursor over its tail, mirrored by an in-memory index for
//! traversal.
//!
//! Persistence is the caller's concern: every accepted block is handed
//! back in canonical bytes through [`crate::block::Block::encode`], and
//! the caller writes them under the keys of [`crate::key::MyKey`].
//!
//! The state is a single-writer object: exclusive access goes through
//! `&mut`, so the in-memory index needs no lock of its own here.

use vstd::prelude::*;

verus! {

use crate::coder;
use crate::coder::{digest_of, zero32};
use crate::transaction::{Transaction, TxView, tx_hash_ok};
use crate::block::{Block, BlockView, enc_header, merkle_root_spec, tx_hashes};
use crate::pow::ProofOfWork;
use crate::ChainError;

/// The fixed default compact difficulty the chain starts from.
pub const DIFFICULTY_1_TARGET: u32 = 0x2100FFFF;

/// The single synthetic transaction of the genesis block: zero-valued,
/// from the zero address to the zero address, carrying the descriptive
/// marker, content-addressed like any transaction.
pub open spec fn genesis_tx_ok(t: TxView) -> bool {
    &&& t.from == zero32()
    &&& t.to == zero32()
    &&& t.amount == 0
    &&& t.fee == 0
    &&& t.nonce == 0
    &&& t.sign == "This is genesis"@
    &&& tx_hash_ok(t)
}

/// The genesis block: height zero, all-zero parent, the fixed default
/// difficulty, its one marker transaction bound in through the Merkle
/// root, and a hash computed over the header at nonce zero — the same
/// commitment path as any mined block, without mining.
pub open spec fn genesis_block_ok(b: BlockView) -> bool {
    &&& b.header.height == 0
    &&& b.header.bits == DIFFICULTY_1_TARGET
    &&& b.header.nonce == 0
    &&& b.header.pre_hash == zero32()
    &&& b.header.state_root == zero32()
    &&& b.header.tx_hash == merkle_root_spec(tx_hashes(b.transactions))
    &&& b.hash == digest_of(enc_header(b.header))
    &&& b.transactions.len() == 1
    &&& genesis_tx_ok(b.transactions[0])
}

/// The block the in-memory index answers for a hash: the last inserted
/// one, as a map overwritten by later inserts would answer.
pub open spec fn lookup(s: Seq<Block>, h: Seq<u8>) -> Option<BlockView>
    decreases s.len(),
{
    if s.len() == 0 {
        None
    } else if s.last()@.hash == h {
        Some(s.last()@)
    } else {
        lookup(s.drop_last(), h)
    }
}

/// Inserting one more block changes only its own hash's answer.
pub proof fn lemma_lookup_push(s: Seq<Block>, x: Block, h: Seq<u8>)
    ensures
        lookup(s.push(x), h) == if x@.hash == h {
            Some(x@)
        } else {
            lookup(s, h)
        },
{
    assert(s.push(x).last() == x);
    assert(s.push(x).drop_last() =~= s);
}

pub struct BlockChain {
    /// In-memory index over every accepted block, for traversal.
    pub index: Vec<Block>,
    /// The canonical chain, genesis first, tail last.
    pub chain: Ghost<Seq<BlockView>>,
    pub genesis_hash: [u8; 32],
    pub curr_hash: [u8; 32],
    pub curr_bits: u32,
    /// Height of the tail block.
    pub curr_height: u64,
}

impl BlockChain {
    /// The chain invariant: the canonical chain starts at the genesis
    /// block, links each block to its parent by hash, climbs strictly
    /// in height, ends at the cursor, and is found intact by the index.
    pub open spec fn wf(self) -> bool {
        let c = self.chain@;
        &&& c.len() >= 1
        &&& c[0].hash == self.genesis_hash@
        &&& c[0].header.height == 0
        &&& c.last().hash == self.curr_hash@
        &&& c.last().header.height == self.curr_height
        &&& c.last().header.bits == self.curr_bits
        &&& forall|i: int|
            1 <= i < c.len() ==> (#[trigger] c[i]).header.pre_hash == c[i - 1].hash
        &&& forall|i: int|
            1 <= i < c.len() ==> (#[trigger] c[i]).header.height > c[i - 1].header.height
        &&& forall|i: int|
            0 <= i < c.len() ==> lookup(self.index@, (#[trigger] c[i]).hash) == Some(c[i])
    }

    /// No block of the chain is content-addressed by `h`. Content
    /// addressing rests on the digest being collision-free over the
    /// stored blocks, which no contract over an uninterpreted digest
    /// can supply, so the chain-preservation clauses carry this as an
    /// explicit condition for their callers to assume or check.
    pub open spec fn hash_fresh(self, h: Seq<u8>) -> bool {
        forall|i: int| 0 <= i < self.chain@.len() ==> (#[trigger] self.chain@[i]).hash != h
    }

    /// A block that extends the chain properly: linked to the current
    /// tail, strictly higher, and content-addressed by a hash the chain
    /// has not seen.
    pub open spec fn extends(self, b: BlockView) -> bool {
        &&& b.header.pre_hash == self.curr_hash@
        &&& b.header.height > self.curr_height
        &&& self.hash_fresh(b.hash)
    }

    /// Heights climb strictly along the whole chain, not just between
    /// neighbours.
    pub proof fn lemma_chain_heights(self, i: int, j: int)
        requires
            self.wf(),
            0 <= i < j < self.chain@.len(),
        ensures
            self.chain@[i].header.height < self.chain@[j].header.height,
        decreases j - i,
    {
        if i + 1 < j {
            self.lemma_chain_heights(i + 1, j);
        }
    }

    /// Every block sits no lower than its position: the chain can never
    /// be longer than the tail height plus one.
    pub proof fn lemma_chain_length(self)
        requires
            self.wf(),
        ensures
            self.chain@.len() <= self.curr_height + 1,
            forall|i: int|
                0 <= i < self.chain@.len() ==> i <= (#[trigger] self.chain@[i]).header.height,
    {
        assert forall|i: int| 0 <= i < self.chain@.len() implies i <= (
        #[trigger] self.chain@[i]).header.height by {
            self.lemma_height_ge_index(i);
        }
        self.lemma_height_ge_index(self.chain@.len() - 1);
    }

    proof fn lemma_height_ge_index(self, i: int)
        requires
            self.wf(),
            0 <= i < self.chain@.len(),
        ensures
            i <= self.chain@[i].header.height,
        decreases i,
    {
        if i > 0 {
            self.lemma_height_ge_index(i - 1);
        }
    }

    /// Chain height is monotonic: on a well-formed chain the heights
    /// climb strictly from the genesis block's zero up to the tail
    /// cursor, so each successful extending append lifts the tail by
    /// its block and the traversal hands back one block per link.
    pub proof fn lemma_chain_monotonic(self)
        requires
            self.wf(),
        ensures
            forall|i: int, j: int|
                0 <= i < j < self.chain@.len() ==> (#[trigger] self.chain@[i]).header.height < (
                #[trigger] self.chain@[j]).header.height,
            self.chain@[0].header.height == 0,
            self.chain@[0].hash == self.genesis_hash@,
            self.chain@.last().header.height == self.curr_height,
            self.chain@.last().hash == self.curr_hash@,
            self.chain@.len() <= self.curr_height + 1,
    {
        assert forall|i: int, j: int| 0 <= i < j < self.chain@.len() implies (
        #[trigger] self.chain@[i]).header.height < (#[trigger] self.chain@[j]).header.height by {
            self.lemma_chain_heights(i, j);
        }
        self.lemma_chain_length();
    }

    /// Two chain positions with one hash are one position: the index
    /// answers both with the same block.
    pub proof fn lemma_chain_hash_unique(self, i: int, j: int)
        requires
            self.wf(),
            0 <= i < self.chain@.len(),
            0 <= j < self.chain@.len(),
            self.chain@[i].hash == self.chain@[j].hash,
        ensures
            i == j,
    {
        if i < j {
            self.lemma_chain_heights(i, j);
            assert(self.chain@[i] == self.chain@[j]);
        }
        if j < i {
            self.lemma_chain_heights(j, i);
            assert(self.chain@[i] == self.chain@[j]);
        }
    }

    /// Looks a block up in the in-memory index by its hash.
    fn lookup_block(&self, h: &[u8; 32]) -> (r: Option<Block>)
        ensures
            r matches Some(x) ==> lookup(self.index@, h@) == Some(x@),
            r is None ==> lookup(self.index@, h@) is None,
    {
        let n = self.index.len();
        let mut i: usize = n;
        assert(self.index@.subrange(0, n as int) =~= self.index@);
        while i > 0
            invariant
                i <= n == self.index@.len(),
                lookup(self.index@, h@) == lookup(self.index@.subrange(0, i as int), h@),
            decreases i,
        {
            let ghost pre = self.index@.subrange(0, i as int);
            proof {
                assert(pre.drop_last() =~= self.index@.subrange(0, i - 1));
            }
            i = i - 1;
            if coder::bytes32_eq(&self.index[i].hash, h) {
                return Some(self.index[i].duplicate());
            }
        }
        assert(self.index@.subrange(0, 0) =~= Seq::<Block>::empty());
        None
    }

    /// Accepts a block into storage. A block higher than the tail moves
    /// the cursor to it; one at or below the tail is kept in the index
    /// but leaves the cursor alone (there is no fork choice in this
    /// scope). A block that properly extends the chain keeps the chain
    /// invariant.
    pub fn input_block(&mut self, b: Block) -> (r: Result<(), ChainError>)
        ensures
            r is Ok,
            final(self).index@ == old(self).index@.push(b),
            final(self).genesis_hash == old(self).genesis_hash,
            final(self).curr_height >= old(self).curr_height,
            b@.header.height > old(self).curr_height ==> final(self).curr_hash == b.hash && final(
                self).curr_bits == b.header.bits && final(self).curr_height == b.header.height
                && final(self).chain@ == old(self).chain@.push(b@),
            !(b@.header.height > old(self).curr_height) ==> final(self).curr_hash == old(
                self).curr_hash && final(self).curr_bits == old(self).curr_bits && final(
                self).curr_height == old(self).curr_height && final(self).chain@ == old(
                self).chain@,
            old(self).wf() && old(self).extends(b@) ==> final(self).wf(),
            old(self).wf() && !(b@.header.height > old(self).curr_height) && old(self).hash_fresh(
                b@.hash,
            ) ==> final(self).wf(),
    {
        let ghost old_self = *self;
        let higher = b.header.height > self.curr_height;
        if higher {
            self.curr_hash = b.hash;
            self.curr_bits = b.header.bits;
            self.curr_height = b.header.height;
            self.chain = Ghost(self.chain@.push(b@));
        }
        proof {
            assert forall|h: Seq<u8>| true implies lookup(old_self.index@.push(b), h) == (if b@.hash
                == h {
                Some(b@)
            } else {
                lookup(old_self.index@, h)
            }) by {
                lemma_lookup_push(old_self.index@, b, h);
            }
        }
        self.index.push(b);
        Ok(())
    }

    /// The genesis block, as [`genesis_block_ok`] describes it.
    pub fn get_genesis_block() -> (b: Block)
        ensures
            genesis_block_ok(b@),
    {
        let zero = [0u8; 32];
        assert(zero@ =~= zero32());
        let tx = Transaction::new(zero, zero, 0, 0, 0, "This is genesis".to_owned());
        let mut vec_tx: Vec<Transaction> = Vec::new();
        vec_tx.push(tx);
        let mut b = Block::new(vec_tx, zero, DIFFICULTY_1_TARGET, 0);
        let data = ProofOfWork::block_header_se(&mut b, 0);
        let hash = coder::get_hash(data.as_slice());
        b.hash = hash;
        b
    }

    /// A fresh chain holding exactly the genesis block, cursor on it.
    pub fn new_blockchain() -> (bc: BlockChain)
        ensures
            bc.wf(),
            bc.curr_height == 0,
            bc.curr_bits == DIFFICULTY_1_TARGET,
            bc.curr_hash == bc.genesis_hash,
            bc.chain@.len() == 1,
            genesis_block_ok(bc.chain@[0]),
            bc.chain@[0].hash == bc.genesis_hash@,
    {
        let genesis = Self::get_genesis_block();
        let genesis_hash = genesis.hash;
        let ghost gview = genesis@;
        let ghost gchain: Seq<BlockView> = seq![gview];
        let mut index: Vec<Block> = Vec::new();
        index.push(genesis);
        let bc = BlockChain {
            index,
            chain: Ghost(gchain),
            genesis_hash,
            curr_bits: DIFFICULTY_1_TARGET,
            curr_hash: genesis_hash,
            curr_height: 0,
        };
        proof {
            assert(bc.index@.last()@ == gview);
            assert(lookup(bc.index@, gview.hash) == Some(gview));
        }
        bc
    }

    /// Walks the chain from the tail back to genesis through the index
    /// and returns the blocks in increasing height order, genesis
    /// first. On a well-formed chain this is exactly the canonical
    /// chain; a missing predecessor reports `BrokenChain`.
    pub fn traverse_from_tail(&self) -> (r: Result<Vec<Block>, ChainError>)
        ensures
            self.wf() ==> r is Ok && r.unwrap()@.len() == self.chain@.len() && (forall|i: int|
                0 <= i < self.chain@.len() ==> (#[trigger] r.unwrap()@[i])@ == self.chain@[i]),
            r matches Err(e) ==> e == ChainError::BrokenChain,
    {
        let ghost c = self.chain@;
        let mut rev: Vec<Block> = Vec::new();
        let mut h: [u8; 32] = self.curr_hash;
        let mut steps: u64 = 0;
        proof {
            if self.wf() {
                self.lemma_chain_length();
            }
        }
        loop
            invariant_except_break
                self.wf() ==> {
                    &&& steps < c.len()
                    &&& rev@.len() == steps
                    &&& h@ == c[c.len() - 1 - steps].hash
                    &&& forall|j: int| 0 <= j < steps ==> (#[trigger] rev@[j])@ == c[c.len() - 1 - j]
                },
            invariant
                steps <= self.curr_height,
                c == self.chain@,
            ensures
                self.wf() ==> rev@.len() == c.len() && (forall|j: int|
                    0 <= j < c.len() ==> (#[trigger] rev@[j])@ == c[c.len() - 1 - j]),
            decreases self.curr_height - steps,
        {
            let b = match self.lookup_block(&h) {
                Some(b) => b,
                None => {
                    return Err(ChainError::BrokenChain);
                },
            };
            let pre = b.header.pre_hash;
            let at_genesis = coder::bytes32_eq(&h, &self.genesis_hash);
            rev.push(b);
            proof {
                if self.wf() {
                    let pos = c.len() - 1 - steps;
                    assert(rev@[steps as int]@ == c[pos]);
                    if at_genesis {
                        self.lemma_chain_hash_unique(pos, 0);
                        assert(steps + 1 == c.len());
                    } else {
                        assert(pos != 0);
                    }
                }
            }
            if at_genesis {
                break ;
            }
            if steps >= self.curr_height {
                proof {
                    if self.wf() {
                        self.lemma_chain_length();
                        assert(c.len() - 1 - steps != 0);
                        assert(false);
                    }
                }
                return Err(ChainError::BrokenChain);
            }
            h = pre;
            steps = steps + 1;
            proof {
                if self.wf() {
                    assert(pre@ =~= c[c.len() - steps].header.pre_hash);
                    assert(h@ == c[c.len() - 1 - steps].hash);
                }
            }
        }
        let n = rev.len();
        let mut out: Vec<Block> = Vec::new();
        let mut k: usize = 0;
        while k < n
            invariant
                k <= n == rev@.len(),
                out@.len() == k,
                forall|i: int| 0 <= i < k ==> (#[trigger] out@[i])@ == rev@[n - 1 - i]@,
            decreases n - k,
        {
            out.push(rev[n - 1 - k].duplicate());
            k = k + 1;
        }
        proof {
            if self.wf() {
                assert(rev@.len() == c.len());
                assert forall|i: int| 0 <= i < c.len() implies (#[trigger] out@[i])@ == c[i] by {
                    assert(rev@[c.len() - 1 - i]@ == c[i]);
                }
            }
        }
        Ok(out)
    }
}

} // verus!
