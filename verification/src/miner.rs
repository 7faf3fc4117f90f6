//! The miner and the host that drives it: assemble a candidate block,
//! run the proof-of-work, append the result to the chain.

use vstd::prelude::*;

verus! {

use crate::coder::zero32;
use crate::transaction::{Transaction, TxView, tx_hash_ok};
use crate::block::{Block, BlockView, views_of_txs, tx_hashes, merkle_root_spec};
use crate::blockchain::{BlockChain, genesis_block_ok, DIFFICULTY_1_TARGET};
use crate::pow::{ProofOfWork, pow_wins, attempt, target_bytes, header_with_nonce, be_val};
use crate::ChainError;

pub struct Miner {
    address: [u8; 32],
}

impl View for Miner {
    type V = Seq<u8>;

    closed spec fn view(&self) -> Seq<u8> {
        self.address@
    }
}

/// The reward transaction a miner puts first in every block it
/// assembles: zero-valued, from the zero address to the miner's own.
pub open spec fn coinbase_tx_ok(addr: Seq<u8>, tx: TxView) -> bool {
    &&& tx.from == zero32()
    &&& tx.to == addr
    &&& tx.amount == 0
    &&& tx.fee == 0
    &&& tx.nonce == 0
    &&& tx.sign == "coinbase"@
    &&& tx_hash_ok(tx)
}

/// What a successfully mined block looks like: the requested header
/// fields, the miner's reward transaction followed by the submitted
/// ones in order, the Merkle root over exactly that list, and a header
/// digest that won the proof-of-work search at the least winning nonce.
pub open spec fn mined_block_ok(
    addr: Seq<u8>,
    txs: Seq<TxView>,
    pre_hash: Seq<u8>,
    bits: u32,
    height: u64,
    b: BlockView,
) -> bool {
    &&& b.header.height == height
    &&& b.header.pre_hash == pre_hash
    &&& b.header.bits == bits
    &&& b.header.state_root == zero32()
    &&& b.transactions.len() == txs.len() + 1
    &&& coinbase_tx_ok(addr, b.transactions[0])
    &&& forall|i: int| 0 <= i < txs.len() ==> b.transactions[i + 1] == txs[i]
    &&& b.header.tx_hash == merkle_root_spec(tx_hashes(b.transactions))
    &&& pow_wins(b.header, target_bytes(bits), b.header.nonce)
    &&& b.hash == attempt(b.header, b.header.nonce)
}

impl Miner {
    pub fn new(address: [u8; 32]) -> (m: Miner)
        ensures
            m@ == address@,
    {
        Miner { address }
    }

    /// Builds the block and runs the proof-of-work to completion.
    fn produce_block(vec_tx: Vec<Transaction>, pre_hash: [u8; 32], bits: u32, height: u64) -> (r:
        Result<Block, ChainError>)
        ensures
            r matches Ok(b) ==> b@.header.height == height && b@.header.pre_hash == pre_hash@
                && b@.header.bits == bits && b@.header.state_root == zero32() && b@.transactions
                == views_of_txs(vec_tx@) && b@.header.tx_hash == merkle_root_spec(
                tx_hashes(views_of_txs(vec_tx@)),
            ) && pow_wins(b@.header, target_bytes(bits), b@.header.nonce) && b@.hash == attempt(
                b@.header,
                b@.header.nonce,
            ),
            r is Err ==> r == Result::<Block, ChainError>::Err(ChainError::MiningExhausted),
    {
        let mut block = Block::new(vec_tx, pre_hash, bits, height);
        let ghost h0 = block@.header;
        let pow = ProofOfWork::new(bits);
        match pow.run(&mut block) {
            Ok(()) => {
                proof {
                    let hf = block@.header;
                    let n = hf.nonce;
                    assert(header_with_nonce(h0, n) =~= header_with_nonce(hf, n));
                    assert forall|k: u32| k < n implies be_val(#[trigger] attempt(hf, k)) > be_val(
                        target_bytes(bits),
                    ) by {
                        assert(header_with_nonce(h0, k) =~= header_with_nonce(hf, k));
                        assert(be_val(attempt(h0, k)) > be_val(target_bytes(bits)));
                    }
                    assert(views_of_txs(block.transactions@) =~= views_of_txs(vec_tx@));
                }
                Ok(block)
            },
            Err(e) => Err(e),
        }
    }

    /// Assembles and mines one block: the reward transaction first,
    /// then the submitted transactions, which are drained from the
    /// caller's vector.
    pub fn mine(
        &self,
        transactions: &mut Vec<Transaction>,
        pre_hash: [u8; 32],
        bits: u32,
        height: u64,
    ) -> (r: Result<Block, ChainError>)
        ensures
            final(transactions)@.len() == 0,
            r matches Ok(b) ==> mined_block_ok(
                self@,
                views_of_txs(old(transactions)@),
                pre_hash@,
                bits,
                height,
                b@,
            ),
            r is Err ==> r == Result::<Block, ChainError>::Err(ChainError::MiningExhausted),
    {
        let zero = [0u8; 32];
        assert(zero@ =~= zero32());
        let mut vec_tx: Vec<Transaction> = Vec::new();
        let tx = Transaction::new(zero, self.address, 0, 0, 0, "coinbase".to_owned());
        vec_tx.push(tx);
        vec_tx.append(transactions);
        proof {
            assert(views_of_txs(vec_tx@).drop_first() =~= views_of_txs(old(transactions)@));
        }
        Self::produce_block(vec_tx, pre_hash, bits, height)
    }
}

pub struct Host {
    pub blockchain: BlockChain,
    pub miner: Miner,
}

/// The fixed address the host's miner collects rewards at.
pub open spec fn host_miner_address() -> Seq<u8> {
    Seq::new(32, |i: int| 8u8)
}

impl Host {
    /// A host over a fresh chain, mining to a fixed address.
    pub fn new() -> (h: Host)
        ensures
            h.blockchain.wf(),
            h.blockchain.curr_height == 0,
            h.blockchain.curr_bits == DIFFICULTY_1_TARGET,
            h.blockchain.curr_hash == h.blockchain.genesis_hash,
            h.blockchain.chain@.len() == 1,
            genesis_block_ok(h.blockchain.chain@[0]),
            h.blockchain.chain@[0].hash == h.blockchain.genesis_hash@,
            h.miner@ == host_miner_address(),
    {
        let address = [8u8; 32];
        assert(address@ =~= host_miner_address());
        Host { blockchain: BlockChain::new_blockchain(), miner: Miner::new(address) }
    }

    /// Mines the submitted transactions into one block on the current
    /// tail and appends it: the cursor advances by exactly one height.
    /// The chain invariant carries over whenever the new block's hash
    /// is one the chain has not seen. A failed search leaves the chain
    /// untouched and reports `MiningExhausted`.
    pub fn mining(&mut self, txs: &mut Vec<Transaction>) -> (r: Result<Block, ChainError>)
        requires
            old(self).blockchain.wf(),
            old(self).blockchain.curr_height < u64::MAX,
        ensures
            final(txs)@.len() == 0,
            final(self).miner == old(self).miner,
            r matches Ok(b) ==> mined_block_ok(
                old(self).miner@,
                views_of_txs(old(txs)@),
                old(self).blockchain.curr_hash@,
                old(self).blockchain.curr_bits,
                (old(self).blockchain.curr_height + 1) as u64,
                b@,
            ) && final(self).blockchain.curr_height == old(self).blockchain.curr_height + 1
                && final(self).blockchain.curr_hash == b.hash && final(self).blockchain.chain@
                == old(self).blockchain.chain@.push(b@) && (old(self).blockchain.hash_fresh(
                b@.hash,
            ) ==> final(self).blockchain.wf()),
            r is Err ==> r == Result::<Block, ChainError>::Err(ChainError::MiningExhausted)
                && final(self).blockchain == old(self).blockchain,
    {
        let b = match self.miner.mine(
            txs,
            self.blockchain.curr_hash,
            self.blockchain.curr_bits,
            self.blockchain.curr_height + 1,
        ) {
            Ok(b) => b,
            Err(e) => {
                return Err(e);
            },
        };
        let dup = b.duplicate();
        let _ = self.blockchain.input_block(b);
        Ok(dup)
    }
}

} // verus!
