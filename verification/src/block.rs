//! Blocks and the transactions they carry, as the chain reads them.

use vstd::prelude::*;

use crate::hash::{hash_eq, meets_target};

verus! {

/// A signed transfer. The chain hands it to the ledger and stores it; it reads
/// nothing of it but the hash under which the mempool knows it.
#[derive(Debug, PartialEq, Eq)]
pub struct Transaction {
    pub hash: [u8; 32],
    pub sender: [u8; 32],
    pub recipient: [u8; 32],
    pub amount: u64,
    pub sequence: u64,
    /// Signature and work proof, as the wallet made them.
    pub proof_bytes: Vec<u8>,
}

/// The mathematical content of a [`Transaction`].
#[verifier::ext_equal]
pub struct TxModel {
    pub hash: [u8; 32],
    pub sender: [u8; 32],
    pub recipient: [u8; 32],
    pub amount: u64,
    pub sequence: u64,
    pub proof_bytes: Seq<u8>,
}

impl View for Transaction {
    type V = TxModel;

    open spec fn view(&self) -> TxModel {
        TxModel {
            hash: self.hash,
            sender: self.sender,
            recipient: self.recipient,
            amount: self.amount,
            sequence: self.sequence,
            proof_bytes: self.proof_bytes@,
        }
    }
}

impl Clone for Transaction {
    fn clone(&self) -> (copy: Self)
        ensures
            copy@ == self@,
    {
        let mut proof_bytes: Vec<u8> = Vec::new();
        let mut i: usize = 0;
        while i < self.proof_bytes.len()
            invariant
                i <= self.proof_bytes.len(),
                proof_bytes@ =~= self.proof_bytes@.take(i as int),
            decreases self.proof_bytes.len() - i,
        {
            proof_bytes.push(self.proof_bytes[i]);
            i = i + 1;
        }
        assert(proof_bytes@ =~= self.proof_bytes@);
        Transaction {
            hash: self.hash,
            sender: self.sender,
            recipient: self.recipient,
            amount: self.amount,
            sequence: self.sequence,
            proof_bytes,
        }
    }
}

/// A block of the chain. Its `difficulty_target` is zero in blocks older than
/// the field.
#[derive(Debug, PartialEq, Eq)]
pub struct Block {
    pub index: u64,
    pub prev_hash: [u8; 32],
    pub timestamp: u64,
    pub miner: [u8; 32],
    pub nonce: u64,
    pub hash: [u8; 32],
    pub reward: u64,
    pub transactions: Vec<Transaction>,
    pub difficulty_target: u64,
}

/// The mathematical content of a [`Block`].
#[verifier::ext_equal]
pub struct BlockModel {
    pub index: u64,
    pub prev_hash: [u8; 32],
    pub timestamp: u64,
    pub miner: [u8; 32],
    pub nonce: u64,
    pub hash: [u8; 32],
    pub reward: u64,
    pub transactions: Seq<TxModel>,
    pub difficulty_target: u64,
}

/// The contents of a list of transactions, in order.
pub open spec fn tx_models(txs: Seq<Transaction>) -> Seq<TxModel> {
    txs.map_values(|tx: Transaction| tx@)
}

/// The contents of a list of blocks, in order.
pub open spec fn block_models(blocks: Seq<Block>) -> Seq<BlockModel> {
    blocks.map_values(|b: Block| b@)
}

proof fn lemma_tx_models_push(txs: Seq<Transaction>, tx: Transaction)
    ensures
        tx_models(txs.push(tx)) == tx_models(txs).push(tx@),
{
    assert(tx_models(txs.push(tx)) =~= tx_models(txs).push(tx@));
}

pub(crate) proof fn lemma_block_models_push(blocks: Seq<Block>, block: Block)
    ensures
        block_models(blocks.push(block)) == block_models(blocks).push(block@),
{
    assert(block_models(blocks.push(block)) =~= block_models(blocks).push(block@));
}

impl View for Block {
    type V = BlockModel;

    open spec fn view(&self) -> BlockModel {
        BlockModel {
            index: self.index,
            prev_hash: self.prev_hash,
            timestamp: self.timestamp,
            miner: self.miner,
            nonce: self.nonce,
            hash: self.hash,
            reward: self.reward,
            transactions: tx_models(self.transactions@),
            difficulty_target: self.difficulty_target,
        }
    }
}

impl Clone for Block {
    fn clone(&self) -> (copy: Self)
        ensures
            copy@ == self@,
    {
        let mut transactions: Vec<Transaction> = Vec::new();
        let mut i: usize = 0;
        while i < self.transactions.len()
            invariant
                i <= self.transactions.len(),
                tx_models(transactions@) =~= tx_models(self.transactions@).take(i as int),
            decreases self.transactions.len() - i,
        {
            let ghost before = transactions@;
            let tx = self.transactions[i].clone();
            transactions.push(tx);
            proof {
                lemma_tx_models_push(before, tx);
            }
            i = i + 1;
        }
        assert(tx_models(transactions@) =~= tx_models(self.transactions@));
        Block {
            index: self.index,
            prev_hash: self.prev_hash,
            timestamp: self.timestamp,
            miner: self.miner,
            nonce: self.nonce,
            hash: self.hash,
            reward: self.reward,
            transactions,
            difficulty_target: self.difficulty_target,
        }
    }
}

/// The next block of a chain whose last block is `prev`: it carries the next
/// index and names the hash of `prev`.
pub open spec fn extends(block: BlockModel, prev: BlockModel) -> bool {
    block.index == prev.index + 1 && block.prev_hash == prev.hash
}

impl Block {
    /// Whether this block is the next one after `prev`.
    pub fn extends(&self, prev: &Block) -> (linked: bool)
        ensures
            linked == extends(self@, prev@),
    {
        prev.index < u64::MAX && self.index == prev.index + 1 && hash_eq(
            &self.prev_hash,
            &prev.hash,
        )
    }

    /// Whether this block may follow `prev` under a mining target, given the
    /// outcome of the checks that need the header hash function and the clock.
    pub fn is_valid(&self, prev: &Block, difficulty: u64, header_ok: bool) -> (valid: bool)
        ensures
            valid == (header_ok && extends(self@, prev@) && crate::hash::leading_u64(self.hash)
                < difficulty),
    {
        header_ok && self.extends(prev) && meets_target(&self.hash, difficulty)
    }
}

} // verus!
