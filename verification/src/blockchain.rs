//! The chain itself: an ordered chain of blocks over [`Records`], with its
//! difficulty rules and the ledger that follows it.

use vstd::bytes::{u128_to_le_bytes, u64_to_le_bytes};
use vstd::prelude::*;

use crate::block::{Block, BlockModel};
use crate::codec::{decode_block, encode_block};
use crate::model::ChainModel;
use crate::params::{ChainParams, FINALITY_DEPTH, LWMA_WINDOW};
use crate::records::{Meta, Records, RecordsModel, Write};

verus! {

/// Compute the proof-of-work value of a single block. A lower target is harder
/// and worth more.
pub fn block_work(difficulty_target: u64) -> (work: u128)
    ensures
        work == crate::model::work_of(difficulty_target),
{
    if difficulty_target == 0 {
        return 1;
    }
    (u64::MAX as u128) / (difficulty_target as u128)
}

/// The blocks that can be read from their records.
pub open spec fn readable(blocks: Map<u64, Seq<u8>>) -> Map<u64, BlockModel> {
    Map::new(
        |i: u64| blocks.dom().contains(i) && crate::codec::decoded_block(blocks[i]) is Some,
        |i: u64| crate::codec::decoded_block(blocks[i])->0,
    )
}

/// The chain. Only its counters are always in memory; blocks are read from the
/// records on demand.
pub struct Blockchain {
    /// The block and metadata records.
    pub db: Records,
    /// Index of the last block.
    pub height: u64,
    /// Mining target. A hash is valid if its first eight bytes, read as a
    /// big-endian integer, are less than it: higher is easier, lower is harder.
    pub difficulty: u64,
    /// Target time per block in milliseconds.
    pub target_block_ms: u64,
    /// Cumulative proof-of-work of the chain.
    pub chainwork: u128,
    /// Parameters of the network.
    pub params: ChainParams,
}

impl View for Blockchain {
    type V = ChainModel;

    open spec fn view(&self) -> ChainModel {
        ChainModel {
            stored: readable(self.records().blocks),
            loaded: self.records().blocks.dom(),
            meta: self.records().meta,
            height: self.height,
            difficulty: self.difficulty,
            target_block_ms: self.target_block_ms,
            chainwork: self.chainwork,
        }
    }
}

/// The content of an optional block.
pub open spec fn block_model(block: Option<Block>) -> Option<BlockModel> {
    match block {
        Some(b) => Some(b@),
        None => None,
    }
}

impl ChainModel {
    /// The chain with the record of a block in memory.
    pub open spec fn with_record(self, index: u64, bytes: Seq<u8>) -> ChainModel {
        ChainModel {
            stored: match crate::codec::decoded_block(bytes) {
                Some(block) => self.stored.insert(index, block),
                None => self.stored.remove(index),
            },
            loaded: self.loaded.insert(index),
            ..self
        }
    }

    /// The chain without the record of a block in memory.
    pub open spec fn without_record(self, index: u64) -> ChainModel {
        ChainModel {
            stored: self.stored.remove(index),
            loaded: self.loaded.remove(index),
            ..self
        }
    }
}

impl Blockchain {
    /// The records under the chain.
    pub open spec fn records(&self) -> RecordsModel {
        self.db@
    }

    /// The writes that the disk has not seen yet, oldest first.
    pub open spec fn pending(&self) -> Seq<crate::records::WriteModel> {
        self.db.pending()
    }

    /// The records as the disk last agreed with them.
    pub open spec fn on_disk(&self) -> crate::records::Image {
        self.db.on_disk()
    }

    /// The pending writes turn what is on disk into what is in memory.
    pub open spec fn wf(&self) -> bool {
        crate::records::replayed(self.on_disk(), self.pending()) == self.records().image()
    }

    /// Whether `self` came from `before` by changes that the pending writes carry
    /// to disk.
    pub open spec fn follows(&self, before: &Blockchain) -> bool {
        &&& self.wf()
        &&& self.on_disk() == before.on_disk()
        &&& self.params == before.params
    }

    // ── Queries ──────────────────────────────────────────────────────────────

    /// Current tip index (0 = only genesis).
    pub fn height(&self) -> (height: u64)
        ensures
            height == self@.height,
    {
        self.height
    }

    /// The block at an index, if there is one that can be read; none above the
    /// tip.
    pub fn block_at(&self, index: u64) -> (block: Option<Block>)
        ensures
            block_model(block) == self@.block(index),
    {
        if index > self.height {
            None
        } else {
            self.read_block(index)
        }
    }

    pub(crate) fn read_block(&self, index: u64) -> (block: Option<Block>)
        ensures
            block_model(block) == if self@.stored.dom().contains(index) {
                Some(self@.stored[index])
            } else {
                None
            },
    {
        match self.db.block(index) {
            Some(bytes) => decode_block(bytes.as_slice()),
            None => None,
        }
    }

    /// Whether the record of a block is in memory.
    pub fn has_block(&self, index: u64) -> (loaded: bool)
        ensures
            loaded == self.records().blocks.dom().contains(index),
    {
        self.db.block(index).is_some()
    }

    /// The last block.
    pub fn tip(&self) -> (block: Block)
        requires
            self@.has_tip(),
        ensures
            block@ == self@.tip(),
    {
        self.block_at(self.height).unwrap()
    }

    /// Number of blocks, genesis included.
    pub fn total_blocks(&self) -> (total: usize)
        requires
            self.height < usize::MAX,
        ensures
            total == self@.height + 1,
    {
        (self.height + 1) as usize
    }

    /// Whether the last block can be read.
    pub fn has_tip(&self) -> (yes: bool)
        ensures
            yes == self@.has_tip(),
    {
        self.block_at(self.height).is_some()
    }

    /// Whether the records from `low` to `high` are in memory.
    pub fn holds(&self, low: u64, high: u64) -> (yes: bool)
        ensures
            yes == self@.holds(low as int, high as int),
    {
        if low > high {
            return true;
        }
        let mut i: u64 = high;
        loop
            invariant
                low <= i <= high,
                self@.holds(i + 1, high as int),
            decreases i,
        {
            if !self.has_block(i) {
                assert(!self@.loaded.contains(i));
                return false;
            }
            assert(self@.loaded.contains(i));
            assert(self@.holds(i as int, high as int));
            if i == low {
                return true;
            }
            i = i - 1;
        }
    }

    /// Whether the records are in memory that decide on the difficulty once the tip
    /// has been followed or replaced.
    pub fn holds_window(&self) -> (yes: bool)
        ensures
            yes == self@.holds_window(),
    {
        self.holds(self.height.saturating_sub(LWMA_WINDOW + 1), self.height)
    }

    /// Whether the records are in memory that a reorganisation can come to read.
    pub fn holds_recent(&self) -> (yes: bool)
        ensures
            yes == self@.holds_recent(),
    {
        self.holds(self.height.saturating_sub(FINALITY_DEPTH + LWMA_WINDOW), self.height)
    }

    /// Whether the blocks from `low` to the tip can be read.
    pub(crate) fn can_read_from(&self, low: u64) -> (yes: bool)
        requires
            low <= self.height,
        ensures
            yes == crate::model::present(self@.stored, low as int, self@.height as int),
    {
        let mut i: u64 = self.height;
        loop
            invariant
                low <= i <= self.height,
                crate::model::present(self@.stored, i + 1, self.height as int),
            decreases i,
        {
            if self.block_at(i).is_none() {
                assert(!self@.stored.dom().contains(i));
                return false;
            }
            assert(crate::model::present(self@.stored, i as int, self.height as int));
            if i == low {
                return true;
            }
            i = i - 1;
        }
    }

    // ── Writing to the records ───────────────────────────────────────────────

    /// Takes in a block record that was read from disk.
    pub fn load_block(&mut self, index: u64, bytes: Vec<u8>)
        requires
            old(self).wf(),
            old(self).pending().len() == 0,
        ensures
            final(self).wf(),
            final(self).pending() == old(self).pending(),
            final(self).params == old(self).params,
            final(self).records() == (RecordsModel {
                blocks: old(self).records().blocks.insert(index, bytes@),
                ..old(self).records()
            }),
            final(self)@ == old(self)@.with_record(index, bytes@),
    {
        self.db.load_block(index, bytes);
        proof {
            lemma_readable_load(old(self).db@.blocks, index, bytes@);
        }
    }

    /// Drops a block record from memory; the disk keeps it.
    pub fn forget_block(&mut self, index: u64)
        requires
            old(self).wf(),
            old(self).pending().len() == 0,
        ensures
            final(self).wf(),
            final(self).pending() == old(self).pending(),
            final(self).params == old(self).params,
            final(self).records() == (RecordsModel {
                blocks: old(self).records().blocks.remove(index),
                ..old(self).records()
            }),
            final(self)@ == old(self)@.without_record(index),
    {
        self.db.forget_block(index);
        proof {
            lemma_readable_remove(old(self).db@.blocks, index);
        }
    }

    /// Hands out the writes that have to reach the disk, oldest first.
    pub fn take_writes(&mut self) -> (writes: Vec<Write>)
        requires
            old(self).wf(),
        ensures
            final(self).wf(),
            final(self)@ == old(self)@,
            final(self).records() == old(self).records(),
            final(self).params == old(self).params,
            final(self).pending().len() == 0,
            crate::records::write_models(writes@) == old(self).pending(),
            crate::records::replayed(
                old(self).on_disk(),
                crate::records::write_models(writes@),
            ) == final(self).records().image(),
            final(self).on_disk() == final(self).records().image(),
    {
        self.db.take_writes()
    }

    /// Does nothing: every change is among the pending writes at once. It is there
    /// for callers that save at certain moments.
    pub fn save(&self, _path: &str) {
    }

    pub(crate) fn store_block(&mut self, block: &Block)
        requires
            old(self).wf(),
        ensures
            final(self).follows(old(self)),
            final(self)@ == old(self)@.with_block(block@),
            final(self).records().blocks == old(self).records().blocks.insert(
                block.index,
                crate::codec::encoded_block(block@),
            ),
    {
        let bytes = encode_block(block);
        self.db.put_block(block.index, bytes);
        self.set_height(block.index);
        proof {
            lemma_readable_insert(old(self).db@.blocks, block.index, bytes@, block@);
        }
    }

    pub(crate) fn drop_tip(&mut self)
        requires
            old(self).wf(),
            old(self).height > 0,
        ensures
            final(self).follows(old(self)),
            final(self)@ == old(self)@.without_record(old(self)@.height).with_height(
                (old(self)@.height - 1) as u64,
            ),
    {
        self.db.delete_block(self.height);
        self.set_height(self.height - 1);
        proof {
            lemma_readable_remove(old(self).db@.blocks, old(self).height);
        }
    }

    pub(crate) fn set_height(&mut self, height: u64)
        requires
            old(self).wf(),
        ensures
            final(self).follows(old(self)),
            final(self)@ == old(self)@.with_height(height),
            final(self).records().blocks == old(self).records().blocks,
    {
        self.height = height;
        self.db.put_meta(Meta::Height, u64_to_le_bytes(height));
    }

    pub(crate) fn set_difficulty(&mut self, difficulty: u64)
        requires
            old(self).wf(),
        ensures
            final(self).follows(old(self)),
            final(self)@ == old(self)@.with_difficulty(difficulty),
            final(self).records().blocks == old(self).records().blocks,
    {
        self.difficulty = difficulty;
        self.db.put_meta(Meta::Difficulty, u64_to_le_bytes(difficulty));
    }

    pub(crate) fn set_target_time(&mut self, target_block_ms: u64)
        requires
            old(self).wf(),
        ensures
            final(self).follows(old(self)),
            final(self)@ == old(self)@.with_target_time(target_block_ms),
            final(self).records().blocks == old(self).records().blocks,
    {
        self.target_block_ms = target_block_ms;
        self.db.put_meta(Meta::TargetTime, u64_to_le_bytes(target_block_ms));
    }

    pub(crate) fn set_chainwork(&mut self, chainwork: u128)
        requires
            old(self).wf(),
        ensures
            final(self).follows(old(self)),
            final(self)@ == old(self)@.with_chainwork(chainwork),
            final(self).records().blocks == old(self).records().blocks,
    {
        self.chainwork = chainwork;
        self.db.put_meta(Meta::Chainwork, u128_to_le_bytes(chainwork));
    }
}

pub(crate) proof fn lemma_readable_insert(
    blocks: Map<u64, Seq<u8>>,
    index: u64,
    bytes: Seq<u8>,
    block: BlockModel,
)
    requires
        crate::codec::decoded_block(bytes) == Some(block),
    ensures
        readable(blocks.insert(index, bytes)) == readable(blocks).insert(index, block),
{
    assert(readable(blocks.insert(index, bytes)) =~= readable(blocks).insert(index, block));
}

proof fn lemma_readable_load(blocks: Map<u64, Seq<u8>>, index: u64, bytes: Seq<u8>)
    ensures
        readable(blocks.insert(index, bytes)) == match crate::codec::decoded_block(bytes) {
            Some(block) => readable(blocks).insert(index, block),
            None => readable(blocks).remove(index),
        },
{
    match crate::codec::decoded_block(bytes) {
        Some(block) => {
            assert(readable(blocks.insert(index, bytes)) =~= readable(blocks).insert(
                index,
                block,
            ));
        },
        None => {
            assert(readable(blocks.insert(index, bytes)) =~= readable(blocks).remove(index));
        },
    }
}

proof fn lemma_readable_remove(blocks: Map<u64, Seq<u8>>, index: u64)
    ensures
        readable(blocks.remove(index)) == readable(blocks).remove(index),
{
    assert(readable(blocks.remove(index)) =~= readable(blocks).remove(index));
}

} // verus!
