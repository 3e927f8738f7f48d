//! Reading the chain: ranges of blocks, pages of blocks, and where a peer's
//! chain parts from this one.

use vstd::prelude::*;

use crate::block::{Block, BlockModel};
use crate::blockchain::Blockchain;
use crate::hash::{hash_eq, hex_encode};
use crate::model::ChainModel;

verus! {

/// An entry of a block locator: a height and the block's hash in hexadecimal.
pub type LocatorEntry = (u64, Seq<char>);

/// A locator as mathematics.
pub open spec fn locator_model(locator: Seq<(u64, String)>) -> Seq<LocatorEntry> {
    locator.map_values(|e: (u64, String)| (e.0, e.1@))
}

impl ChainModel {
    /// Up to `limit` blocks, newest first, the first of them `offset` below the
    /// tip. Below genesis there is nothing.
    pub open spec fn page(self, offset: int, limit: int) -> Seq<BlockModel> {
        let start = self.height - offset;
        if limit == 0 || offset > self.height {
            Seq::empty()
        } else {
            self.blocks_between(crate::model::monus(start, limit - 1), start).reverse()
        }
    }

    /// The readable blocks of a miner, oldest first.
    pub open spec fn mined_by(self, pubkey: [u8; 32]) -> Seq<BlockModel> {
        self.blocks_between(0, self.height as int).filter(|b: BlockModel| b.miner == pubkey)
    }

    /// The locator entry of a stored block.
    pub open spec fn entry(self, height: u64) -> LocatorEntry {
        (height, crate::hash::hex_text(self.stored[height].hash@))
    }

    /// Walks down from height `h`, adding an entry for each block it can read,
    /// until genesis or until there are enough. Once there are two entries, each
    /// step is twice the one before.
    pub open spec fn locator_walk(
        self,
        h: u64,
        step: u64,
        found: Seq<LocatorEntry>,
    ) -> Seq<LocatorEntry>
        decreases h,
    {
        let here = if self.stored.dom().contains(h) {
            found.push(self.entry(h))
        } else {
            found
        };
        if h == 0 || here.len() >= 32 || step == 0 {
            here
        } else {
            self.locator_walk(
                crate::model::monus(h as int, step as int) as u64,
                if here.len() > 1 {
                    crate::model::min_int(2 * step, u64::MAX as int) as u64
                } else {
                    step
                },
                here,
            )
        }
    }

    /// The block locator: the walk from the tip, and genesis.
    pub open spec fn locator(self) -> Seq<LocatorEntry> {
        let walk = self.locator_walk(self.height, 1, Seq::empty());
        if (walk.len() == 0 || walk.last().0 != 0) && self.stored.dom().contains(0) {
            walk.push(self.entry(0))
        } else {
            walk
        }
    }

    /// The first index on the walk of a locator, with `n` entries found so far, or
    /// genesis, whose record is not in memory.
    pub open spec fn walk_gap(self, h: u64, step: u64, n: int) -> Option<u64>
        decreases h,
    {
        let here = if self.stored.dom().contains(h) {
            n + 1
        } else {
            n
        };
        if !self.loaded.contains(h) {
            Some(h)
        } else if h == 0 || here >= 32 || step == 0 {
            if self.loaded.contains(0) {
                None
            } else {
                Some(0u64)
            }
        } else {
            self.walk_gap(
                crate::model::monus(h as int, step as int) as u64,
                if here > 1 {
                    crate::model::min_int(2 * step, u64::MAX as int) as u64
                } else {
                    step
                },
                here,
            )
        }
    }

    /// The first index that the block locator looks at and whose record is not in
    /// memory.
    pub open spec fn locator_gap(self) -> Option<u64> {
        self.walk_gap(self.height, 1, 0)
    }

    /// Whether the records that a locator names, up to the tip, are in memory.
    pub open spec fn holds_entries(self, locator: Seq<LocatorEntry>) -> bool {
        forall|k: int|
            0 <= k < locator.len() && (#[trigger] locator[k]).0 <= self.height
                ==> self.loaded.contains(locator[k].0)
    }

    /// Whether this chain holds the block that a locator entry names.
    pub open spec fn shares(self, entry: LocatorEntry) -> bool {
        self.block(entry.0) is Some && self.entry(entry.0) == entry
    }

    /// The highest of the first `n` entries of a locator that this chain shares.
    pub open spec fn common_ancestor_among(self, locator: Seq<LocatorEntry>, n: int) -> Option<u64>
        decreases n,
    {
        if n <= 0 {
            None
        } else {
            higher(
                self.common_ancestor_among(locator, n - 1),
                if self.shares(locator[n - 1]) {
                    Some(locator[n - 1].0)
                } else {
                    None
                },
            )
        }
    }

    /// The highest entry of a locator that this chain shares.
    pub open spec fn common_ancestor(self, locator: Seq<LocatorEntry>) -> Option<u64> {
        self.common_ancestor_among(locator, locator.len() as int)
    }

    /// The height up to which a block's chain is known to agree with this one: its
    /// own height if it is on this chain, else that of its parent if that one is.
    pub open spec fn meets(self, block: BlockModel) -> Option<u64> {
        if self.block(block.index) matches Some(ours) && ours.hash == block.hash {
            Some(block.index)
        } else if block.index > 0 && (self.block((block.index - 1) as u64) matches Some(ours)
            && ours.hash == block.prev_hash) {
            Some((block.index - 1) as u64)
        } else {
            None
        }
    }

    /// The height of the last block that this chain shares with the chain of the
    /// first `n` incoming blocks.
    pub open spec fn fork_point_among(self, incoming: Seq<BlockModel>, n: int) -> Option<u64>
        decreases n,
    {
        if n <= 0 {
            None
        } else {
            higher(self.fork_point_among(incoming, n - 1), self.meets(incoming[n - 1]))
        }
    }

    /// The height of the last block that this chain shares with the chain of the
    /// incoming blocks.
    pub open spec fn fork_point(self, incoming: Seq<BlockModel>) -> Option<u64> {
        self.fork_point_among(incoming, incoming.len() as int)
    }
}

/// The higher of two heights, if there is any.
pub open spec fn higher(a: Option<u64>, b: Option<u64>) -> Option<u64> {
    match (a, b) {
        (Some(x), Some(y)) => Some(
            if x >= y {
                x
            } else {
                y
            },
        ),
        (Some(x), None) => Some(x),
        (None, y) => y,
    }
}

fn highest(a: Option<u64>, b: Option<u64>) -> (height: Option<u64>)
    ensures
        height == higher(a, b),
{
    match (a, b) {
        (Some(x), Some(y)) => {
            if x >= y {
                Some(x)
            } else {
                Some(y)
            }
        },
        (Some(x), None) => Some(x),
        (None, y) => y,
    }
}

proof fn lemma_blocks_between_low(c: ChainModel, low: int, high: int)
    requires
        0 <= low <= high <= u64::MAX,
    ensures
        c.blocks_between(low, high) == (if c.stored.dom().contains(low as u64) {
            seq![c.stored[low as u64]]
        } else {
            Seq::empty()
        }) + c.blocks_between(low + 1, high),
    decreases high - low,
{
    let first = if c.stored.dom().contains(low as u64) {
        seq![c.stored[low as u64]]
    } else {
        Seq::<BlockModel>::empty()
    };
    if low < high {
        lemma_blocks_between_low(c, low, high - 1);
        assert(c.blocks_between(low, high) =~= first + c.blocks_between(low + 1, high));
    } else {
        assert(c.blocks_between(low, low - 1) =~= Seq::<BlockModel>::empty());
        assert(c.blocks_between(low, high) =~= first + c.blocks_between(low + 1, high));
    }
}

impl Blockchain {
    /// Up to `limit` blocks starting `offset` below the tip, newest first.
    pub fn blocks_paginated(&self, offset: usize, limit: usize) -> (blocks: Vec<Block>)
        ensures
            crate::block::block_models(blocks@) == self@.page(offset as int, limit as int),
    {
        let mut blocks: Vec<Block> = Vec::new();
        if limit == 0 || (offset as u64) > self.height {
            assert(crate::block::block_models(blocks@) =~= Seq::<BlockModel>::empty());
            return blocks;
        }
        let start: u64 = self.height - (offset as u64);
        let end: u64 = start.saturating_sub((limit as u64) - 1);
        let mut i: u64 = start;
        assert(self@.blocks_between(start + 1, start as int) =~= Seq::<BlockModel>::empty());
        assert(crate::block::block_models(blocks@) =~= Seq::<BlockModel>::empty().reverse());
        loop
            invariant_except_break
                end <= i <= start <= self.height,
                crate::block::block_models(blocks@) == self@.blocks_between(
                    i + 1,
                    start as int,
                ).reverse(),
            ensures
                crate::block::block_models(blocks@) == self@.blocks_between(
                    end as int,
                    start as int,
                ).reverse(),
            decreases i - end,
        {
            let ghost before = blocks@;
            proof {
                lemma_blocks_between_low(self@, i as int, start as int);
            }
            if let Some(block) = self.block_at(i) {
                blocks.push(block);
                proof {
                    crate::block::lemma_block_models_push(before, block);
                }
            }
            assert(crate::block::block_models(blocks@) =~= self@.blocks_between(
                i as int,
                start as int,
            ).reverse());
            if i == end {
                break;
            }
            i = i - 1;
        }
        blocks
    }

    /// All blocks from `from` to `to` or to the tip, oldest first.
    pub fn blocks_range(&self, from: u64, to: u64) -> (blocks: Vec<Block>)
        ensures
            crate::block::block_models(blocks@) == self@.blocks_between(
                from as int,
                crate::model::min_int(to as int, self@.height as int),
            ),
    {
        let to: u64 = if to < self.height {
            to
        } else {
            self.height
        };
        let mut blocks: Vec<Block> = Vec::new();
        assert(crate::block::block_models(blocks@) =~= Seq::<BlockModel>::empty());
        if from > to {
            return blocks;
        }
        let mut i: u64 = from;
        loop
            invariant_except_break
                from <= i <= to <= self.height,
                crate::block::block_models(blocks@) == self@.blocks_between(from as int, i - 1),
            ensures
                crate::block::block_models(blocks@) == self@.blocks_between(from as int, to as int),
            decreases to - i,
        {
            let ghost before = blocks@;
            if let Some(block) = self.block_at(i) {
                blocks.push(block);
                proof {
                    crate::block::lemma_block_models_push(before, block);
                }
            }
            if i == to {
                break;
            }
            i = i + 1;
        }
        blocks
    }

    /// All blocks mined by `pubkey`, oldest first.
    pub fn blocks_by_miner(&self, pubkey: &[u8; 32]) -> (blocks: Vec<Block>)
        ensures
            crate::block::block_models(blocks@) == self@.blocks_between(
                0,
                self@.height as int,
            ).filter(|b: BlockModel| b.miner == *pubkey),
            crate::block::block_models(blocks@) == self@.mined_by(*pubkey),
    {
        let mut blocks: Vec<Block> = Vec::new();
        let ghost by = |b: BlockModel| b.miner == *pubkey;
        proof {
            reveal(Seq::filter);
        }
        assert(self@.blocks_between(0, -1) =~= Seq::<BlockModel>::empty());
        assert(crate::block::block_models(blocks@) =~= Seq::<BlockModel>::empty().filter(by));
        let mut i: u64 = 0;
        loop
            invariant_except_break
                0 <= i <= self.height,
                by == (|b: BlockModel| b.miner == *pubkey),
                crate::block::block_models(blocks@) == self@.blocks_between(0, i - 1).filter(by),
            ensures
                crate::block::block_models(blocks@) == self@.blocks_between(
                    0,
                    self.height as int,
                ).filter(by),
            decreases self.height - i,
        {
            let ghost before = blocks@;
            if let Some(block) = self.block_at(i) {
                proof {
                    reveal(Seq::filter);
                    let some = self@.blocks_between(0, i - 1);
                    assert(some.push(block@).drop_last() =~= some);
                    assert(some.push(block@).last() == block@);
                }
                if hash_eq(&block.miner, pubkey) {
                    blocks.push(block);
                    proof {
                        crate::block::lemma_block_models_push(before, block);
                    }
                }
            }
            if i == self.height {
                break;
            }
            i = i + 1;
        }
        blocks
    }

    /// A block locator: heights and hashes from the tip to genesis, ever further
    /// apart, from which a peer finds the last block that both chains share.
    pub fn generate_block_locator(&self) -> (locator: Vec<(u64, String)>)
        ensures
            locator_model(locator@) == self@.locator(),
    {
        let mut locator: Vec<(u64, String)> = Vec::new();
        let mut step: u64 = 1;
        let mut h: u64 = self.height;
        assert(locator_model(locator@) =~= Seq::<LocatorEntry>::empty());
        loop
            invariant_except_break
                step >= 1,
                h <= self.height,
                self@.locator_walk(self.height, 1, Seq::empty()) == self@.locator_walk(
                    h,
                    step,
                    locator_model(locator@),
                ),
            ensures
                locator_model(locator@) == self@.locator_walk(self.height, 1, Seq::empty()),
            decreases h,
        {
            let ghost before = locator@;
            if let Some(block) = self.block_at(h) {
                let text = hex_encode(&block.hash);
                locator.push((h, text));
                assert(locator_model(locator@) =~= locator_model(before).push(self@.entry(h)));
            }
            if h == 0 {
                break;
            }
            h = h.saturating_sub(step);
            if locator.len() >= 32 {
                break;
            }
            if locator.len() > 1 {
                step = step.saturating_add(step);
            }
        }
        let n: usize = locator.len();
        let reaches_genesis = n > 0 && locator[n - 1].0 == 0;
        if !reaches_genesis {
            let ghost before = locator@;
            if let Some(genesis) = self.block_at(0) {
                let text = hex_encode(&genesis.hash);
                locator.push((0, text));
                assert(locator_model(locator@) =~= locator_model(before).push(self@.entry(0)));
            }
        }
        locator
    }

    /// The first index that the block locator looks at and whose record is not in
    /// memory.
    pub fn locator_gap(&self) -> (gap: Option<u64>)
        ensures
            gap == self@.locator_gap(),
    {
        let mut found: usize = 0;
        let mut step: u64 = 1;
        let mut h: u64 = self.height;
        loop
            invariant_except_break
                step >= 1,
                h <= self.height,
                found < 32,
                self@.locator_gap() == self@.walk_gap(h, step, found as int),
            ensures
                self@.locator_gap() == if self@.loaded.contains(0) {
                    None
                } else {
                    Some(0u64)
                },
            decreases h,
        {
            if !self.has_block(h) {
                return Some(h);
            }
            if self.block_at(h).is_some() {
                found = found + 1;
            }
            if h == 0 || found >= 32 {
                break;
            }
            h = h.saturating_sub(step);
            if found > 1 {
                step = step.saturating_add(step);
            }
        }
        if self.has_block(0) {
            None
        } else {
            Some(0)
        }
    }

    /// The height of the highest block of a peer's locator that is on this chain.
    pub fn find_common_ancestor_from_locator(&self, locator: &[(u64, String)]) -> (height: Option<
        u64,
    >)
        ensures
            height == self@.common_ancestor(locator_model(locator@)),
    {
        let mut best: Option<u64> = None;
        let mut i: usize = 0;
        while i < locator.len()
            invariant
                i <= locator.len(),
                best == self@.common_ancestor_among(locator_model(locator@), i as int),
            decreases locator.len() - i,
        {
            let height: u64 = locator[i].0;
            assert(locator_model(locator@)[i as int] == (height, locator@[i as int].1@));
            if let Some(block) = self.block_at(height) {
                let text = hex_encode(&block.hash);
                if text == locator[i].1 {
                    best = highest(best, Some(height));
                }
            }
            i = i + 1;
        }
        best
    }

    fn meeting_height(&self, block: &Block) -> (height: Option<u64>)
        ensures
            height == self@.meets(block@),
    {
        if let Some(ours) = self.block_at(block.index) {
            if hash_eq(&ours.hash, &block.hash) {
                return Some(block.index);
            }
        }
        if block.index == 0 {
            return None;
        }
        if let Some(ours) = self.block_at(block.index - 1) {
            if hash_eq(&ours.hash, &block.prev_hash) {
                return Some(block.index - 1);
            }
        }
        None
    }

    /// The height of the last block that this chain shares with the chain of some
    /// incoming blocks.
    pub fn find_fork_point(&self, incoming: &[Block]) -> (height: Option<u64>)
        ensures
            height == self@.fork_point(crate::block::block_models(incoming@)),
    {
        let mut best: Option<u64> = None;
        let mut i: usize = 0;
        while i < incoming.len()
            invariant
                i <= incoming.len(),
                best == self@.fork_point_among(
                    crate::block::block_models(incoming@),
                    i as int,
                ),
            decreases incoming.len() - i,
        {
            assert(crate::block::block_models(incoming@)[i as int] == incoming@[i as int]@);
            best = highest(best, self.meeting_height(&incoming[i]));
            i = i + 1;
        }
        best
    }
}

} // verus!
