//! What a chain is, as mathematics: the blocks it stores, its four counters,
//! the difficulty rules, and the effect of every operation on them.

use vstd::prelude::*;

use crate::block::BlockModel;
use crate::params::{
    ParamsModel, ABC_STEP_MS, ABC_WINDOW, BASE_TARGET_BLOCK_MS, DAA_WINDOW,
    FAST_BLOCK_THRESHOLD_MS, FINALITY_DEPTH, LWMA_WINDOW, MAX_TARGET, MAX_TARGET_BLOCK_MS,
    MIN_TARGET, MIN_TARGET_BLOCK_MS,
};
use crate::records::Meta;

verus! {

/// The state of a chain.
#[verifier::ext_equal]
pub struct ChainModel {
    /// The stored blocks that can be read, under the index they are stored at.
    pub stored: Map<u64, BlockModel>,
    /// The indices whose records are in memory, readable or not. Of any other index
    /// only the disk can tell whether there is a block.
    pub loaded: Set<u64>,
    /// The metadata records.
    pub meta: Map<Meta, Seq<u8>>,
    /// Index of the last block.
    pub height: u64,
    /// Mining target: a block's hash must lie below it.
    pub difficulty: u64,
    /// Target time per block, in milliseconds.
    pub target_block_ms: u64,
    /// Cumulative work.
    pub chainwork: u128,
}

pub open spec fn max_int(a: int, b: int) -> int {
    if a >= b {
        a
    } else {
        b
    }
}

pub open spec fn min_int(a: int, b: int) -> int {
    if a <= b {
        a
    } else {
        b
    }
}

/// `a - b`, and zero where `b` is larger.
pub open spec fn monus(a: int, b: int) -> int {
    if a >= b {
        a - b
    } else {
        0
    }
}

/// `value` brought into a range.
pub open spec fn clamp(value: int, low: int, high: int) -> int {
    min_int(max_int(value, low), high)
}

/// Proof-of-work value of a mining target: the lower the target, the more work.
pub open spec fn work_of(difficulty_target: u64) -> u128 {
    if difficulty_target == 0 {
        1
    } else {
        (u64::MAX / difficulty_target) as u128
    }
}

/// The target that a block was mined under: its own, or `fallback` where the
/// block is older than the field.
pub open spec fn target_of(block: BlockModel, fallback: u64) -> u64 {
    if block.difficulty_target != 0 {
        block.difficulty_target
    } else {
        fallback
    }
}

/// Whether every block from `low` to `high` can be read.
pub open spec fn present(stored: Map<u64, BlockModel>, low: int, high: int) -> bool {
    forall|i: u64| low <= i <= high ==> #[trigger] stored.dom().contains(i)
}

/// Time between a block and the one before it, and at least nothing.
pub open spec fn gap_ms(stored: Map<u64, BlockModel>, index: int) -> int {
    monus(stored[index as u64].timestamp as int, stored[(index - 1) as u64].timestamp as int)
}

/// A block's solve time, brought into the range from one millisecond to six
/// times the target time.
pub open spec fn solve_ms(stored: Map<u64, BlockModel>, index: int, target_ms: int) -> int {
    clamp(gap_ms(stored, index), 1, 6 * target_ms)
}

/// Sum of the solve times of the `n` blocks after `start`, the oldest counted
/// once and the newest `n` times.
pub open spec fn weighted_time(
    stored: Map<u64, BlockModel>,
    start: int,
    target_ms: int,
    n: int,
) -> int
    decreases n,
{
    if n <= 0 {
        0
    } else {
        weighted_time(stored, start, target_ms, n - 1) + n * solve_ms(
            stored,
            start + n,
            target_ms,
        )
    }
}

/// Sum of the targets of the `n` blocks after `start`.
pub open spec fn target_sum(
    stored: Map<u64, BlockModel>,
    start: int,
    fallback: u64,
    n: int,
) -> int
    decreases n,
{
    if n <= 0 {
        0
    } else {
        target_sum(stored, start, fallback, n - 1) + target_of(
            stored[(start + n) as u64],
            fallback,
        )
    }
}

/// Number of blocks from `low` to `high` that follow their predecessor too
/// closely. A block counts only where both can be read.
pub open spec fn fast_count(stored: Map<u64, BlockModel>, low: int, high: int) -> int
    decreases high - low + 1,
{
    if high < low {
        0
    } else {
        fast_count(stored, low, high - 1) + if stored.dom().contains(high as u64)
            && stored.dom().contains((high - 1) as u64) && gap_ms(stored, high)
            < FAST_BLOCK_THRESHOLD_MS {
            1int
        } else {
            0int
        }
    }
}

impl ChainModel {
    /// The block at a height, up to the tip.
    pub open spec fn block(self, index: u64) -> Option<BlockModel> {
        if index <= self.height && self.stored.dom().contains(index) {
            Some(self.stored[index])
        } else {
            None
        }
    }

    /// The last block.
    pub open spec fn tip(self) -> BlockModel {
        self.stored[self.height]
    }

    /// Whether the last block can be read.
    pub open spec fn has_tip(self) -> bool {
        self.stored.dom().contains(self.height)
    }

    /// The tip can be read, and every block that can be read lies under its own
    /// index, none of them above the tip.
    pub open spec fn sound(self) -> bool {
        &&& self.has_tip()
        &&& forall|i: u64| #[trigger]
            self.stored.dom().contains(i) ==> i <= self.height && self.stored[i].index == i
    }

    /// Whether the records from `low` to `high` are in memory.
    pub open spec fn holds(self, low: int, high: int) -> bool {
        forall|i: u64| low <= i <= high ==> #[trigger] self.loaded.contains(i)
    }

    /// Whether the records are in memory that decide on the difficulty once the tip
    /// has been followed or replaced.
    pub open spec fn holds_window(self) -> bool {
        self.holds(monus(self.height as int, LWMA_WINDOW + 1), self.height as int)
    }

    /// Whether the records are in memory that a reorganisation can come to read: the
    /// blocks that are not final, and those that decide on the difficulty below them.
    pub open spec fn holds_recent(self) -> bool {
        self.holds(monus(self.height as int, FINALITY_DEPTH + LWMA_WINDOW), self.height as int)
    }

    /// The readable blocks from `low` to `high`, oldest first.
    pub open spec fn blocks_between(self, low: int, high: int) -> Seq<BlockModel>
        decreases high - low + 1,
    {
        if high < low {
            Seq::empty()
        } else if self.stored.dom().contains(high as u64) {
            self.blocks_between(low, high - 1).push(self.stored[high as u64])
        } else {
            self.blocks_between(low, high - 1)
        }
    }

    /// Linearly weighted moving average of the last blocks' solve times: the
    /// average target, times the weighted solve times, over what these would be
    /// at the target time, within the allowed targets.
    pub open spec fn lwma(self, params: ParamsModel) -> u64 {
        let n = min_int(LWMA_WINDOW as int, self.height as int);
        let start = self.height - n;
        let t = self.target_block_ms as int;
        let spent = weighted_time(self.stored, start, t, n);
        let ideal = t * n * (n + 1) / 2;
        if self.height < 2 {
            params.testnet_target
        } else if !present(self.stored, start, self.height as int) || spent == 0 || ideal == 0 {
            self.difficulty
        } else {
            clamp(
                target_sum(self.stored, start, self.difficulty, n) / n * spent / ideal,
                MIN_TARGET as int,
                MAX_TARGET as int,
            ) as u64
        }
    }

    /// Difficulty by the ratio of the time that the last blocks took to the time
    /// they should have taken, at most four times harder or easier.
    pub open spec fn next_difficulty(self, params: ParamsModel) -> u64 {
        let actual = monus(
            self.stored[self.height].timestamp as int,
            self.stored[(self.height - DAA_WINDOW) as u64].timestamp as int,
        );
        let expected = self.target_block_ms * DAA_WINDOW;
        if self.height < DAA_WINDOW || !self.stored.dom().contains(self.height)
            || !self.stored.dom().contains((self.height - DAA_WINDOW) as u64) {
            params.testnet_target
        } else if actual == 0 {
            max_int(self.difficulty as int / 4, MIN_TARGET as int) as u64
        } else {
            clamp(
                clamp(
                    self.difficulty * actual / expected,
                    self.difficulty as int / 4,
                    self.difficulty * 4,
                ),
                MIN_TARGET as int,
                MAX_TARGET as int,
            ) as u64
        }
    }

    /// Whether there is something to divide by in `next_difficulty`: the target block
    /// time is not zero, or no window of blocks took any time.
    pub open spec fn ratio_defined(self) -> bool {
        ||| self.target_block_ms > 0
        ||| self.height < DAA_WINDOW
        ||| !self.stored.dom().contains(self.height)
        ||| !self.stored.dom().contains((self.height - DAA_WINDOW) as u64)
        ||| self.stored[self.height].timestamp <= self.stored[(self.height
            - DAA_WINDOW) as u64].timestamp
    }

    /// Target block time after a look at the last blocks: more than a fifth of
    /// them too fast slows the chain down, fewer than a twentieth speeds it up.
    pub open spec fn cadence(self) -> u64 {
        let fast = fast_count(
            self.stored,
            self.height - ABC_WINDOW + 1,
            self.height as int,
        );
        let t = self.target_block_ms as int;
        if self.height < ABC_WINDOW {
            self.target_block_ms
        } else {
            clamp(
                if fast * 5 > ABC_WINDOW {
                    t + ABC_STEP_MS
                } else if fast * 20 < ABC_WINDOW {
                    monus(t, ABC_STEP_MS as int)
                } else {
                    t
                },
                MIN_TARGET_BLOCK_MS as int,
                MAX_TARGET_BLOCK_MS as int,
            ) as u64
        }
    }

    /// Records a metadata value.
    pub open spec fn with_meta(self, meta: Meta, bytes: Seq<u8>) -> ChainModel {
        ChainModel { meta: self.meta.insert(meta, bytes), ..self }
    }

    /// Moves the height, and records it.
    pub open spec fn with_height(self, height: u64) -> ChainModel {
        ChainModel { height, ..self }.with_meta(
            Meta::Height,
            vstd::bytes::spec_u64_to_le_bytes(height),
        )
    }

    /// Changes the difficulty, and records it.
    pub open spec fn with_difficulty(self, difficulty: u64) -> ChainModel {
        ChainModel { difficulty, ..self }.with_meta(
            Meta::Difficulty,
            vstd::bytes::spec_u64_to_le_bytes(difficulty),
        )
    }

    /// Changes the target block time, and records it.
    pub open spec fn with_target_time(self, target_block_ms: u64) -> ChainModel {
        ChainModel { target_block_ms, ..self }.with_meta(
            Meta::TargetTime,
            vstd::bytes::spec_u64_to_le_bytes(target_block_ms),
        )
    }

    /// Changes the cumulative work, and records it.
    pub open spec fn with_chainwork(self, chainwork: u128) -> ChainModel {
        ChainModel { chainwork, ..self }.with_meta(
            Meta::Chainwork,
            vstd::bytes::spec_u128_to_le_bytes(chainwork),
        )
    }

    /// Stores a block as the last one.
    pub open spec fn with_block(self, block: BlockModel) -> ChainModel {
        ChainModel {
            stored: self.stored.insert(block.index, block),
            loaded: self.loaded.insert(block.index),
            ..self
        }.with_height(block.index)
    }

    /// Adds a block's work; the sum stops at the largest number.
    pub open spec fn with_work(self, block: BlockModel) -> ChainModel {
        self.with_chainwork(
            min_int(
                self.chainwork + work_of(target_of(block, self.difficulty)),
                u128::MAX as int,
            ) as u128,
        )
    }

    /// Takes a block's work off; the difference stops at zero.
    pub open spec fn without_work(self, block: BlockModel) -> ChainModel {
        self.with_chainwork(
            monus(self.chainwork as int, work_of(target_of(block, self.difficulty)) as int) as u128,
        )
    }

    /// Adjusts the difficulty to the last blocks, once there are enough.
    pub open spec fn retargeted(self, params: ParamsModel) -> ChainModel {
        if self.height >= LWMA_WINDOW {
            self.with_difficulty(self.lwma(params))
        } else {
            self
        }
    }

    /// Adjusts the target block time at the end of each window.
    pub open spec fn recadenced(self) -> ChainModel {
        if self.height > 0 && self.height as int % ABC_WINDOW as int == 0 {
            self.with_target_time(self.cadence())
        } else {
            self
        }
    }

    /// The chain with a live block appended.
    pub open spec fn applied(self, block: BlockModel, params: ParamsModel) -> ChainModel {
        self.with_block(block).retargeted(params).with_work(block).recadenced()
    }

    /// The chain once a checkpoint at the block's height has restored its
    /// difficulty.
    pub open spec fn restored(self, block: BlockModel, params: ParamsModel) -> ChainModel {
        match params.checkpoint_at(block.index) {
            Some(checkpoint) => self.with_difficulty(checkpoint.target),
            None => self,
        }
    }

    /// Whether a historical block records no target outside the allowed ones.
    pub open spec fn target_in_range(block: BlockModel) -> bool {
        block.difficulty_target != 0 ==> MIN_TARGET <= block.difficulty_target <= MAX_TARGET
    }

    /// Whether a historical block adjusts the difficulty: it records no target, and
    /// ends a window that lies beyond the checkpoints.
    pub open spec fn adjusts(block: BlockModel, params: ParamsModel) -> bool {
        &&& block.difficulty_target == 0
        &&& block.index > params.last_checkpoint()
        &&& block.index > 0
        &&& block.index as int % DAA_WINDOW as int == 0
    }

    /// The chain with a historical block appended. The block's own target becomes
    /// the difficulty; a block without one adjusts the difficulty at the end of each
    /// window that lies beyond the checkpoints.
    pub open spec fn applied_ibd(self, block: BlockModel, params: ParamsModel) -> ChainModel {
        let c = self.with_block(block).with_work(block);
        if block.difficulty_target != 0 {
            c.with_difficulty(block.difficulty_target)
        } else if Self::adjusts(block, params) {
            c.with_difficulty(c.next_difficulty(params))
        } else {
            c
        }
    }

    /// The chain without its last block. The difficulty is worked out anew.
    pub open spec fn reverted(self, params: ParamsModel) -> ChainModel {
        let tip = self.tip();
        let c = ChainModel {
            stored: self.stored.remove(self.height),
            loaded: self.loaded.remove(self.height),
            ..self
        }.with_height((self.height - 1) as u64).without_work(tip);
        c.with_difficulty(
            if c.height >= LWMA_WINDOW {
                c.lwma(params)
            } else {
                params.testnet_target
            },
        )
    }

    /// The chain without the blocks above `target`.
    pub open spec fn reverted_above(self, target: u64, params: ParamsModel) -> ChainModel
        decreases self.height,
    {
        if self.height <= target || self.height == 0 {
            self
        } else {
            self.reverted(params).reverted_above(target, params)
        }
    }

    /// Whether going back to `target` is refused: it would undo a block below a
    /// checkpoint that was reached, or a block that is final.
    pub open spec fn refuses_revert(self, target: u64, params: ParamsModel) -> bool {
        target < params.reached(self.height) || monus(self.height as int, target as int)
            > FINALITY_DEPTH
    }

    /// The chain back at `target`; at genesis the difficulty is the initial one.
    pub open spec fn reverted_to(self, target: u64, params: ParamsModel) -> ChainModel {
        let c = self.reverted_above(target, params);
        if c.height == 0 {
            c.with_difficulty(params.testnet_target)
        } else {
            c
        }
    }

    /// The chain with its target block time back at the base value.
    pub open spec fn abc_reset(self) -> ChainModel {
        self.with_target_time(BASE_TARGET_BLOCK_MS)
    }

    /// The chain with difficulty and target block time worked out from its last
    /// blocks.
    pub open spec fn recalibrated(self, params: ParamsModel) -> ChainModel {
        let difficulty = if self.height >= LWMA_WINDOW {
            self.lwma(params)
        } else {
            params.testnet_target
        };
        let c = ChainModel { difficulty, ..self };
        let target = if c.height >= ABC_WINDOW {
            c.cadence()
        } else {
            BASE_TARGET_BLOCK_MS
        };
        c.with_difficulty(difficulty).with_target_time(target)
    }
}

} // verus!
