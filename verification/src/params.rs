//! Consensus constants, network parameters and the library's error.

use vstd::prelude::*;

verus! {

/// Number of blocks over which the weighted moving average of solve times runs.
pub const LWMA_WINDOW: u64 = 60;

/// Blocks without a recorded target adjust the difficulty once in this many.
pub const DAA_WINDOW: u64 = 10;

/// A block with this many confirmations is final: no reorganisation removes it.
pub const FINALITY_DEPTH: u64 = 100;

/// Target time per block before any adjustment, in milliseconds.
pub const BASE_TARGET_BLOCK_MS: u64 = 30_000;

/// The target block time is adjusted once in this many blocks.
pub const ABC_WINDOW: u64 = 50;

/// Two blocks closer together than this count as a sign of forks.
pub const FAST_BLOCK_THRESHOLD_MS: u64 = 5_000;

/// Shortest target block time.
pub const MIN_TARGET_BLOCK_MS: u64 = 15_000;

/// Longest target block time.
pub const MAX_TARGET_BLOCK_MS: u64 = 60_000;

/// Step by which the target block time moves.
pub const ABC_STEP_MS: u64 = 5_000;

/// Hardest mining target.
pub const MIN_TARGET: u64 = 1;

/// Easiest mining target: about eight leading zero bits.
pub const MAX_TARGET: u64 = 0x100_0000_0000_0000;

/// Why a block or a transaction was refused.
#[derive(Debug, Clone, Copy, PartialEq, Eq, Structural)]
pub enum TaronError {
    InvalidBlock,
    InvalidSequence,
    InsufficientBalance,
}

/// A known-good block: a block at this height must carry this hash, and the
/// difficulty is restored to this target once it is reached.
#[derive(Debug, PartialEq, Eq)]
pub struct Checkpoint {
    pub height: u64,
    /// The block's hash as lower-case hexadecimal text.
    pub hash: String,
    pub target: u64,
}

/// The mathematical content of a [`Checkpoint`].
#[verifier::ext_equal]
pub struct CheckpointModel {
    pub height: u64,
    pub hash: Seq<char>,
    pub target: u64,
}

impl View for Checkpoint {
    type V = CheckpointModel;

    open spec fn view(&self) -> CheckpointModel {
        CheckpointModel { height: self.height, hash: self.hash@, target: self.target }
    }
}

/// What distinguishes one network from another.
#[derive(Debug, PartialEq, Eq)]
pub struct ChainParams {
    /// Mining target of a chain that is too short to adjust it.
    pub testnet_target: u64,
    /// Reward of every block.
    pub testnet_reward: u64,
    /// Known-good blocks, lowest first.
    pub checkpoints: Vec<Checkpoint>,
}

/// The mathematical content of [`ChainParams`].
#[verifier::ext_equal]
pub struct ParamsModel {
    pub testnet_target: u64,
    pub testnet_reward: u64,
    pub checkpoints: Seq<CheckpointModel>,
}

impl View for ChainParams {
    type V = ParamsModel;

    open spec fn view(&self) -> ParamsModel {
        ParamsModel {
            testnet_target: self.testnet_target,
            testnet_reward: self.testnet_reward,
            checkpoints: self.checkpoints@.map_values(|c: Checkpoint| c@),
        }
    }
}

impl ParamsModel {
    /// The first checkpoint at a height.
    pub open spec fn checkpoint_at(self, height: u64) -> Option<CheckpointModel> {
        if exists|i: int|
            0 <= i < self.checkpoints.len() && #[trigger] self.is_first_at(i, height) {
            let i = choose|i: int|
                0 <= i < self.checkpoints.len() && #[trigger] self.is_first_at(i, height);
            Some(self.checkpoints[i])
        } else {
            None
        }
    }

    /// Whether entry `i` is the first checkpoint at a height.
    pub open spec fn is_first_at(self, i: int, height: u64) -> bool {
        self.checkpoints[i].height == height && forall|j: int|
            0 <= j < i ==> (#[trigger] self.checkpoints[j]).height != height
    }

    /// The highest checkpoint that a chain of this height has reached; zero when
    /// it has reached none.
    pub open spec fn reached(self, height: u64) -> u64 {
        self.reached_among(self.checkpoints.len() as int, height)
    }

    /// As `reached`, for the first `n` checkpoints.
    pub open spec fn reached_among(self, n: int, height: u64) -> u64
        decreases n,
    {
        if n <= 0 {
            0
        } else {
            let before = self.reached_among(n - 1, height);
            let here = self.checkpoints[n - 1].height;
            if here <= height && here > before {
                here
            } else {
                before
            }
        }
    }

    /// The height of the last checkpoint; zero when there is none.
    pub open spec fn last_checkpoint(self) -> u64 {
        if self.checkpoints.len() == 0 {
            0
        } else {
            self.checkpoints.last().height
        }
    }
}

impl ChainParams {
    /// Index of the first checkpoint at a height.
    pub fn checkpoint_at(&self, height: u64) -> (found: Option<usize>)
        ensures
            match found {
                Some(i) => i < self.checkpoints.len() && self@.is_first_at(i as int, height)
                    && self@.checkpoint_at(height) == Some(self.checkpoints[i as int]@),
                None => self@.checkpoint_at(height) is None,
            },
    {
        let mut i: usize = 0;
        while i < self.checkpoints.len()
            invariant
                i <= self.checkpoints.len(),
                forall|j: int| 0 <= j < i ==> (#[trigger] self@.checkpoints[j]).height != height,
            decreases self.checkpoints.len() - i,
        {
            if self.checkpoints[i].height == height {
                assert(self@.checkpoints[i as int] == self.checkpoints[i as int]@);
                assert(self@.is_first_at(i as int, height));
                assert forall|k: int|
                    0 <= k < self@.checkpoints.len() && #[trigger] self@.is_first_at(
                        k,
                        height,
                    ) implies k == i by {
                    assert(self@.checkpoints[k].height == height);
                }
                return Some(i);
            }
            assert(self@.checkpoints[i as int] == self.checkpoints[i as int]@);
            i = i + 1;
        }
        None
    }

    /// Height of the highest checkpoint that a chain of this height has reached.
    pub fn reached(&self, height: u64) -> (reached: u64)
        ensures
            reached == self@.reached(height),
    {
        let mut best: u64 = 0;
        let mut i: usize = 0;
        while i < self.checkpoints.len()
            invariant
                i <= self.checkpoints.len(),
                best == self@.reached_among(i as int, height),
            decreases self.checkpoints.len() - i,
        {
            let here: u64 = self.checkpoints[i].height;
            assert(self@.checkpoints[i as int] == self.checkpoints[i as int]@);
            if here <= height && here > best {
                best = here;
            }
            i = i + 1;
        }
        best
    }

    /// Height of the last checkpoint.
    pub fn last_checkpoint(&self) -> (height: u64)
        ensures
            height == self@.last_checkpoint(),
    {
        let n: usize = self.checkpoints.len();
        if n == 0 {
            0
        } else {
            assert(self@.checkpoints[n - 1] == self.checkpoints[n - 1]@);
            self.checkpoints[n - 1].height
        }
    }
}

/// The checkpoint that a chain has reached is at or below its height, and no
/// checkpoint lies between the two.
pub proof fn law_reached_checkpoint_is_highest(params: ParamsModel, height: u64)
    ensures
        params.reached(height) <= height,
        forall|i: int|
            0 <= i < params.checkpoints.len() && (#[trigger] params.checkpoints[i]).height <= height
                ==> params.checkpoints[i].height <= params.reached(height),
{
    lemma_reached_among(params, params.checkpoints.len() as int, height);
}

proof fn lemma_reached_among(params: ParamsModel, n: int, height: u64)
    requires
        n <= params.checkpoints.len(),
    ensures
        params.reached_among(n, height) <= height,
        forall|i: int|
            0 <= i < n && (#[trigger] params.checkpoints[i]).height <= height
                ==> params.checkpoints[i].height <= params.reached_among(n, height),
    decreases n,
{
    if n > 0 {
        lemma_reached_among(params, n - 1, height);
    }
}

} // verus!
