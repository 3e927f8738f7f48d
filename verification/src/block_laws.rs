//! Which blocks become part of the chain, what they change, and what taking them
//! back restores.

use vstd::prelude::*;

use crate::apply::BlockChecks;
use crate::block::BlockModel;
use crate::ledger::ChainLedger;
use crate::model::ChainModel;
use crate::params::{
    ParamsModel, ABC_WINDOW, BASE_TARGET_BLOCK_MS, DAA_WINDOW, FINALITY_DEPTH, LWMA_WINDOW,
    MAX_TARGET, MIN_TARGET,
};

verus! {

/// Whether a block carries the hash of every checkpoint at its height that is the
/// first one there.
pub open spec fn agrees(block: BlockModel, params: ParamsModel) -> bool {
    forall|i: int|
        0 <= i < params.checkpoints.len() && (#[trigger] params.checkpoints[i]).height
            == block.index && (forall|j: int|
            0 <= j < i ==> (#[trigger] params.checkpoints[j]).height != block.index)
            ==> params.checkpoints[i].hash == crate::hash::hex_text(block.hash@)
}

proof fn lemma_first_checkpoint(params: ParamsModel, height: u64, i: int)
    requires
        0 <= i < params.checkpoints.len(),
        params.checkpoints[i].height == height,
        forall|j: int| 0 <= j < i ==> (#[trigger] params.checkpoints[j]).height != height,
    ensures
        params.checkpoint_at(height) == Some(params.checkpoints[i]),
{
    assert(params.is_first_at(i, height));
    let k = choose|k: int|
        0 <= k < params.checkpoints.len() && #[trigger] params.is_first_at(k, height);
    assert(k == i) by {
        assert(params.is_first_at(k, height));
        if k < i {
            assert(params.checkpoints[k].height != height);
        } else if i < k {
            assert(params.checkpoints[i].height != height);
        }
    }
}

proof fn lemma_agrees(block: BlockModel, params: ParamsModel)
    ensures
        agrees(block, params) == ChainModel::agrees_with_checkpoint(block, params),
{
    if agrees(block, params) {
        if exists|i: int|
            0 <= i < params.checkpoints.len() && #[trigger] params.is_first_at(i, block.index) {
            let i = choose|i: int|
                0 <= i < params.checkpoints.len() && #[trigger] params.is_first_at(
                    i,
                    block.index,
                );
            lemma_first_checkpoint(params, block.index, i);
            assert(params.checkpoints[i].height == block.index);
        }
    }
    if ChainModel::agrees_with_checkpoint(block, params) {
        assert forall|i: int|
            0 <= i < params.checkpoints.len() && (#[trigger] params.checkpoints[i]).height
                == block.index && (forall|j: int|
                0 <= j < i ==> (#[trigger] params.checkpoints[j]).height
                    != block.index) implies params.checkpoints[i].hash == crate::hash::hex_text(
            block.hash@,
        ) by {
            lemma_first_checkpoint(params, block.index, i);
        }
    }
}

// ── Live blocks ──────────────────────────────────────────────────────────────

/// A live block becomes the next one exactly if it follows the tip, its hash lies
/// below the difficulty that the chain has, it claims the canonical reward, it and
/// all its transactions passed their checks, it agrees with the checkpoints, and the
/// ledger can pay it. Any other block changes nothing.
pub proof fn law_a_live_block_must_qualify<L: ChainLedger>(
    chain: ChainModel,
    ledger: L::Model,
    block: BlockModel,
    checks: BlockChecks,
    params: ParamsModel,
)
    ensures
        crate::apply::live_effect::<L>(chain, ledger, block, checks, params).2 <==> {
            &&& checks.header_ok
            &&& block.index == chain.stored[chain.height].index + 1
            &&& block.prev_hash == chain.stored[chain.height].hash
            &&& crate::hash::leading_u64(block.hash) < chain.difficulty
            &&& block.reward == params.testnet_reward
            &&& checks.txs.len() == block.transactions.len()
            &&& forall|i: int|
                0 <= i < checks.txs.len() ==> (#[trigger] checks.txs[i]).structure_ok
                    && checks.txs[i].signature_ok
            &&& agrees(block, params)
            &&& crate::apply::block_paid::<L>(ledger, block).1
        },
        !crate::apply::live_effect::<L>(chain, ledger, block, checks, params).2
            ==> crate::apply::live_effect::<L>(chain, ledger, block, checks, params) == (
            chain,
            ledger,
            false,
        ),
{
    lemma_agrees(block, params);
}

/// A live block that is taken is stored at its index, on top of all others, and its
/// work is added. Once there are enough blocks the difficulty is the moving average
/// over the last of them, the new one included; before, it stays. The target block
/// time moves at the end of each of its windows only. The ledger is what paying the
/// block makes of it.
pub proof fn law_a_live_block_extends_the_chain<L: ChainLedger>(
    chain: ChainModel,
    ledger: L::Model,
    block: BlockModel,
    checks: BlockChecks,
    params: ParamsModel,
)
    requires
        crate::apply::live_effect::<L>(chain, ledger, block, checks, params).2,
    ensures
        ({
            let after = crate::apply::live_effect::<L>(chain, ledger, block, checks, params).0;
            let longer = ChainModel {
                stored: chain.stored.insert(block.index, block),
                height: block.index,
                ..chain
            };
            &&& crate::apply::live_effect::<L>(chain, ledger, block, checks, params).1
                == crate::apply::block_paid::<L>(ledger, block).0
            &&& after.height == block.index
            &&& after.stored == chain.stored.insert(block.index, block)
            &&& after.loaded == chain.loaded.insert(block.index)
            &&& block.index < LWMA_WINDOW ==> after.difficulty == chain.difficulty
            &&& block.index >= LWMA_WINDOW ==> after.difficulty == longer.lwma(params)
            &&& block.index % ABC_WINDOW != 0 ==> after.target_block_ms == chain.target_block_ms
            &&& block.index % ABC_WINDOW == 0 ==> after.target_block_ms == longer.cadence()
            &&& ({
                let target = if block.difficulty_target == 0 {
                    after.difficulty as int
                } else {
                    block.difficulty_target as int
                };
                let work = if target == 0 {
                    1
                } else {
                    u64::MAX as int / target
                };
                after.chainwork == if chain.chainwork + work > u128::MAX {
                    u128::MAX as int
                } else {
                    chain.chainwork + work
                }
            })
        }),
{
    let after = crate::apply::live_effect::<L>(chain, ledger, block, checks, params).0;
    let longer = ChainModel {
        stored: chain.stored.insert(block.index, block),
        height: block.index,
        ..chain
    };
    let stored = chain.with_block(block);
    lemma_lwma_reads(longer, stored, params);
    lemma_cadence_reads(longer, after);
    assert(after.stored == longer.stored);
}

/// The moving average reads nothing but blocks, height, target block time and
/// difficulty.
proof fn lemma_lwma_reads(a: ChainModel, b: ChainModel, params: ParamsModel)
    requires
        a.stored == b.stored,
        a.height == b.height,
        a.target_block_ms == b.target_block_ms,
        a.difficulty == b.difficulty,
    ensures
        a.lwma(params) == b.lwma(params),
{
}

proof fn lemma_cadence_reads(a: ChainModel, b: ChainModel)
    requires
        a.stored == b.stored,
        a.height == b.height,
    ensures
        a.target_block_ms == b.target_block_ms ==> a.cadence() == b.cadence(),
{
}

/// Paying a live block credits its miner and marks them as active at the block's
/// time, and then carries out the transactions one after the other; it fails with the
/// first that fails.
pub proof fn law_a_live_block_is_paid_in_order<L: ChainLedger>(
    ledger: L::Model,
    block: BlockModel,
    shorter: BlockModel,
)
    requires
        block.transactions.len() > 0 ==> shorter == (BlockModel {
            transactions: block.transactions.drop_last(),
            ..block
        }),
    ensures
        block.transactions.len() == 0 ==> crate::apply::block_paid::<L>(ledger, block) == (
            L::touched(
                L::credited(ledger, block.miner, block.reward),
                block.miner,
                block.timestamp,
            ),
            true,
        ),
        block.transactions.len() > 0 ==> {
            let (before, ok) = crate::apply::block_paid::<L>(ledger, shorter);
            crate::apply::block_paid::<L>(ledger, block) == if ok {
                L::paid(before, block.transactions.last())
            } else {
                (before, false)
            }
        },
{
    if block.transactions.len() > 0 {
        lemma_after_txs_prefix::<L>(
            crate::apply::miner_paid::<L>(ledger, block),
            block.transactions,
            shorter.transactions,
            block.transactions.len() - 1,
            false,
        );
    }
}

proof fn lemma_after_txs_prefix<L: ChainLedger>(
    state: L::Model,
    a: Seq<crate::block::TxModel>,
    b: Seq<crate::block::TxModel>,
    n: int,
    ibd: bool,
)
    requires
        n <= a.len(),
        n <= b.len(),
        forall|i: int| 0 <= i < n ==> a[i] == b[i],
    ensures
        crate::ledger::after_txs::<L>(state, a, n, ibd) == crate::ledger::after_txs::<L>(
            state,
            b,
            n,
            ibd,
        ),
    decreases n,
{
    if n > 0 {
        lemma_after_txs_prefix::<L>(state, a, b, n - 1, ibd);
    }
}

// ── Historical blocks ────────────────────────────────────────────────────────

/// A historical block becomes the next one exactly if it follows the tip, claims at
/// most twice the canonical reward, records no target beyond the allowed ones, agrees
/// with the checkpoints, and the ledger can pay it. Any other block changes nothing.
pub proof fn law_a_historical_block_must_qualify<L: ChainLedger>(
    chain: ChainModel,
    ledger: L::Model,
    block: BlockModel,
    params: ParamsModel,
)
    ensures
        crate::apply::ibd_effect::<L>(chain, ledger, block, params).2 <==> {
            &&& block.index == chain.stored[chain.height].index + 1
            &&& block.prev_hash == chain.stored[chain.height].hash
            &&& block.reward <= 2 * params.testnet_reward
            &&& block.difficulty_target == 0 || MIN_TARGET <= block.difficulty_target <= MAX_TARGET
            &&& agrees(block, params)
            &&& crate::apply::block_paid_ibd::<L>(ledger, block).1
        },
        !crate::apply::ibd_effect::<L>(chain, ledger, block, params).2
            ==> crate::apply::ibd_effect::<L>(chain, ledger, block, params) == (
            chain,
            ledger,
            false,
        ),
{
    lemma_agrees(block, params);
}

/// A historical block that is taken is stored at its index, on top of all others, and
/// its work is added. The target it records becomes the difficulty. One without a
/// target leaves the difficulty, or takes it from the checkpoint at its height, and
/// beyond the checkpoints adjusts it at the end of each window. The target block time
/// stays.
pub proof fn law_a_historical_block_extends_the_chain<L: ChainLedger>(
    chain: ChainModel,
    ledger: L::Model,
    block: BlockModel,
    params: ParamsModel,
)
    requires
        crate::apply::ibd_effect::<L>(chain, ledger, block, params).2,
    ensures
        ({
            let after = crate::apply::ibd_effect::<L>(chain, ledger, block, params).0;
            let given = match params.checkpoint_at(block.index) {
                Some(checkpoint) => checkpoint.target,
                None => chain.difficulty,
            };
            let longer = ChainModel {
                stored: chain.stored.insert(block.index, block),
                height: block.index,
                difficulty: given,
                ..chain
            };
            let target = if block.difficulty_target == 0 {
                given as int
            } else {
                block.difficulty_target as int
            };
            let work = if target == 0 {
                1
            } else {
                u64::MAX as int / target
            };
            &&& after.height == block.index
            &&& after.stored == chain.stored.insert(block.index, block)
            &&& after.loaded == chain.loaded.insert(block.index)
            &&& after.target_block_ms == chain.target_block_ms
            &&& after.chainwork == if chain.chainwork + work > u128::MAX {
                u128::MAX as int
            } else {
                chain.chainwork + work
            }
            &&& block.difficulty_target != 0 ==> after.difficulty == block.difficulty_target
            &&& block.difficulty_target == 0 ==> after.difficulty == if block.index % DAA_WINDOW
                == 0 && block.index > 0 && (params.checkpoints.len() == 0 || block.index
                > params.checkpoints.last().height) {
                longer.next_difficulty(params)
            } else {
                given
            }
        }),
{
    let after = crate::apply::ibd_effect::<L>(chain, ledger, block, params).0;
    assert(after.stored == chain.stored.insert(block.index, block));
}

/// What the ledger is after a historical block: its miner has the reward, and its
/// transactions are carried out one after the other, whatever their sequence numbers
/// may be to the ledger; it fails with the first that fails.
pub proof fn law_a_historical_block_is_paid_in_order<L: ChainLedger>(
    chain: ChainModel,
    ledger: L::Model,
    block: BlockModel,
    shorter: BlockModel,
    params: ParamsModel,
)
    requires
        block.transactions.len() > 0 ==> shorter == (BlockModel {
            transactions: block.transactions.drop_last(),
            ..block
        }),
    ensures
        block.transactions.len() == 0 ==> crate::apply::block_paid_ibd::<L>(ledger, block) == (
            L::credited(ledger, block.miner, block.reward),
            true,
        ),
        block.transactions.len() > 0 ==> {
            let (before, ok) = crate::apply::block_paid_ibd::<L>(ledger, shorter);
            crate::apply::block_paid_ibd::<L>(ledger, block) == if ok {
                L::paid_ibd(before, block.transactions.last())
            } else {
                (before, false)
            }
        },
        crate::apply::ibd_effect::<L>(chain, ledger, block, params).2
            ==> crate::apply::ibd_effect::<L>(chain, ledger, block, params).1
            == crate::apply::block_paid_ibd::<L>(ledger, block).0,
{
    if block.transactions.len() > 0 {
        lemma_after_txs_prefix::<L>(
            L::credited(ledger, block.miner, block.reward),
            block.transactions,
            shorter.transactions,
            block.transactions.len() - 1,
            true,
        );
    }
}

// ── Taking blocks back ───────────────────────────────────────────────────────

/// Taking the last block back removes it and nothing else, takes its work off, and
/// leaves the target block time. The difficulty is the moving average over the blocks
/// that are left, or the initial one where they are too few.
pub proof fn law_taking_the_tip_back(c: ChainModel, params: ParamsModel)
    requires
        c.height > 0,
    ensures
        ({
            let after = c.reverted(params);
            let tip = c.stored[c.height];
            let shorter = ChainModel {
                stored: c.stored.remove(c.height),
                height: (c.height - 1) as u64,
                ..c
            };
            let target = if tip.difficulty_target == 0 {
                c.difficulty as int
            } else {
                tip.difficulty_target as int
            };
            let work = if target == 0 {
                1
            } else {
                u64::MAX as int / target
            };
            &&& after.height == c.height - 1
            &&& after.stored == c.stored.remove(c.height)
            &&& after.loaded == c.loaded.remove(c.height)
            &&& after.target_block_ms == c.target_block_ms
            &&& after.chainwork == if c.chainwork < work {
                0
            } else {
                c.chainwork - work
            }
            &&& c.height - 1 >= LWMA_WINDOW ==> after.difficulty == shorter.lwma(params)
            &&& c.height - 1 < LWMA_WINDOW ==> after.difficulty == params.testnet_target
        }),
{
    let shorter = ChainModel {
        stored: c.stored.remove(c.height),
        height: (c.height - 1) as u64,
        ..c
    };
    let cut = ChainModel {
        stored: c.stored.remove(c.height),
        loaded: c.loaded.remove(c.height),
        ..c
    }.with_height((c.height - 1) as u64).without_work(c.tip());
    lemma_lwma_reads(shorter, cut, params);
}

/// Mining a block and taking it back gives the difficulty back that the block was
/// mined under. There must be a full window of blocks that record their targets, the
/// last of them mined live, and the target block time must not have moved meanwhile.
pub proof fn law_reverting_gives_the_difficulty_back(
    earlier: ChainModel,
    last: BlockModel,
    block: BlockModel,
    params: ParamsModel,
)
    requires
        ({
            let c = earlier.applied(last, params);
            &&& c.height >= LWMA_WINDOW
            &&& block.index == c.height + 1
            &&& c.target_block_ms > 0
            &&& c.target_block_ms == earlier.target_block_ms
            &&& c.applied(block, params).target_block_ms == c.target_block_ms
            &&& forall|i: u64|
                c.height - LWMA_WINDOW <= i <= c.height ==> #[trigger] c.stored.dom().contains(i)
            &&& forall|i: u64|
                c.height - LWMA_WINDOW < i <= c.height ==> (
                #[trigger] c.stored[i]).difficulty_target != 0
        }),
    ensures
        earlier.applied(last, params).applied(block, params).reverted(params).difficulty
            == earlier.applied(last, params).difficulty,
{
    let c = earlier.applied(last, params);
    let longer = c.applied(block, params);
    let back = longer.reverted(params);
    let mined = earlier.with_block(last);
    assert(c.stored == mined.stored && c.height == mined.height);
    assert(longer.stored == c.stored.insert(block.index, block));
    let cut = ChainModel {
        stored: longer.stored.remove(longer.height),
        loaded: longer.loaded.remove(longer.height),
        ..longer
    }.with_height((longer.height - 1) as u64).without_work(longer.tip());
    assert forall|i: u64| c.height - LWMA_WINDOW <= i <= c.height implies #[trigger]
        cut.stored.dom().contains(i) && cut.stored[i] == c.stored[i] by {
        assert(c.stored.dom().contains(i));
    }
    assert(crate::difficulty_laws::same_window(mined, cut));
    crate::difficulty_laws::law_lwma_is_determined_by_the_window(mined, cut, params);
}

/// Going back to a height is refused only where a block would go that is final or
/// that lies below a checkpoint which the chain has reached.
pub proof fn law_what_may_be_taken_back(c: ChainModel, target: u64, params: ParamsModel)
    ensures
        c.refuses_revert(target, params) <==> {
            ||| target + FINALITY_DEPTH < c.height
            ||| exists|i: int|
                0 <= i < params.checkpoints.len() && target < (
                #[trigger] params.checkpoints[i]).height <= c.height
        },
{
    crate::params::law_reached_checkpoint_is_highest(params, c.height);
    lemma_reached_is_a_checkpoint(params, params.checkpoints.len() as int, c.height);
}

proof fn lemma_reached_is_a_checkpoint(params: ParamsModel, n: int, height: u64)
    requires
        n <= params.checkpoints.len(),
    ensures
        params.reached_among(n, height) == 0 || exists|i: int|
            0 <= i < n && (#[trigger] params.checkpoints[i]).height == params.reached_among(
                n,
                height,
            ),
    decreases n,
{
    if n > 0 {
        lemma_reached_is_a_checkpoint(params, n - 1, height);
        let before = params.reached_among(n - 1, height);
        if params.reached_among(n, height) == before {
            if before != 0 {
                let i = choose|i: int|
                    0 <= i < n - 1 && (#[trigger] params.checkpoints[i]).height == before;
                assert(params.checkpoints[i].height == params.reached_among(n, height));
            }
        } else {
            assert(params.checkpoints[n - 1].height == params.reached_among(n, height));
        }
    }
}

/// Going back to a height is taking the last block back again and again until the
/// chain is there. At genesis the difficulty is the initial one.
pub proof fn law_going_back_takes_block_after_block(c: ChainModel, target: u64, params: ParamsModel)
    ensures
        c.height > target + 1 ==> c.reverted_to(target, params) == c.reverted(params).reverted_to(
            target,
            params,
        ),
        c.height == target + 1 ==> c.reverted_to(target, params) == c.reverted(params),
        0 < c.height <= target ==> c.reverted_to(target, params) == c,
        c.height == 0 ==> c.reverted_to(target, params) == c.with_difficulty(
            params.testnet_target,
        ),
        target == 0 ==> c.reverted_to(target, params).height == 0 && c.reverted_to(
            target,
            params,
        ).difficulty == params.testnet_target,
        c.reverted_to(target, params).target_block_ms == c.target_block_ms,
{
    crate::laws::lemma_reverted_above(c, target, params);
    if c.height > target {
        let next = c.reverted(params);
        crate::laws::lemma_reverted_above(next, target, params);
        assert(c.reverted_above(target, params) == next.reverted_above(target, params));
        if c.height == target + 1 {
            assert(next.reverted_above(target, params) == next);
            assert(c.reverted_to(target, params) =~= next);
        }
    }
}

/// The ledger goes back with the chain: the reward and the transactions of each block
/// are undone, the newest block first.
pub proof fn law_the_ledger_goes_back_block_after_block<L: ChainLedger>(
    c: ChainModel,
    ledger: L::Model,
    target: u64,
    params: ParamsModel,
)
    ensures
        c.height <= target ==> c.ledger_reverted_above::<L>(ledger, target, params) == ledger,
        c.height > target ==> c.ledger_reverted_above::<L>(ledger, target, params) == c.reverted(
            params,
        ).ledger_reverted_above::<L>(
            crate::apply::block_undone::<L>(ledger, c.stored[c.height]),
            target,
            params,
        ),
{
}

/// Undoing a block undoes its transactions, the last one first, and then takes its
/// reward back.
pub proof fn law_a_block_is_undone_in_reverse<L: ChainLedger>(
    ledger: L::Model,
    block: BlockModel,
    shorter: BlockModel,
)
    requires
        block.transactions.len() > 0 ==> shorter == (BlockModel {
            transactions: block.transactions.drop_last(),
            ..block
        }),
    ensures
        block.transactions.len() == 0 ==> crate::apply::block_undone::<L>(ledger, block)
            == L::uncredited(ledger, block.miner, block.reward),
        block.transactions.len() > 0 ==> crate::apply::block_undone::<L>(ledger, block)
            == crate::apply::block_undone::<L>(
            L::unpaid(ledger, block.transactions.last()),
            shorter,
        ),
{
    if block.transactions.len() > 0 {
        lemma_without_txs_prefix::<L>(
            L::unpaid(ledger, block.transactions.last()),
            block.transactions,
            shorter.transactions,
            block.transactions.len() - 1,
        );
    }
}

proof fn lemma_without_txs_prefix<L: ChainLedger>(
    state: L::Model,
    a: Seq<crate::block::TxModel>,
    b: Seq<crate::block::TxModel>,
    n: int,
)
    requires
        n <= a.len(),
        n <= b.len(),
        forall|i: int| 0 <= i < n ==> a[i] == b[i],
    ensures
        crate::ledger::without_txs::<L>(state, a, n) == crate::ledger::without_txs::<L>(
            state,
            b,
            n,
        ),
    decreases n,
{
    if n > 0 {
        lemma_without_txs_prefix::<L>(L::unpaid(state, a[n - 1]), a, b, n - 1);
    }
}

// ── After the download ───────────────────────────────────────────────────────

/// Working the difficulty out from the last blocks gives their moving average, or the
/// initial difficulty where they are too few, and a target block time that follows
/// from them, or the base value. Putting the target block time back to the base value
/// changes nothing else. Neither touches blocks, height or work.
pub proof fn law_recalibrating(c: ChainModel, params: ParamsModel)
    ensures
        ({
            let after = c.recalibrated(params);
            &&& c.height >= LWMA_WINDOW ==> after.difficulty == c.lwma(params)
            &&& c.height < LWMA_WINDOW ==> after.difficulty == params.testnet_target
            &&& c.height >= ABC_WINDOW ==> after.target_block_ms == c.cadence()
            &&& c.height < ABC_WINDOW ==> after.target_block_ms == BASE_TARGET_BLOCK_MS
            &&& after.stored == c.stored
            &&& after.loaded == c.loaded
            &&& after.height == c.height
            &&& after.chainwork == c.chainwork
        }),
        ({
            let after = c.abc_reset();
            &&& after.target_block_ms == BASE_TARGET_BLOCK_MS
            &&& after.difficulty == c.difficulty
            &&& after.stored == c.stored
            &&& after.loaded == c.loaded
            &&& after.height == c.height
            &&& after.chainwork == c.chainwork
        }),
{
    lemma_cadence_reads(c, ChainModel { difficulty: c.recalibrated(params).difficulty, ..c });
}

} // verus!
