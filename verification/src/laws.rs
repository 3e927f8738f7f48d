//! What holds of the chain as a whole, whatever is done to it.

use vstd::prelude::*;

use crate::apply::BlockChecks;
use crate::block::BlockModel;
use crate::ledger::ChainLedger;
use crate::model::ChainModel;
use crate::params::{ParamsModel, FINALITY_DEPTH};
use crate::records::{Meta, RecordsModel};

verus! {

impl ChainModel {
    /// Every block from genesis to the tip can be read, lies under its own index,
    /// and names the hash of the block before it.
    pub open spec fn linked(self) -> bool {
        &&& crate::model::present(self.stored, 0, self.height as int)
        &&& forall|i: u64| i <= self.height ==> (#[trigger] self.stored[i]).index == i
        &&& forall|i: u64|
            0 < i <= self.height ==> (#[trigger] self.stored[i]).prev_hash == self.stored[(i
                - 1) as u64].hash
    }

    /// Every block agrees with the checkpoint at its height, if there is one.
    pub open spec fn respects_checkpoints(self, params: ParamsModel) -> bool {
        forall|i: u64| #[trigger]
            self.stored.dom().contains(i) ==> Self::agrees_with_checkpoint(
                self.stored[i],
                params,
            )
    }

    /// The four counters are on record.
    pub open spec fn persisted(self) -> bool {
        &&& self.meta.dom().contains(Meta::Height)
        &&& self.meta[Meta::Height] == vstd::bytes::spec_u64_to_le_bytes(self.height)
        &&& self.meta.dom().contains(Meta::Difficulty)
        &&& self.meta[Meta::Difficulty] == vstd::bytes::spec_u64_to_le_bytes(self.difficulty)
        &&& self.meta.dom().contains(Meta::TargetTime)
        &&& self.meta[Meta::TargetTime] == vstd::bytes::spec_u64_to_le_bytes(self.target_block_ms)
        &&& self.meta.dom().contains(Meta::Chainwork)
        &&& self.meta[Meta::Chainwork] == vstd::bytes::spec_u128_to_le_bytes(self.chainwork)
    }
}

// ── Integrity ────────────────────────────────────────────────────────────────

/// A fresh chain is linked.
pub proof fn law_fresh_chain_is_linked(
    records: RecordsModel,
    params: ParamsModel,
    genesis: BlockModel,
)
    requires
        genesis.index == 0,
    ensures
        crate::load::fresh(records, params, genesis).linked(),
        crate::load::fresh(records, params, genesis).height == 0,
        crate::load::fresh(records, params, genesis).tip() == genesis,
{
}

/// Appending the next block to a linked chain, live or historical, leaves it
/// linked, one block higher, with that block as its tip and all others in place.
pub proof fn law_append_keeps_links(c: ChainModel, block: BlockModel, params: ParamsModel)
    requires
        c.linked(),
        crate::block::extends(block, c.tip()),
    ensures
        c.applied(block, params).linked(),
        c.applied(block, params).height == c.height + 1,
        c.applied(block, params).tip() == block,
        forall|i: u64| i <= c.height ==> c.applied(block, params).block(i) == c.block(i),
        c.restored(block, params).applied_ibd(block, params).linked(),
        c.restored(block, params).applied_ibd(block, params).height == c.height + 1,
        c.restored(block, params).applied_ibd(block, params).tip() == block,
        forall|i: u64|
            i <= c.height ==> c.restored(block, params).applied_ibd(block, params).block(i)
                == c.block(i),
{
    assert(c.stored[c.height].index == c.height);
    lemma_append_keeps_links(c, c.applied(block, params), block);
    lemma_append_keeps_links(c, c.restored(block, params).applied_ibd(block, params), block);
}

proof fn lemma_append_keeps_links(c: ChainModel, after: ChainModel, block: BlockModel)
    requires
        c.linked(),
        c.tip().index == c.height,
        crate::block::extends(block, c.tip()),
        after.stored == c.stored.insert(block.index, block),
        after.height == block.index,
    ensures
        after.linked(),
        after.height == c.height + 1,
        after.tip() == block,
        forall|i: u64| i <= c.height ==> after.block(i) == c.block(i),
{
    assert forall|i: u64| i <= after.height implies #[trigger] after.stored.dom().contains(i) by {
        if i <= c.height {
            assert(c.stored.dom().contains(i));
        }
    }
    assert forall|i: u64| i <= after.height implies (#[trigger] after.stored[i]).index == i by {
        if i <= c.height {
            assert(c.stored[i].index == i);
        }
    }
    assert forall|i: u64| 0 < i <= after.height implies (#[trigger] after.stored[i]).prev_hash
        == after.stored[(i - 1) as u64].hash by {
        if i <= c.height {
            assert(c.stored[i].prev_hash == c.stored[(i - 1) as u64].hash);
        }
    }
}

/// Taking the tip of a linked chain back leaves it linked.
pub proof fn law_revert_keeps_links(c: ChainModel, params: ParamsModel)
    requires
        c.linked(),
        c.height > 0,
    ensures
        c.reverted(params).linked(),
        c.reverted(params).height == c.height - 1,
{
    assert(c.reverted(params).stored == c.stored.remove(c.height));
}

/// Taking back the block that was appended last gives back the height, the
/// blocks and the cumulative work from before. There must have been nothing in
/// its place, and the work must not have reached the largest number.
pub proof fn law_revert_undoes_apply(c: ChainModel, block: BlockModel, params: ParamsModel)
    requires
        c.tip().index == c.height,
        crate::block::extends(block, c.tip()),
        c.chainwork + crate::model::work_of(
            crate::model::target_of(block, c.applied(block, params).difficulty),
        ) <= u128::MAX,
        !c.stored.dom().contains(block.index),
    ensures
        c.applied(block, params).reverted(params).height == c.height,
        c.applied(block, params).reverted(params).stored == c.stored,
        c.applied(block, params).reverted(params).chainwork == c.chainwork,
{
    let after = c.applied(block, params);
    assert(after.stored == c.stored.insert(block.index, block));
    assert(after.reverted(params).stored =~= c.stored);
}

/// The same of a historical block that records the target it was mined under.
pub proof fn law_revert_undoes_apply_ibd(c: ChainModel, block: BlockModel, params: ParamsModel)
    requires
        c.tip().index == c.height,
        crate::block::extends(block, c.tip()),
        block.difficulty_target != 0,
        c.chainwork + crate::model::work_of(block.difficulty_target) <= u128::MAX,
        !c.stored.dom().contains(block.index),
    ensures
        c.applied_ibd(block, params).reverted(params).height == c.height,
        c.applied_ibd(block, params).reverted(params).stored == c.stored,
        c.applied_ibd(block, params).reverted(params).chainwork == c.chainwork,
{
    let after = c.applied_ibd(block, params);
    assert(after.stored == c.stored.insert(block.index, block));
    assert(after.reverted(params).stored =~= c.stored);
}

pub(crate) proof fn lemma_work_bounds(target: u64)
    ensures
        1 <= crate::model::work_of(target) <= u64::MAX,
{
    if target != 0 {
        assert(1 <= u64::MAX as int / target as int <= u64::MAX) by (nonlinear_arith)
            requires
                1 <= target <= u64::MAX,
        ;
    }
}

// ── Work ─────────────────────────────────────────────────────────────────────

/// A harder target is worth at least as much work.
pub proof fn law_lower_target_is_more_work(a: u64, b: u64)
    requires
        0 < a <= b,
    ensures
        crate::model::work_of(a) >= crate::model::work_of(b),
{
    assert(u64::MAX as int / a as int >= u64::MAX as int / b as int) by (nonlinear_arith)
        requires
            0 < a <= b,
    ;
}

/// Every block adds work, until the sum reaches the largest number.
pub proof fn law_append_adds_work(c: ChainModel, block: BlockModel, params: ParamsModel)
    requires
        c.chainwork < u128::MAX,
    ensures
        c.applied(block, params).chainwork > c.chainwork,
        c.applied_ibd(block, params).chainwork > c.chainwork,
{
    lemma_work_bounds(
        crate::model::target_of(block, c.with_block(block).retargeted(params).difficulty),
    );
    lemma_work_bounds(crate::model::target_of(block, c.with_block(block).difficulty));
}

/// Sum of the work of the blocks from the first mined one to `high`.
pub open spec fn work_up_to(stored: Map<u64, BlockModel>, high: int) -> int
    decreases high,
{
    if high <= 0 {
        0
    } else {
        work_up_to(stored, high - 1) + crate::model::work_of(
            stored[high as u64].difficulty_target,
        )
    }
}

impl ChainModel {
    /// Every mined block records the target it was mined under, and the cumulative
    /// work is the sum of their works.
    pub open spec fn work_adds_up(self) -> bool {
        &&& forall|i: u64|
            0 < i <= self.height ==> (#[trigger] self.stored[i]).difficulty_target != 0
        &&& self.chainwork == work_up_to(self.stored, self.height as int)
    }
}

pub(crate) proof fn lemma_work_up_to_bounds(stored: Map<u64, BlockModel>, high: int)
    requires
        0 <= high <= u64::MAX,
    ensures
        high <= work_up_to(stored, high) <= high * u64::MAX,
        high * u64::MAX <= u128::MAX,
    decreases high,
{
    assert(high * u64::MAX <= u128::MAX) by (nonlinear_arith)
        requires
            0 <= high <= u64::MAX,
    ;
    if high > 0 {
        lemma_work_up_to_bounds(stored, high - 1);
        lemma_work_bounds(stored[high as u64].difficulty_target);
        assert((high - 1) * u64::MAX + u64::MAX == high * u64::MAX) by (nonlinear_arith);
    }
}

proof fn lemma_work_up_to_agrees(a: Map<u64, BlockModel>, b: Map<u64, BlockModel>, high: int)
    requires
        0 <= high <= u64::MAX,
        forall|i: u64| 0 < i <= high ==> #[trigger] a[i] == b[i],
    ensures
        work_up_to(a, high) == work_up_to(b, high),
    decreases high,
{
    if high > 0 {
        lemma_work_up_to_agrees(a, b, high - 1);
        assert(a[high as u64] == b[high as u64]);
    }
}

/// The cumulative work is the sum of the works of the mined blocks: so it is on a
/// fresh chain, and appending a block that records its target, live or historical,
/// and taking the last block back keep it so.
pub proof fn law_work_is_the_sum_of_the_blocks(
    c: ChainModel,
    block: BlockModel,
    params: ParamsModel,
    records: RecordsModel,
    genesis: BlockModel,
)
    requires
        c.linked(),
        c.work_adds_up(),
        crate::block::extends(block, c.tip()),
        block.difficulty_target != 0,
    ensures
        crate::load::fresh(records, params, genesis).work_adds_up(),
        c.applied(block, params).work_adds_up(),
        c.restored(block, params).applied_ibd(block, params).work_adds_up(),
        c.height > 0 ==> c.reverted(params).work_adds_up(),
{
    assert(c.stored[c.height].index == c.height);
    lemma_append_adds_up(c, c.applied(block, params), block);
    lemma_append_adds_up(c, c.restored(block, params).applied_ibd(block, params), block);
    if c.height > 0 {
        lemma_revert_adds_up(c, params);
    }
}

proof fn lemma_append_adds_up(c: ChainModel, after: ChainModel, block: BlockModel)
    requires
        c.work_adds_up(),
        block.index == c.height + 1,
        block.difficulty_target != 0,
        after.stored == c.stored.insert(block.index, block),
        after.height == block.index,
        after.chainwork == crate::model::min_int(
            c.chainwork + crate::model::work_of(block.difficulty_target),
            u128::MAX as int,
        ),
    ensures
        after.work_adds_up(),
{
    lemma_work_up_to_agrees(after.stored, c.stored, c.height as int);
    lemma_work_up_to_bounds(after.stored, after.height as int);
    assert forall|i: u64| 0 < i <= after.height implies (
    #[trigger] after.stored[i]).difficulty_target != 0 by {
        if i <= c.height {
            assert(c.stored[i].difficulty_target != 0);
        }
    }
}

/// Taking the last block back takes its work off.
pub(crate) proof fn lemma_revert_adds_up(c: ChainModel, params: ParamsModel)
    requires
        c.work_adds_up(),
        c.height > 0,
    ensures
        c.reverted(params).work_adds_up(),
{
    let after = c.reverted(params);
    assert(after.stored == c.stored.remove(c.height));
    assert(c.stored[c.height].difficulty_target != 0);
    lemma_work_up_to_agrees(after.stored, c.stored, after.height as int);
    lemma_work_up_to_bounds(c.stored, after.height as int);
    assert forall|i: u64| 0 < i <= after.height implies (
    #[trigger] after.stored[i]).difficulty_target != 0 by {
        assert(c.stored[i].difficulty_target != 0);
    }
}

// ── Finality ─────────────────────────────────────────────────────────────────

pub(crate) proof fn lemma_reverted_above(c: ChainModel, target: u64, params: ParamsModel)
    ensures
        c.reverted_above(target, params).height == crate::model::min_int(
            c.height as int,
            target as int,
        ),
        c.reverted_above(target, params).target_block_ms == c.target_block_ms,
        forall|i: u64|
            i <= target || i > c.height ==> #[trigger] c.reverted_above(target, params).block(i)
                == c.block(i),
        forall|i: u64|
            target < i <= c.height ==> #[trigger] c.reverted_above(target, params).block(i)
                is None,
        forall|i: u64| #[trigger]
            c.reverted_above(target, params).stored.dom().contains(i) ==> c.stored.dom().contains(i)
                && c.reverted_above(target, params).stored[i] == c.stored[i],
    decreases c.height,
{
    if c.height > target {
        let next = c.reverted(params);
        lemma_reverted_above(next, target, params);
        assert(next.stored == c.stored.remove(c.height));
        assert forall|i: u64| #[trigger]
            c.reverted_above(target, params).stored.dom().contains(
                i,
            ) implies c.stored.dom().contains(i) && c.reverted_above(target, params).stored[i]
            == c.stored[i] by {
            assert(next.reverted_above(target, params).stored.dom().contains(i));
        }
        assert forall|i: u64| i <= target || i > c.height implies #[trigger] c.reverted_above(
            target,
            params,
        ).block(i) == c.block(i) by {
            assert(next.reverted_above(target, params).block(i) == next.block(i));
        }
        assert forall|i: u64| target < i <= c.height implies #[trigger] c.reverted_above(
            target,
            params,
        ).block(i) is None by {
            if i == c.height {
                assert(next.reverted_above(target, params).block(i) == next.block(i));
            } else {
                assert(next.reverted_above(target, params).block(i) is None);
            }
        }
    }
}

/// Going back to a height leaves the chain there, or where it was if it was lower,
/// keeps every block up to that height and removes every block above it.
pub proof fn law_revert_to_height_cuts_there(c: ChainModel, target: u64, params: ParamsModel)
    ensures
        c.reverted_to(target, params).height == crate::model::min_int(
            c.height as int,
            target as int,
        ),
        forall|i: u64|
            i <= target ==> #[trigger] c.reverted_to(target, params).block(i) == c.block(i),
        forall|i: u64|
            target < i <= c.height ==> #[trigger] c.reverted_to(target, params).block(i) is None,
{
    lemma_reverted_above(c, target, params);
    let above = c.reverted_above(target, params);
    let to = c.reverted_to(target, params);
    assert(to.stored == above.stored);
    assert forall|i: u64| i <= target implies #[trigger] to.block(i) == c.block(i) by {
        assert(above.block(i) == c.block(i));
    }
    assert forall|i: u64| target < i <= c.height implies #[trigger] to.block(i) is None by {
        assert(above.block(i) is None);
    }
}

/// A block with as many confirmations as the finality depth is final: a
/// reorganisation that is not refused leaves it where it is, even one that goes
/// back to genesis.
pub proof fn law_final_blocks_survive(
    c: ChainModel,
    target: u64,
    params: ParamsModel,
    index: u64,
)
    requires
        !c.refuses_revert(target, params),
        index + FINALITY_DEPTH <= c.height,
    ensures
        c.reverted_to(target, params).block(index) == c.block(index),
        c.reverted_to(target, params).height >= index,
{
    law_revert_to_height_cuts_there(c, target, params);
}

/// A reorganisation that is not refused leaves every checkpoint that was reached
/// where it is.
pub proof fn law_checkpoints_survive(c: ChainModel, target: u64, params: ParamsModel, i: int)
    requires
        !c.refuses_revert(target, params),
        0 <= i < params.checkpoints.len(),
        params.checkpoints[i].height <= c.height,
    ensures
        c.reverted_to(target, params).block(params.checkpoints[i].height) == c.block(
            params.checkpoints[i].height,
        ),
        c.reverted_to(target, params).height >= params.checkpoints[i].height,
{
    crate::params::law_reached_checkpoint_is_highest(params, c.height);
    law_revert_to_height_cuts_there(c, target, params);
}

/// Whatever is offered to a chain whose blocks agree with the checkpoints, and
/// however far it goes back, its blocks agree with the checkpoints afterwards.
pub proof fn law_checkpoints_are_respected<L: ChainLedger>(
    c: ChainModel,
    ledger: L::Model,
    block: BlockModel,
    checks: BlockChecks,
    target: u64,
    params: ParamsModel,
)
    requires
        c.respects_checkpoints(params),
    ensures
        crate::apply::live_effect::<L>(
            c,
            ledger,
            block,
            checks,
            params,
        ).0.respects_checkpoints(params),
        crate::apply::ibd_effect::<L>(c, ledger, block, params).0.respects_checkpoints(params),
        c.reverted(params).respects_checkpoints(params),
        c.reverted_to(target, params).respects_checkpoints(params),
{
    let live = crate::apply::live_effect::<L>(c, ledger, block, checks, params);
    let ibd = crate::apply::ibd_effect::<L>(c, ledger, block, params).0;
    if live.2 {
        assert(live.0.stored == c.stored.insert(block.index, block));
    } else {
        assert(live.0.stored == c.stored);
    }
    if crate::apply::ibd_appends::<L>(c, ledger, block, params) {
        assert(ibd.stored == c.stored.insert(block.index, block));
    } else {
        assert(ibd.stored == c.stored);
    }
    assert(c.reverted(params).stored == c.stored.remove(c.height));
    lemma_reverted_above(c, target, params);
    let above = c.reverted_above(target, params);
    let to = c.reverted_to(target, params);
    assert(to.stored == above.stored);
    assert forall|i: u64| #[trigger]
        to.stored.dom().contains(i) implies ChainModel::agrees_with_checkpoint(
        to.stored[i],
        params,
    ) by {
        assert(above.stored.dom().contains(i));
        assert(c.stored.dom().contains(i));
    }
}

/// Back at genesis, the difficulty is the initial one.
pub proof fn law_revert_to_genesis_resets_difficulty(c: ChainModel, params: ParamsModel)
    ensures
        c.reverted_to(0, params).height == 0,
        c.reverted_to(0, params).difficulty == params.testnet_target,
{
    lemma_reverted_above(c, 0, params);
}

// ── Persistence ──────────────────────────────────────────────────────────────

/// Every operation leaves the counters on record if they were before.
pub proof fn law_operations_persist(
    c: ChainModel,
    block: BlockModel,
    target: u64,
    params: ParamsModel,
)
    requires
        c.persisted(),
    ensures
        c.applied(block, params).persisted(),
        c.restored(block, params).persisted(),
        c.applied_ibd(block, params).persisted(),
        c.reverted(params).persisted(),
        c.reverted_to(target, params).persisted(),
        c.abc_reset().persisted(),
        c.recalibrated(params).persisted(),
{
    lemma_reverted_above_persists(c, target, params);
}

proof fn lemma_reverted_above_persists(c: ChainModel, target: u64, params: ParamsModel)
    requires
        c.persisted(),
    ensures
        c.reverted_above(target, params).persisted(),
    decreases c.height,
{
    if c.height > target {
        lemma_reverted_above_persists(c.reverted(params), target, params);
    }
}

/// A fresh chain has its counters on record.
pub proof fn law_fresh_chain_is_persisted(
    records: RecordsModel,
    params: ParamsModel,
    genesis: BlockModel,
)
    ensures
        crate::load::fresh(records, params, genesis).persisted(),
{
}

/// Opening the records of a chain again gives back the chain. Its counters must
/// be on record, its difficulty at genesis the initial one, and above genesis
/// its work not zero.
pub proof fn law_reopening_gives_back_the_chain(
    records: RecordsModel,
    c: ChainModel,
    params: ParamsModel,
    genesis: BlockModel,
    legacy: Seq<BlockModel>,
    legacy_target: u64,
)
    requires
        c.stored == crate::blockchain::readable(records.blocks),
        c.loaded == records.blocks.dom(),
        c.meta == records.meta,
        c.persisted(),
        c.height == 0 ==> c.difficulty == params.testnet_target,
        c.height > 0 ==> c.chainwork > 0,
    ensures
        crate::load::opened(records, params, genesis, legacy, legacy_target) == c,
{
    vstd::bytes::lemma_auto_spec_u64_to_from_le_bytes();
    vstd::bytes::lemma_auto_spec_u128_to_from_le_bytes();
    let again = crate::load::resumed(records, params, legacy_target);
    assert(c.meta.insert(
        Meta::Difficulty,
        vstd::bytes::spec_u64_to_le_bytes(c.difficulty),
    ) =~= c.meta);
    assert(again =~= c);
}

// ── Ranges and pages ─────────────────────────────────────────────────────────

/// A range of a linked chain holds each of its blocks, in order.
pub proof fn law_range_of_linked_chain(c: ChainModel, low: int, high: int)
    requires
        c.linked(),
        0 <= low <= high + 1,
        high <= c.height,
    ensures
        c.blocks_between(low, high).len() == high - low + 1,
        forall|k: int|
            0 <= k <= high - low ==> {
                &&& #[trigger] c.blocks_between(low, high)[k] == c.stored[(low + k) as u64]
                &&& c.blocks_between(low, high)[k].index == low + k
            },
    decreases high - low + 1,
{
    if low <= high {
        law_range_of_linked_chain(c, low, high - 1);
        assert(c.stored.dom().contains(high as u64));
        assert(c.stored[high as u64].index == high as u64);
    }
}

pub(crate) proof fn lemma_range_len(c: ChainModel, low: int, high: int)
    requires
        low <= high + 1,
    ensures
        c.blocks_between(low, high).len() <= high - low + 1,
    decreases high - low + 1,
{
    if low <= high {
        lemma_range_len(c, low, high - 1);
    }
}

/// A page holds no more blocks than were asked for, and none where it starts below
/// genesis.
pub proof fn law_page_is_bounded(c: ChainModel, offset: int, limit: int)
    requires
        0 <= offset,
        0 <= limit,
    ensures
        c.page(offset, limit).len() <= limit,
        offset > c.height ==> c.page(offset, limit).len() == 0,
{
    let start = c.height - offset;
    if limit > 0 && offset <= c.height {
        lemma_range_len(c, crate::model::monus(start, limit - 1), start);
    }
}

} // verus!
