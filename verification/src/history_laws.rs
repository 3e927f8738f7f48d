//! What holds of every chain that its operations can bring about.

use vstd::prelude::*;

use crate::apply::BlockChecks;
use crate::block::BlockModel;
use crate::ledger::{ChainLedger, Ledger, LedgerModel};
use crate::model::ChainModel;
use crate::params::{ParamsModel, BASE_TARGET_BLOCK_MS, LWMA_WINDOW};
use crate::records::RecordsModel;

verus! {

/// One operation on a chain.
pub enum Operation {
    /// `Blockchain::apply_block`.
    Apply { block: BlockModel, checks: BlockChecks },
    /// `Blockchain::apply_block_ibd`.
    ApplyIbd { block: BlockModel },
    /// `Blockchain::revert_tip`.
    RevertTip,
    /// `Blockchain::revert_to_height`.
    RevertToHeight { height: u64 },
    /// `Blockchain::recalibrate_abc`.
    RecalibrateAbc,
    /// `Blockchain::recalibrate_difficulty_after_ibd`.
    RecalibrateDifficulty,
}

impl Operation {
    /// Whether the block that is offered, if one is, records its target.
    pub open spec fn records_target(self) -> bool {
        match self {
            Operation::Apply { block, .. } => block.difficulty_target != 0,
            Operation::ApplyIbd { block } => block.difficulty_target != 0,
            _ => true,
        }
    }

    /// The chain and the ledger after the operation, whether it succeeds or not.
    pub open spec fn done<L: ChainLedger>(
        self,
        chain: ChainModel,
        ledger: L::Model,
        params: ParamsModel,
    ) -> (ChainModel, L::Model) {
        match self {
            Operation::Apply { block, checks } => {
                let (c, l, _) = crate::apply::live_effect::<L>(
                    chain,
                    ledger,
                    block,
                    checks,
                    params,
                );
                (c, l)
            },
            Operation::ApplyIbd { block } => {
                let (c, l, _) = crate::apply::ibd_effect::<L>(chain, ledger, block, params);
                (c, l)
            },
            Operation::RevertTip => if chain.height == 0 {
                (chain, ledger)
            } else {
                (chain.reverted(params), crate::apply::block_undone::<L>(ledger, chain.tip()))
            },
            Operation::RevertToHeight { height } => if chain.refuses_revert(height, params) {
                (chain, ledger)
            } else {
                (
                    chain.reverted_to(height, params),
                    chain.ledger_reverted_above::<L>(ledger, height, params),
                )
            },
            Operation::RecalibrateAbc => (chain.abc_reset(), ledger),
            Operation::RecalibrateDifficulty => (chain.recalibrated(params), ledger),
        }
    }
}

/// The chain and the ledger after the first `n` of a list of operations.
pub open spec fn after_operations<L: ChainLedger>(
    chain: ChainModel,
    ledger: L::Model,
    operations: Seq<Operation>,
    params: ParamsModel,
    n: int,
) -> (ChainModel, L::Model)
    decreases n,
{
    if n <= 0 {
        (chain, ledger)
    } else {
        let (c, l) = after_operations::<L>(chain, ledger, operations, params, n - 1);
        operations[n - 1].done::<L>(c, l, params)
    }
}

impl ChainModel {
    /// What every chain keeps: its blocks are linked, its counters on record, its
    /// work is the sum of its blocks' works, and at genesis its difficulty is the
    /// initial one.
    pub open spec fn accounted(self, params: ParamsModel) -> bool {
        &&& self.intact()
        &&& self.work_adds_up()
        &&& self.height == 0 ==> self.difficulty == params.testnet_target
    }
}

proof fn lemma_reverted_above_accounted(chain: ChainModel, target: u64, params: ParamsModel)
    requires
        chain.accounted(params),
    ensures
        chain.reverted_above(target, params).accounted(params),
    decreases chain.height,
{
    if chain.height > target {
        lemma_reverted_accounted(chain, params);
        lemma_reverted_above_accounted(chain.reverted(params), target, params);
    }
}

proof fn lemma_reverted_accounted(chain: ChainModel, params: ParamsModel)
    requires
        chain.accounted(params),
        chain.height > 0,
    ensures
        chain.reverted(params).accounted(params),
{
    crate::laws::law_revert_keeps_links(chain, params);
    crate::laws::law_operations_persist(chain, chain.tip(), 0, params);
    crate::laws::lemma_revert_adds_up(chain, params);
}

proof fn lemma_operation_accounted<L: ChainLedger>(
    operation: Operation,
    chain: ChainModel,
    ledger: L::Model,
    params: ParamsModel,
)
    requires
        chain.accounted(params),
        operation.records_target(),
    ensures
        operation.done::<L>(chain, ledger, params).0.accounted(params),
{
    let after = operation.done::<L>(chain, ledger, params).0;
    crate::laws::law_operations_persist(chain, chain.tip(), 0, params);
    match operation {
        Operation::Apply { block, checks } => {
            crate::node_laws::lemma_live_intact::<L>(chain, ledger, block, checks, params);
            if chain.admits(block, checks, params) {
                lemma_append_accounted(chain, block, params);
            }
        },
        Operation::ApplyIbd { block } => {
            crate::node_laws::lemma_ibd_intact::<L>(chain, ledger, block, params);
            if chain.admits_ibd(block, params) {
                lemma_append_accounted(chain, block, params);
            }
        },
        Operation::RevertTip => {
            if chain.height > 0 {
                lemma_reverted_accounted(chain, params);
            }
        },
        Operation::RevertToHeight { height } => {
            lemma_reverted_above_accounted(chain, height, params);
            let above = chain.reverted_above(height, params);
            let to = chain.reverted_to(height, params);
            assert(to.stored == above.stored && to.height == above.height);
        },
        Operation::RecalibrateAbc => {
            assert(after.stored == chain.stored);
        },
        Operation::RecalibrateDifficulty => {
            assert(after.stored == chain.stored);
        },
    }
}

proof fn lemma_append_accounted(chain: ChainModel, block: BlockModel, params: ParamsModel)
    requires
        chain.accounted(params),
        crate::block::extends(block, chain.tip()),
        block.difficulty_target != 0,
    ensures
        chain.applied(block, params).work_adds_up(),
        chain.applied(block, params).height > 0,
        chain.restored(block, params).applied_ibd(block, params).work_adds_up(),
        chain.restored(block, params).applied_ibd(block, params).height > 0,
{
    crate::laws::law_work_is_the_sum_of_the_blocks(
        chain,
        block,
        params,
        RecordsModel { blocks: Map::empty(), meta: Map::empty() },
        block,
    );
    crate::laws::law_append_keeps_links(chain, block, params);
}

/// Every chain that operations bring about from a fresh one is linked, has its
/// counters on record, and its work is the sum of the works of its mined blocks.
/// The blocks that are offered must record their targets.
pub proof fn law_every_chain_is_accounted<L: ChainLedger>(
    records: RecordsModel,
    params: ParamsModel,
    genesis: BlockModel,
    ledger: L::Model,
    operations: Seq<Operation>,
    n: int,
)
    requires
        genesis.index == 0,
        0 <= n <= operations.len(),
        forall|i: int| 0 <= i < operations.len() ==> (#[trigger] operations[i]).records_target(),
    ensures
        after_operations::<L>(
            crate::load::fresh(records, params, genesis),
            ledger,
            operations,
            params,
            n,
        ).0.accounted(params),
    decreases n,
{
    let start = crate::load::fresh(records, params, genesis);
    if n > 0 {
        law_every_chain_is_accounted::<L>(records, params, genesis, ledger, operations, n - 1);
        let (c, l) = after_operations::<L>(start, ledger, operations, params, n - 1);
        lemma_operation_accounted::<L>(operations[n - 1], c, l, params);
    } else {
        crate::laws::law_fresh_chain_is_linked(records, params, genesis);
        crate::laws::law_fresh_chain_is_persisted(records, params, genesis);
    }
}

/// Every chain that operations bring about from a fresh one is given back, block by
/// block and counter by counter, when its records are opened again. The blocks that
/// are offered must record their targets.
pub proof fn law_every_chain_reopens<L: ChainLedger>(
    records: RecordsModel,
    params: ParamsModel,
    genesis: BlockModel,
    ledger: L::Model,
    operations: Seq<Operation>,
    written: RecordsModel,
    legacy: Seq<BlockModel>,
    legacy_target: u64,
)
    requires
        genesis.index == 0,
        forall|i: int| 0 <= i < operations.len() ==> (#[trigger] operations[i]).records_target(),
        ({
            let c = after_operations::<L>(
                crate::load::fresh(records, params, genesis),
                ledger,
                operations,
                params,
                operations.len() as int,
            ).0;
            &&& c.stored == crate::blockchain::readable(written.blocks)
            &&& c.loaded == written.blocks.dom()
            &&& c.meta == written.meta
        }),
    ensures
        crate::load::opened(written, params, genesis, legacy, legacy_target)
            == after_operations::<L>(
            crate::load::fresh(records, params, genesis),
            ledger,
            operations,
            params,
            operations.len() as int,
        ).0,
{
    let n = operations.len() as int;
    law_every_chain_is_accounted::<L>(records, params, genesis, ledger, operations, n);
    let c = after_operations::<L>(
        crate::load::fresh(records, params, genesis),
        ledger,
        operations,
        params,
        n,
    ).0;
    crate::laws::lemma_work_up_to_bounds(c.stored, c.height as int);
    crate::laws::law_reopening_gives_back_the_chain(
        written,
        c,
        params,
        genesis,
        legacy,
        legacy_target,
    );
}

// ── Mining and downloading ───────────────────────────────────────────────────

/// The chain and the ledger after the first `n` of some blocks have been applied
/// live, and whether all of them were taken.
pub open spec fn mined<L: ChainLedger>(
    chain: ChainModel,
    ledger: L::Model,
    blocks: Seq<BlockModel>,
    checks: Seq<BlockChecks>,
    params: ParamsModel,
    n: int,
) -> (ChainModel, L::Model, bool)
    decreases n,
{
    if n <= 0 {
        (chain, ledger, true)
    } else {
        let (c, l, before) = mined::<L>(chain, ledger, blocks, checks, params, n - 1);
        let (after, paid, ok) = crate::apply::live_effect::<L>(
            c,
            l,
            blocks[n - 1],
            checks[n - 1],
            params,
        );
        (after, paid, before && ok)
    }
}

proof fn lemma_mined_and_downloaded<L: ChainLedger>(
    start: ChainModel,
    ledger: L::Model,
    blocks: Seq<BlockModel>,
    checks: Seq<BlockChecks>,
    params: ParamsModel,
    n: int,
)
    requires
        start.accounted(params),
        0 <= n <= blocks.len(),
        forall|i: int| 0 <= i < blocks.len() ==> (#[trigger] blocks[i]).difficulty_target != 0,
        mined::<L>(start, ledger, blocks, checks, params, n).2,
        crate::batch::batch::<L>(start, ledger, blocks, None, params, n).ok,
    ensures
        ({
            let live = mined::<L>(start, ledger, blocks, checks, params, n).0;
            let downloaded = crate::batch::batch::<L>(
                start,
                ledger,
                blocks,
                None,
                params,
                n,
            ).chain;
            &&& !crate::batch::batch::<L>(start, ledger, blocks, None, params, n).stuck
            &&& live.accounted(params)
            &&& downloaded.accounted(params)
            &&& live.stored == downloaded.stored
            &&& live.height == start.height + n
            &&& downloaded.height == start.height + n
            &&& downloaded.target_block_ms == start.target_block_ms
            &&& forall|i: u64|
                start.height < i <= live.height ==> (#[trigger] live.stored[i]).difficulty_target
                    != 0
        }),
    decreases n,
{
    if n > 0 {
        lemma_mined_and_downloaded::<L>(start, ledger, blocks, checks, params, n - 1);
        let (c, l, _) = mined::<L>(start, ledger, blocks, checks, params, n - 1);
        let b = crate::batch::batch::<L>(start, ledger, blocks, None, params, n - 1);
        let block = blocks[n - 1];
        assert(block.difficulty_target != 0);
        assert(b.chain.can_settle(block, params));
        let done = crate::batch::batch::<L>(start, ledger, blocks, None, params, n);
        assert(!done.stuck && done.chain == crate::apply::ibd_effect::<L>(
            b.chain,
            b.ledger,
            block,
            params,
        ).0);
        lemma_operation_accounted::<L>(
            Operation::Apply { block, checks: checks[n - 1] },
            c,
            l,
            params,
        );
        lemma_operation_accounted::<L>(
            Operation::ApplyIbd { block },
            b.chain,
            b.ledger,
            params,
        );
        assert(c.stored[c.height].index == c.height);
        let live = mined::<L>(start, ledger, blocks, checks, params, n).0;
        let downloaded = crate::batch::batch::<L>(start, ledger, blocks, None, params, n).chain;
        assert(live.stored == c.stored.insert(block.index, block));
        assert(downloaded.stored == b.chain.stored.insert(block.index, block));
    }
}

/// A chain that downloads the blocks that another one was mined with works out, once
/// it recalibrates, the difficulty that mining them gave, and has the same height,
/// work and blocks. Both start fresh; the blocks record their targets; and the target
/// block time had not moved when the last block was mined.
pub proof fn law_downloading_agrees_with_mining<L: ChainLedger>(
    records: RecordsModel,
    params: ParamsModel,
    genesis: BlockModel,
    ledger: L::Model,
    blocks: Seq<BlockModel>,
    checks: Seq<BlockChecks>,
)
    requires
        genesis.index == 0,
        blocks.len() >= LWMA_WINDOW,
        forall|i: int| 0 <= i < blocks.len() ==> (#[trigger] blocks[i]).difficulty_target != 0,
        ({
            let start = crate::load::fresh(records, params, genesis);
            let n = blocks.len() as int;
            &&& mined::<L>(start, ledger, blocks, checks, params, n).2
            &&& crate::batch::batch::<L>(start, ledger, blocks, None, params, n).ok
            &&& mined::<L>(start, ledger, blocks, checks, params, n - 1).0.target_block_ms
                == BASE_TARGET_BLOCK_MS
        }),
    ensures
        ({
            let start = crate::load::fresh(records, params, genesis);
            let n = blocks.len() as int;
            let live = mined::<L>(start, ledger, blocks, checks, params, n).0;
            let downloaded = crate::batch::batch::<L>(
                start,
                ledger,
                blocks,
                None,
                params,
                n,
            ).chain.recalibrated(params);
            &&& downloaded.difficulty == live.difficulty
            &&& downloaded.height == live.height
            &&& downloaded.chainwork == live.chainwork
            &&& downloaded.stored == live.stored
        }),
{
    let start = crate::load::fresh(records, params, genesis);
    let n = blocks.len() as int;
    crate::laws::law_fresh_chain_is_linked(records, params, genesis);
    crate::laws::law_fresh_chain_is_persisted(records, params, genesis);
    lemma_mined_and_downloaded::<L>(start, ledger, blocks, checks, params, n - 1);
    lemma_mined_and_downloaded::<L>(start, ledger, blocks, checks, params, n);
    let before = mined::<L>(start, ledger, blocks, checks, params, n - 1).0;
    let live = mined::<L>(start, ledger, blocks, checks, params, n).0;
    let downloaded = crate::batch::batch::<L>(start, ledger, blocks, None, params, n).chain;
    let block = blocks[n - 1];
    let stored = before.with_block(block);
    assert(stored.stored == live.stored && stored.height == live.height);
    assert(crate::model::present(
        stored.stored,
        stored.height - LWMA_WINDOW,
        stored.height as int,
    ));
    crate::difficulty_laws::law_recalibration_agrees_with_live_mining(
        before,
        block,
        downloaded,
        params,
    );
}

// ── Mining and going back ────────────────────────────────────────────────────

proof fn lemma_ledger_back_reads<L: ChainLedger>(
    a: ChainModel,
    b: ChainModel,
    ledger: L::Model,
    target: u64,
    params: ParamsModel,
)
    requires
        a.height == b.height,
        a.stored == b.stored,
    ensures
        a.ledger_reverted_above::<L>(ledger, target, params) == b.ledger_reverted_above::<L>(
            ledger,
            target,
            params,
        ),
    decreases a.height,
{
    if a.height > target {
        assert(a.reverted(params).stored == a.stored.remove(a.height));
        assert(b.reverted(params).stored == b.stored.remove(b.height));
        lemma_ledger_back_reads::<L>(
            a.reverted(params),
            b.reverted(params),
            crate::apply::block_undone::<L>(ledger, a.tip()),
            target,
            params,
        );
    }
}

proof fn lemma_ledger_back_agrees(
    c: ChainModel,
    a: LedgerModel,
    b: LedgerModel,
    target: u64,
    params: ParamsModel,
)
    requires
        crate::ledger_laws::same_holdings(a, b),
    ensures
        crate::ledger_laws::same_holdings(
            c.ledger_reverted_above::<Ledger>(a, target, params),
            c.ledger_reverted_above::<Ledger>(b, target, params),
        ),
    decreases c.height,
{
    if c.height > target {
        crate::ledger_laws::lemma_block_undone_agrees(a, b, c.tip());
        lemma_ledger_back_agrees(
            c.reverted(params),
            crate::apply::block_undone::<Ledger>(a, c.tip()),
            crate::apply::block_undone::<Ledger>(b, c.tip()),
            target,
            params,
        );
    }
}

/// Going back to where blocks were mined from undoes them all: the chain has its
/// height, its blocks and its work again, and every account its balance and its
/// sequence number, and the supply is what it was. Nothing may lie above the tip at
/// first, and no reward may reach the largest number.
pub proof fn law_going_back_undoes_mining(
    start: ChainModel,
    ledger: LedgerModel,
    blocks: Seq<BlockModel>,
    checks: Seq<BlockChecks>,
    params: ParamsModel,
    n: int,
)
    requires
        start.accounted(params),
        start.sound(),
        0 <= n <= blocks.len(),
        mined::<Ledger>(start, ledger, blocks, checks, params, n).2,
        forall|i: int| 0 <= i < n ==> (#[trigger] blocks[i]).difficulty_target != 0,
        forall|i: int|
            0 <= i < n ==> {
                let before = (#[trigger] mined::<Ledger>(
                    start,
                    ledger,
                    blocks,
                    checks,
                    params,
                    i,
                )).1;
                &&& before.account(blocks[i].miner).balance + blocks[i].reward <= u64::MAX
                &&& before.supply + blocks[i].reward <= u64::MAX
            },
    ensures
        ({
            let (c, paid, _) = mined::<Ledger>(start, ledger, blocks, checks, params, n);
            let back = c.reverted_to(start.height, params);
            &&& c.height == start.height + n
            &&& back.height == start.height
            &&& back.stored == start.stored
            &&& back.chainwork == start.chainwork
            &&& crate::ledger_laws::same_holdings(
                c.ledger_reverted_above::<Ledger>(paid, start.height, params),
                ledger,
            )
        }),
    decreases n,
{
    let (c, paid, _) = mined::<Ledger>(start, ledger, blocks, checks, params, n);
    lemma_mined_accounted(start, ledger, blocks, checks, params, n);
    if n > 0 {
        law_going_back_undoes_mining(start, ledger, blocks, checks, params, n - 1);
        lemma_mined_accounted(start, ledger, blocks, checks, params, n - 1);
        let (before, had, _) = mined::<Ledger>(start, ledger, blocks, checks, params, n - 1);
        let block = blocks[n - 1];
        assert(before.stored[before.height].index == before.height);
        assert(c.stored == before.stored.insert(block.index, block));
        assert(c.height == before.height + 1);
        let cut = c.reverted(params);
        assert(cut.stored =~= before.stored);
        assert(c.tip() == block);
        crate::ledger_laws::law_undoing_a_block(had, block);
        let undone = crate::apply::block_undone::<Ledger>(paid, block);
        lemma_ledger_back_reads::<Ledger>(cut, before, undone, start.height, params);
        lemma_ledger_back_agrees(before, undone, had, start.height, params);
        crate::ledger_laws::lemma_same_holdings_trans(
            c.ledger_reverted_above::<Ledger>(paid, start.height, params),
            before.ledger_reverted_above::<Ledger>(had, start.height, params),
            ledger,
        );
    }
    lemma_back_to(c, start, params);
}

/// A chain that extends another by blocks alone has its blocks and its work again once
/// it has gone back.
proof fn lemma_back_to(c: ChainModel, start: ChainModel, params: ParamsModel)
    requires
        c.accounted(params),
        c.sound(),
        start.accounted(params),
        start.sound(),
        c.height >= start.height,
        forall|i: u64| i <= start.height ==> #[trigger] c.stored[i] == start.stored[i],
    ensures
        c.reverted_to(start.height, params).height == start.height,
        c.reverted_to(start.height, params).stored == start.stored,
        c.reverted_to(start.height, params).chainwork == start.chainwork,
{
    let back = c.reverted_above(start.height, params);
    let to = c.reverted_to(start.height, params);
    crate::laws::lemma_reverted_above(c, start.height, params);
    lemma_reverted_above_accounted(c, start.height, params);
    crate::batch::lemma_reverted_above_sound(c, start.height, params);
    assert(to.stored == back.stored && to.height == back.height && to.chainwork
        == back.chainwork);
    assert forall|i: u64| back.stored.dom().contains(i) == start.stored.dom().contains(i) by {
        if i <= start.height {
            assert(back.stored.dom().contains(i));
            assert(start.stored.dom().contains(i));
        }
    }
    assert forall|i: u64| back.stored.dom().contains(i) implies back.stored[i]
        == start.stored[i] by {
        assert(c.stored[i] == start.stored[i]);
    }
    assert(back.stored =~= start.stored);
}

proof fn lemma_mined_accounted(
    start: ChainModel,
    ledger: LedgerModel,
    blocks: Seq<BlockModel>,
    checks: Seq<BlockChecks>,
    params: ParamsModel,
    n: int,
)
    requires
        start.accounted(params),
        start.sound(),
        0 <= n <= blocks.len(),
        mined::<Ledger>(start, ledger, blocks, checks, params, n).2,
        forall|i: int| 0 <= i < n ==> (#[trigger] blocks[i]).difficulty_target != 0,
    ensures
        ({
            let c = mined::<Ledger>(start, ledger, blocks, checks, params, n).0;
            &&& c.accounted(params)
            &&& c.sound()
            &&& c.height == start.height + n
            &&& forall|i: u64| i <= start.height ==> #[trigger] c.stored[i] == start.stored[i]
        }),
    decreases n,
{
    if n > 0 {
        lemma_mined_accounted(start, ledger, blocks, checks, params, n - 1);
        let (before, had, _) = mined::<Ledger>(start, ledger, blocks, checks, params, n - 1);
        let block = blocks[n - 1];
        lemma_operation_accounted::<Ledger>(
            Operation::Apply { block, checks: checks[n - 1] },
            before,
            had,
            params,
        );
        crate::node::lemma_live_effect_sound::<Ledger>(
            before,
            had,
            block,
            checks[n - 1],
            params,
        );
        let c = mined::<Ledger>(start, ledger, blocks, checks, params, n).0;
        assert(before.stored[before.height].index == before.height);
        assert(c.stored == before.stored.insert(block.index, block));
    }
}

} // verus!
