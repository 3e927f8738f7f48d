//! Extending the chain and taking blocks back, together with the ledger.

use vstd::prelude::*;

use crate::block::{Block, BlockModel};
use crate::blockchain::{block_work, Blockchain};
use crate::hash::hex_encode;
use crate::ledger::ChainLedger;
use crate::model::ChainModel;
use crate::params::{
    ParamsModel, TaronError, ABC_WINDOW, DAA_WINDOW, FINALITY_DEPTH, LWMA_WINDOW, MAX_TARGET,
    MIN_TARGET,
};

verus! {

/// Outcome of the checks of one transaction of a block.
#[derive(Debug, Clone, Copy, PartialEq, Eq, Structural)]
pub struct TxCheck {
    /// Field ranges, non-zero amounts and the like.
    pub structure_ok: bool,
    pub signature_ok: bool,
}

/// Outcome of the checks of a live block that take the header hash function, the
/// clock, or a signature scheme.
#[derive(Debug, PartialEq, Eq)]
pub struct BlockChecks {
    /// The hash belongs to the header, and the timestamp is not too far off.
    pub header_ok: bool,
    /// One entry per transaction.
    pub txs: Vec<TxCheck>,
}

impl BlockChecks {
    /// Whether each of `n` transactions was checked and passed.
    pub open spec fn txs_pass(&self, n: int) -> bool {
        self.txs.len() == n && forall|i: int|
            0 <= i < n ==> (#[trigger] self.txs[i]).structure_ok && self.txs[i].signature_ok
    }

    /// Whether each of `n` transactions was checked and passed.
    pub fn all_txs_pass(&self, n: usize) -> (pass: bool)
        ensures
            pass == self.txs_pass(n as int),
    {
        if self.txs.len() != n {
            return false;
        }
        let mut i: usize = 0;
        while i < n
            invariant
                i <= n,
                self.txs.len() == n,
                forall|j: int|
                    0 <= j < i ==> (#[trigger] self.txs[j]).structure_ok
                        && self.txs[j].signature_ok,
            decreases n - i,
        {
            if !self.txs[i].structure_ok || !self.txs[i].signature_ok {
                return false;
            }
            i = i + 1;
        }
        true
    }
}

impl ChainModel {
    /// Whether a block agrees with the checkpoint at its height, if there is one.
    pub open spec fn agrees_with_checkpoint(block: BlockModel, params: ParamsModel) -> bool {
        params.checkpoint_at(block.index) matches Some(checkpoint)
            ==> crate::hash::hex_text(block.hash@) == checkpoint.hash
    }

    /// Whether a live block may become the next one: it agrees with the
    /// checkpoints, follows the tip, meets the mining target, claims the canonical
    /// reward, and passed its checks.
    pub open spec fn admits(
        self,
        block: BlockModel,
        checks: BlockChecks,
        params: ParamsModel,
    ) -> bool {
        &&& Self::agrees_with_checkpoint(block, params)
        &&& checks.header_ok
        &&& crate::block::extends(block, self.tip())
        &&& crate::hash::leading_u64(block.hash) < self.difficulty
        &&& block.reward == params.testnet_reward
        &&& checks.txs_pass(block.transactions.len() as int)
    }

    /// Whether a historical block may become the next one: it agrees with the
    /// checkpoints, follows the tip, claims at most twice the canonical reward, and
    /// records no target outside the allowed ones.
    pub open spec fn admits_ibd(self, block: BlockModel, params: ParamsModel) -> bool {
        &&& Self::agrees_with_checkpoint(block, params)
        &&& crate::block::extends(block, self.tip())
        &&& block.reward <= 2 * params.testnet_reward
        &&& Self::target_in_range(block)
    }

    /// Whether the difficulty after a historical block is defined: one that adjusts
    /// it does not lead to a division by zero.
    pub open spec fn can_follow(self, block: BlockModel, params: ParamsModel) -> bool {
        Self::adjusts(block, params) ==> self.with_block(block).ratio_defined()
    }

    /// Whether the difficulty after a historical block can be worked out from what
    /// is in memory: it is defined, and the record of the block that begins the
    /// window is in memory.
    pub open spec fn can_settle(self, block: BlockModel, params: ParamsModel) -> bool {
        &&& self.can_follow(block, params)
        &&& Self::adjusts(block, params) && block.index >= DAA_WINDOW ==> self.loaded.contains(
            (block.index - DAA_WINDOW) as u64,
        )
    }

    /// The ledger after the blocks above `target` have been taken back, newest
    /// first.
    pub open spec fn ledger_reverted_above<L: ChainLedger>(
        self,
        ledger: L::Model,
        target: u64,
        params: ParamsModel,
    ) -> L::Model
        decreases self.height,
    {
        if self.height <= target || self.height == 0 {
            ledger
        } else {
            self.reverted(params).ledger_reverted_above::<L>(
                block_undone::<L>(ledger, self.tip()),
                target,
                params,
            )
        }
    }
}

/// The ledger once a live block's reward is paid and its miner marked as active.
pub open spec fn miner_paid<L: ChainLedger>(ledger: L::Model, block: BlockModel) -> L::Model {
    L::touched(L::credited(ledger, block.miner, block.reward), block.miner, block.timestamp)
}

/// The ledger after a live block, and whether all its transactions were carried
/// out.
pub open spec fn block_paid<L: ChainLedger>(ledger: L::Model, block: BlockModel) -> (
    L::Model,
    bool,
) {
    crate::ledger::after_txs::<L>(
        miner_paid::<L>(ledger, block),
        block.transactions,
        block.transactions.len() as int,
        false,
    )
}

/// The ledger after a historical block, and whether all its transactions were
/// carried out.
pub open spec fn block_paid_ibd<L: ChainLedger>(ledger: L::Model, block: BlockModel) -> (
    L::Model,
    bool,
) {
    crate::ledger::after_txs::<L>(
        L::credited(ledger, block.miner, block.reward),
        block.transactions,
        block.transactions.len() as int,
        true,
    )
}

/// The chain and the ledger once a live block has been offered, and whether it
/// became the next block.
///
/// A block that is not admitted changes nothing, and neither does one of whose
/// transactions the ledger refuses any.
pub open spec fn live_effect<L: ChainLedger>(
    chain: ChainModel,
    ledger: L::Model,
    block: BlockModel,
    checks: BlockChecks,
    params: ParamsModel,
) -> (ChainModel, L::Model, bool) {
    let (paid, all_paid) = block_paid::<L>(ledger, block);
    if chain.admits(block, checks, params) && all_paid {
        (chain.applied(block, params), paid, true)
    } else {
        (chain, ledger, false)
    }
}

/// Whether a historical block is appended to the chain.
pub open spec fn ibd_appends<L: ChainLedger>(
    chain: ChainModel,
    ledger: L::Model,
    block: BlockModel,
    params: ParamsModel,
) -> bool {
    &&& chain.admits_ibd(block, params)
    &&& block_paid_ibd::<L>(ledger, block).1
}

/// The chain and the ledger once a historical block has been offered, and whether
/// it became the next block. One that did not changes nothing. A checkpoint at the
/// block's height restores the difficulty.
pub open spec fn ibd_effect<L: ChainLedger>(
    chain: ChainModel,
    ledger: L::Model,
    block: BlockModel,
    params: ParamsModel,
) -> (ChainModel, L::Model, bool) {
    if ibd_appends::<L>(chain, ledger, block, params) {
        (
            chain.restored(block, params).applied_ibd(block, params),
            block_paid_ibd::<L>(ledger, block).0,
            true,
        )
    } else {
        (chain, ledger, false)
    }
}

/// The ledger once a block's transactions, the last one first, and its reward
/// have been taken back.
pub open spec fn block_undone<L: ChainLedger>(ledger: L::Model, block: BlockModel) -> L::Model {
    L::uncredited(
        crate::ledger::without_txs::<L>(
            ledger,
            block.transactions,
            block.transactions.len() as int,
        ),
        block.miner,
        block.reward,
    )
}

fn pay_txs<L: ChainLedger>(block: &Block, ledger: &mut L, ibd: bool) -> (ok: bool)
    ensures
        (final(ledger).model(), ok) == crate::ledger::after_txs::<L>(
            old(ledger).model(),
            block@.transactions,
            block@.transactions.len() as int,
            ibd,
        ),
{
    let mut i: usize = 0;
    while i < block.transactions.len()
        invariant
            i <= block.transactions.len(),
            (ledger.model(), true) == crate::ledger::after_txs::<L>(
                old(ledger).model(),
                block@.transactions,
                i as int,
                ibd,
            ),
        decreases block.transactions.len() - i,
    {
        let tx = &block.transactions[i];
        assert(block@.transactions[i as int] == tx@);
        let outcome = if ibd {
            ledger.apply_tx_ibd(tx)
        } else {
            ledger.apply_tx(tx)
        };
        if outcome.is_err() {
            proof {
                crate::ledger::lemma_failed_tx_ends_list::<L>(
                    old(ledger).model(),
                    block@.transactions,
                    i + 1,
                    block@.transactions.len() as int,
                    ibd,
                );
            }
            return false;
        }
        i = i + 1;
    }
    true
}

fn undo_txs<L: ChainLedger>(block: &Block, ledger: &mut L)
    ensures
        final(ledger).model() == crate::ledger::without_txs::<L>(
            old(ledger).model(),
            block@.transactions,
            block@.transactions.len() as int,
        ),
{
    let mut i: usize = block.transactions.len();
    while i > 0
        invariant
            i <= block.transactions.len(),
            crate::ledger::without_txs::<L>(
                old(ledger).model(),
                block@.transactions,
                block@.transactions.len() as int,
            ) == crate::ledger::without_txs::<L>(ledger.model(), block@.transactions, i as int),
        decreases i,
    {
        let tx = &block.transactions[i - 1];
        assert(block@.transactions[i - 1] == tx@);
        ledger.revert_tx(tx);
        i = i - 1;
    }
}

impl Blockchain {
    fn agrees_with_checkpoint(&self, block: &Block) -> (agrees: bool)
        ensures
            agrees == ChainModel::agrees_with_checkpoint(block@, self.params@),
    {
        match self.params.checkpoint_at(block.index) {
            Some(i) => hex_encode(&block.hash) == self.params.checkpoints[i].hash,
            None => true,
        }
    }

    pub(crate) fn add_work(&mut self, block: &Block)
        requires
            old(self).wf(),
        ensures
            final(self).follows(old(self)),
            final(self)@ == old(self)@.with_work(block@),
            final(self).records().blocks == old(self).records().blocks,
    {
        let work: u128 = block_work(
            if block.difficulty_target != 0 {
                block.difficulty_target
            } else {
                self.difficulty
            },
        );
        self.set_chainwork(self.chainwork.saturating_add(work));
    }

    /// Validates and appends a live block, and lets the ledger follow. On an error
    /// the chain and the ledger are as before.
    pub fn apply_block<L: ChainLedger>(
        &mut self,
        block: &Block,
        checks: &BlockChecks,
        ledger: &mut L,
    ) -> (outcome: Result<(), TaronError>)
        requires
            old(self).wf(),
            old(self)@.has_tip(),
        ensures
            final(self).follows(old(self)),
            (final(self)@, final(ledger).model(), outcome is Ok) == live_effect::<L>(
                old(self)@,
                old(ledger).model(),
                block@,
                *checks,
                old(self).params@,
            ),
            outcome is Err ==> {
                &&& outcome == Err::<(), _>(TaronError::InvalidBlock)
                &&& *final(self) == *old(self)
                &&& final(ledger).model() == old(ledger).model()
            },
            outcome is Ok ==> final(self).records().blocks == old(self).records().blocks.insert(
                block.index,
                crate::codec::encoded_block(block@),
            ),
    {
        if !self.agrees_with_checkpoint(block) {
            return Err(TaronError::InvalidBlock);
        }
        let prev = self.tip();
        if !block.is_valid(&prev, self.difficulty, checks.header_ok) {
            return Err(TaronError::InvalidBlock);
        }
        if block.reward != self.params.testnet_reward {
            return Err(TaronError::InvalidBlock);
        }
        if !checks.all_txs_pass(block.transactions.len()) {
            return Err(TaronError::InvalidBlock);
        }
        let mut paid = ledger.duplicate();
        paid.apply_coinbase(&block.miner, block.reward);
        paid.touch_account(&block.miner, block.timestamp);
        if !pay_txs(block, &mut paid, false) {
            return Err(TaronError::InvalidBlock);
        }
        *ledger = paid;
        self.store_block(block);
        if self.height >= LWMA_WINDOW {
            let target: u64 = self.compute_lwma();
            self.set_difficulty(target);
        }
        self.add_work(block);
        if self.height > 0 && self.height % ABC_WINDOW == 0 {
            let target_ms: u64 = self.compute_adaptive_cadence();
            self.set_target_time(target_ms);
        }
        Ok(())
    }

    /// Appends a historical block during the initial download. The peer is
    /// trusted for difficulty and timestamps: only checkpoints, the link to the
    /// tip, the reward cap and the range of the recorded target are checked, and
    /// sequence numbers not at all. On an error the chain and the ledger are as
    /// before.
    pub fn apply_block_ibd<L: ChainLedger>(&mut self, block: &Block, ledger: &mut L) -> (outcome:
        Result<(), TaronError>)
        requires
            old(self).wf(),
            old(self)@.has_tip(),
            ibd_appends::<L>(old(self)@, old(ledger).model(), block@, old(self).params@) ==> old(
                self,
            )@.can_follow(block@, old(self).params@),
        ensures
            final(self).follows(old(self)),
            (final(self)@, final(ledger).model(), outcome is Ok) == ibd_effect::<L>(
                old(self)@,
                old(ledger).model(),
                block@,
                old(self).params@,
            ),
            outcome is Err ==> {
                &&& outcome == Err::<(), _>(TaronError::InvalidBlock)
                &&& *final(self) == *old(self)
                &&& final(ledger).model() == old(ledger).model()
            },
            outcome is Ok ==> final(self).records().blocks == old(self).records().blocks.insert(
                block.index,
                crate::codec::encoded_block(block@),
            ),
    {
        match self.pay_ibd(block, ledger) {
            Some(paid) => {
                *ledger = paid;
                self.append_ibd(block);
                Ok(())
            },
            None => Err(TaronError::InvalidBlock),
        }
    }

    /// Whether a historical block may be appended, and the ledger after it.
    pub(crate) fn pay_ibd<L: ChainLedger>(&self, block: &Block, ledger: &L) -> (paid: Option<L>)
        requires
            self@.has_tip(),
        ensures
            match paid {
                Some(after) => ibd_appends::<L>(self@, ledger.model(), block@, self.params@)
                    && after.model() == block_paid_ibd::<L>(ledger.model(), block@).0,
                None => !ibd_appends::<L>(self@, ledger.model(), block@, self.params@),
            },
    {
        if !self.agrees_with_checkpoint(block) {
            return None;
        }
        let prev = self.tip();
        if !block.extends(&prev) {
            return None;
        }
        if (block.reward as u128) > (self.params.testnet_reward as u128) * 2 {
            return None;
        }
        if block.difficulty_target != 0 && (block.difficulty_target < MIN_TARGET
            || block.difficulty_target > MAX_TARGET) {
            return None;
        }
        let mut paid = ledger.duplicate();
        paid.apply_coinbase(&block.miner, block.reward);
        if pay_txs(block, &mut paid, true) {
            Some(paid)
        } else {
            None
        }
    }

    pub(crate) fn append_ibd(&mut self, block: &Block)
        requires
            old(self).wf(),
            old(self)@.can_follow(block@, old(self).params@),
        ensures
            final(self).follows(old(self)),
            final(self)@ == old(self)@.restored(block@, old(self).params@).applied_ibd(
                block@,
                old(self).params@,
            ),
            final(self).records().blocks == old(self).records().blocks.insert(
                block.index,
                crate::codec::encoded_block(block@),
            ),
    {
        if let Some(i) = self.params.checkpoint_at(block.index) {
            let target: u64 = self.params.checkpoints[i].target;
            self.set_difficulty(target);
        }
        self.store_block(block);
        self.add_work(block);
        if block.difficulty_target != 0 {
            self.set_difficulty(block.difficulty_target);
        } else if self.adjusts(block) {
            let target: u64 = self.compute_next_difficulty();
            self.set_difficulty(target);
        }
    }

    fn adjusts(&self, block: &Block) -> (yes: bool)
        ensures
            yes == ChainModel::adjusts(block@, self.params@),
    {
        block.difficulty_target == 0 && block.index > self.params.last_checkpoint() && block.index
            > 0 && block.index % DAA_WINDOW == 0
    }

    /// Whether the difficulty after a historical block can be worked out from what
    /// is in memory.
    pub(crate) fn can_settle(&self, block: &Block) -> (yes: bool)
        requires
            self@.has_tip(),
        ensures
            yes == self@.can_settle(block@, self.params@),
    {
        if !self.adjusts(block) || block.index < DAA_WINDOW {
            return true;
        }
        let start: u64 = block.index - DAA_WINDOW;
        if !self.has_block(start) {
            return false;
        }
        if self.target_block_ms > 0 {
            return true;
        }
        match self.read_block(start) {
            Some(first) => block.timestamp <= first.timestamp,
            None => true,
        }
    }

    /// Takes the last block back, with its effects on the ledger. Genesis is never
    /// taken back.
    pub fn revert_tip<L: ChainLedger>(&mut self, ledger: &mut L) -> (outcome: Result<
        Block,
        TaronError,
    >)
        requires
            old(self).wf(),
            old(self).height > 0 ==> old(self)@.has_tip(),
        ensures
            final(self).follows(old(self)),
            match outcome {
                Ok(tip) => {
                    &&& old(self)@.height > 0
                    &&& tip@ == old(self)@.tip()
                    &&& final(self)@ == old(self)@.reverted(old(self).params@)
                    &&& final(ledger).model() == block_undone::<L>(old(ledger).model(), tip@)
                },
                Err(error) => {
                    &&& old(self)@.height == 0
                    &&& error == TaronError::InvalidBlock
                    &&& *final(self) == *old(self)
                    &&& final(ledger).model() == old(ledger).model()
                },
            },
    {
        if self.height == 0 {
            return Err(TaronError::InvalidBlock);
        }
        let tip = self.tip();
        undo_txs(&tip, ledger);
        ledger.revert_coinbase(&tip.miner, tip.reward);
        self.drop_tip();
        let work: u128 = block_work(
            if tip.difficulty_target != 0 {
                tip.difficulty_target
            } else {
                self.difficulty
            },
        );
        self.set_chainwork(self.chainwork.saturating_sub(work));
        let target: u64 = if self.height >= LWMA_WINDOW {
            self.compute_lwma()
        } else {
            self.params.testnet_target
        };
        self.set_difficulty(target);
        Ok(tip)
    }

    /// Whether going back to a height is refused.
    pub(crate) fn refuses_revert(&self, target_height: u64) -> (refused: bool)
        ensures
            refused == self@.refuses_revert(target_height, self.params@),
    {
        target_height < self.params.reached(self.height) || self.height.saturating_sub(
            target_height,
        ) > FINALITY_DEPTH
    }

    /// Takes blocks back until the chain is at `target_height`. Refused where that
    /// would go below a checkpoint that was reached, or undo a block that is
    /// final. Returns the blocks that were taken back, newest first.
    pub fn revert_to_height<L: ChainLedger>(&mut self, target_height: u64, ledger: &mut L) -> (
    outcome: Result<Vec<Block>, TaronError>)
        requires
            old(self).wf(),
            old(self)@.refuses_revert(target_height, old(self).params@) || crate::model::present(
                old(self)@.stored,
                target_height + 1,
                old(self)@.height as int,
            ),
        ensures
            final(self).follows(old(self)),
            match outcome {
                Ok(blocks) => {
                    &&& !old(self)@.refuses_revert(target_height, old(self).params@)
                    &&& final(self)@ == old(self)@.reverted_to(target_height, old(self).params@)
                    &&& blocks.len() == crate::model::monus(
                        old(self)@.height as int,
                        target_height as int,
                    )
                    &&& forall|k: int|
                        0 <= k < blocks.len() ==> (#[trigger] blocks[k])@ == old(
                            self,
                        )@.stored[(old(self)@.height - k) as u64]
                    &&& final(ledger).model() == old(self)@.ledger_reverted_above::<L>(
                        old(ledger).model(),
                        target_height,
                        old(self).params@,
                    )
                },
                Err(error) => {
                    &&& old(self)@.refuses_revert(target_height, old(self).params@)
                    &&& error == TaronError::InvalidBlock
                    &&& *final(self) == *old(self)
                    &&& final(ledger).model() == old(ledger).model()
                },
            },
    {
        if self.refuses_revert(target_height) {
            return Err(TaronError::InvalidBlock);
        }
        let ghost params = self.params@;
        let ghost before = *self;
        let mut reverted: Vec<Block> = Vec::new();
        while self.height > target_height
            invariant
                params == before.params@,
                self.height <= before.height,
                self.follows(&before),
                reverted.len() == before.height - self.height,
                self.height < before.height ==> self.height >= target_height,
                forall|k: int|
                    0 <= k < reverted.len() ==> (#[trigger] reverted[k])@
                        == before@.stored[(before.height - k) as u64],
                crate::model::present(self@.stored, target_height + 1, self.height as int),
                forall|i: u64|
                    #[trigger] self@.stored.dom().contains(i) ==> self@.stored[i]
                        == before@.stored[i],
                before@.reverted_above(target_height, params) == self@.reverted_above(
                    target_height,
                    params,
                ),
                before@.ledger_reverted_above::<L>(old(ledger).model(), target_height, params)
                    == self@.ledger_reverted_above::<L>(ledger.model(), target_height, params),
            decreases self.height,
        {
            let ghost was = *self;
            assert(self@.stored.dom().contains(self.height));
            match self.revert_tip(ledger) {
                Ok(block) => {
                    assert(block@ == was@.stored[was.height]);
                    reverted.push(block);
                },
                Err(error) => {
                    assert(false);
                    return Err(error);
                },
            }
        }
        if self.height == 0 {
            self.set_difficulty(self.params.testnet_target);
        }
        Ok(reverted)
    }
}

} // verus!
