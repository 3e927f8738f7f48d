//! A batch of downloaded blocks: applying it in order, and changing over to it
//! where it belongs to a longer branch.

use vstd::prelude::*;

use crate::block::{Block, BlockModel};
use crate::ledger::ChainLedger;
use crate::model::ChainModel;
use crate::node::{NodeModel, TaronNode};
use crate::params::{ParamsModel, FINALITY_DEPTH};
use crate::sync::SYNCED_MAX_REORG;

verus! {

/// A fork within the download is settled by starting over from genesis only
/// while the chain is shorter than this.
pub const RESYNC_HEIGHT: u64 = 200;

/// What a batch of blocks did to a chain and its ledger.
#[verifier::reject_recursive_types(L)]
pub struct BatchModel<L: ChainLedger> {
    pub chain: ChainModel,
    pub ledger: L::Model,
    /// How many blocks were accepted.
    pub applied: int,
    /// Whether none was refused.
    pub ok: bool,
    /// Whether one came after which the difficulty cannot be worked out from what is
    /// in memory.
    pub stuck: bool,
}

/// Whether a block is left out because it lies at or below `low`.
pub open spec fn skipped(index: u64, low: Option<u64>) -> bool {
    low matches Some(l) && index <= l
}

/// The first `n` blocks of a batch, each in turn, up to the first one that is
/// refused or cannot be settled. Those at or below `low` are left out.
pub open spec fn batch<L: ChainLedger>(
    chain: ChainModel,
    ledger: L::Model,
    blocks: Seq<BlockModel>,
    low: Option<u64>,
    params: ParamsModel,
    n: int,
) -> BatchModel<L>
    decreases n,
{
    if n <= 0 {
        BatchModel { chain, ledger, applied: 0, ok: true, stuck: false }
    } else {
        let before = batch::<L>(chain, ledger, blocks, low, params, n - 1);
        if before.stuck || !before.ok || skipped(blocks[n - 1].index, low) {
            before
        } else if crate::apply::ibd_appends::<L>(
            before.chain,
            before.ledger,
            blocks[n - 1],
            params,
        ) && !before.chain.can_settle(blocks[n - 1], params) {
            BatchModel { stuck: true, ..before }
        } else {
            let (after, paid, ok) = crate::apply::ibd_effect::<L>(
                before.chain,
                before.ledger,
                blocks[n - 1],
                params,
            );
            BatchModel {
                chain: after,
                ledger: paid,
                applied: before.applied + if ok {
                    1int
                } else {
                    0int
                },
                ok,
                stuck: false,
            }
        }
    }
}

/// The highest index in a batch; zero for an empty one.
pub open spec fn top_index(blocks: Seq<BlockModel>, n: int) -> u64
    decreases n,
{
    if n <= 0 {
        0
    } else if blocks[n - 1].index > top_index(blocks, n - 1) {
        blocks[n - 1].index
    } else {
        top_index(blocks, n - 1)
    }
}

impl<L: ChainLedger> NodeModel<L> {
    /// The node once its chain has gone back to a height.
    pub open spec fn gone_back(self, height: u64) -> Self {
        NodeModel {
            chain: self.chain.reverted_to(height, self.params),
            ledger: self.chain.ledger_reverted_above::<L>(self.ledger, height, self.params),
            ..self
        }
    }

    /// Whether the blocks from a height to the tip can be read.
    pub open spec fn can_read_from(self, height: u64) -> bool {
        crate::model::present(self.chain.stored, height as int, self.chain.height as int)
    }

    /// Whether the node gives up its blocks above a fork point: there are not too
    /// many, and none of them is final or lies below a checkpoint.
    pub open spec fn gives_up_above(self, fork: u64) -> bool {
        &&& self.chain.height - fork <= crate::sync::max_reorg(self.chain.height)
        &&& !self.chain.refuses_revert(fork, self.params)
    }

    /// Whether the node starts over from genesis for a batch that shares no block
    /// with it: the batch is well ahead, and the chain is young.
    pub open spec fn starts_over(self, top: u64) -> bool {
        &&& top > self.chain.height + 10
        &&& self.chain.height < RESYNC_HEIGHT
        &&& !self.chain.refuses_revert(0, self.params)
    }

    /// The node after it has dealt with a batch of which a block was refused, and
    /// whether that brought it forward. A branch that is no longer than the chain
    /// changes nothing. The answer is `None` where it hangs on records that are not
    /// in memory or on blocks that cannot be read.
    pub open spec fn reorganised(self, blocks: Seq<BlockModel>) -> (Self, Option<bool>) {
        let top = top_index(blocks, blocks.len() as int);
        if top <= self.chain.height {
            (self, Some(false))
        } else if !self.chain.holds_recent() {
            (self, None)
        } else {
            match self.chain.fork_point(blocks) {
                Some(fork) => if !self.gives_up_above(fork) {
                    (self, Some(false))
                } else if !self.can_read_from(fork) {
                    (self, None)
                } else {
                    let back = self.gone_back(fork);
                    let b = batch::<L>(
                        back.chain,
                        back.ledger,
                        blocks,
                        Some(fork),
                        self.params,
                        blocks.len() as int,
                    );
                    (
                        NodeModel { chain: b.chain, ledger: b.ledger, ..self },
                        if b.stuck {
                            None
                        } else {
                            Some(b.applied > 0)
                        },
                    )
                },
                None => if !self.starts_over(top) {
                    (self, Some(false))
                } else if !self.can_read_from(0) {
                    (self, None)
                } else {
                    (self.gone_back(0), Some(true))
                },
            }
        }
    }

    /// The node after a batch of blocks, and whether that brought it forward. The
    /// answer is `None` where it hangs on what is not in memory or cannot be read; the
    /// node has then come as far as it could.
    pub open spec fn batched(self, blocks: Seq<BlockModel>) -> (Self, Option<bool>) {
        let b = batch::<L>(
            self.chain,
            self.ledger,
            blocks,
            None,
            self.params,
            blocks.len() as int,
        );
        let after = NodeModel { chain: b.chain, ledger: b.ledger, ..self };
        if b.stuck {
            (after, None)
        } else if b.ok {
            (after, Some(b.applied > 0))
        } else {
            match after.reorganised(blocks) {
                (end, Some(forward)) => (end, Some(b.applied > 0 || forward)),
                (end, None) => (end, None),
            }
        }
    }
}

pub(crate) proof fn lemma_ended_batch_stays<L: ChainLedger>(
    chain: ChainModel,
    ledger: L::Model,
    blocks: Seq<BlockModel>,
    low: Option<u64>,
    params: ParamsModel,
    k: int,
    n: int,
)
    requires
        0 <= k <= n,
        !batch::<L>(chain, ledger, blocks, low, params, k).ok || batch::<L>(
            chain,
            ledger,
            blocks,
            low,
            params,
            k,
        ).stuck,
    ensures
        batch::<L>(chain, ledger, blocks, low, params, n) == batch::<L>(
            chain,
            ledger,
            blocks,
            low,
            params,
            k,
        ),
    decreases n - k,
{
    if k < n {
        lemma_ended_batch_stays::<L>(chain, ledger, blocks, low, params, k, n - 1);
    }
}

/// A batch keeps all blocks in their places.
pub(crate) proof fn lemma_batch_sound<L: ChainLedger>(
    chain: ChainModel,
    ledger: L::Model,
    blocks: Seq<BlockModel>,
    low: Option<u64>,
    params: ParamsModel,
    n: int,
)
    requires
        chain.sound(),
    ensures
        batch::<L>(chain, ledger, blocks, low, params, n).chain.sound(),
        batch::<L>(chain, ledger, blocks, low, params, n).chain.height >= chain.height,
    decreases n,
{
    if n > 0 {
        lemma_batch_sound::<L>(chain, ledger, blocks, low, params, n - 1);
        let before = batch::<L>(chain, ledger, blocks, low, params, n - 1);
        if !before.stuck && before.ok && !skipped(blocks[n - 1].index, low) {
            crate::node::lemma_ibd_effect_sound::<L>(
                before.chain,
                before.ledger,
                blocks[n - 1],
                params,
            );
            let after = crate::apply::ibd_effect::<L>(
                before.chain,
                before.ledger,
                blocks[n - 1],
                params,
            ).0;
            if crate::apply::ibd_appends::<L>(
                before.chain,
                before.ledger,
                blocks[n - 1],
                params,
            ) {
                assert(after.stored == before.chain.stored.insert(
                    blocks[n - 1].index,
                    blocks[n - 1],
                ));
                assert(after.height == before.chain.height + 1);
            }
        }
    }
}

/// A chain without its last block has its blocks in their places if the block before
/// can be read.
pub(crate) proof fn lemma_reverted_sound(chain: ChainModel, params: ParamsModel)
    requires
        chain.sound(),
        chain.height > 0,
        chain.stored.dom().contains((chain.height - 1) as u64),
    ensures
        chain.reverted(params).sound(),
        chain.reverted(params).height == chain.height - 1,
        chain.reverted(params).stored == chain.stored.remove(chain.height),
{
}

/// A chain that has gone back to a height has that height, a tip that can be read,
/// and its blocks in their places.
pub(crate) proof fn lemma_reverted_above_sound(
    chain: ChainModel,
    target: u64,
    params: ParamsModel,
)
    requires
        target <= chain.height,
        crate::model::present(chain.stored, target as int, chain.height as int),
    ensures
        chain.reverted_above(target, params).has_tip(),
        chain.sound() ==> chain.reverted_above(target, params).sound(),
        chain.reverted_above(target, params).height == target,
    decreases chain.height,
{
    assert(chain.stored.dom().contains(chain.height));
    if chain.height > target {
        assert(chain.stored.dom().contains((chain.height - 1) as u64));
        if chain.sound() {
            lemma_reverted_sound(chain, params);
        }
        let next = chain.reverted(params);
        assert(next.stored == chain.stored.remove(chain.height));
        assert forall|i: u64| target <= i <= next.height implies #[trigger]
            next.stored.dom().contains(i) by {
            assert(chain.stored.dom().contains(i));
        }
        lemma_reverted_above_sound(next, target, params);
    }
}

/// The fork point is the height of a block that can be read.
pub(crate) proof fn lemma_fork_point_stored(chain: ChainModel, blocks: Seq<BlockModel>, n: int)
    ensures
        chain.fork_point_among(blocks, n) matches Some(fork) ==> chain.stored.dom().contains(fork)
            && fork <= chain.height,
    decreases n,
{
    if n > 0 {
        lemma_fork_point_stored(chain, blocks, n - 1);
    }
}

fn highest_index(blocks: &[Block]) -> (top: u64)
    ensures
        top == top_index(crate::block::block_models(blocks@), blocks@.len() as int),
{
    let mut top: u64 = 0;
    let mut i: usize = 0;
    while i < blocks.len()
        invariant
            i <= blocks.len(),
            top == top_index(crate::block::block_models(blocks@), i as int),
        decreases blocks.len() - i,
    {
        if blocks[i].index > top {
            top = blocks[i].index;
        }
        i = i + 1;
    }
    top
}

impl<L: ChainLedger> TaronNode<L> {
    /// Applies a batch in order. Returns whether a block was accepted and whether none
    /// was refused; `None` if one cannot be settled.
    fn apply_batch(&mut self, blocks: &[Block], low: Option<u64>) -> (done: Option<(bool, bool)>)
        requires
            old(self).blockchain.wf(),
            old(self)@.chain.has_tip(),
        ensures
            final(self).blockchain.follows(&old(self).blockchain),
            final(self).config == old(self).config,
            final(self)@.chain.has_tip(),
            ({
                let b = batch::<L>(
                    old(self)@.chain,
                    old(self)@.ledger,
                    crate::block::block_models(blocks@),
                    low,
                    old(self)@.params,
                    blocks@.len() as int,
                );
                &&& final(self)@ == NodeModel { chain: b.chain, ledger: b.ledger, ..old(self)@ }
                &&& done == if b.stuck {
                    None
                } else {
                    Some((b.applied > 0, b.ok))
                }
            }),
    {
        let ghost all = crate::block::block_models(blocks@);
        let ghost start = self@;
        let mut progress = false;
        let mut i: usize = 0;
        while i < blocks.len()
            invariant
                i <= blocks.len(),
                all == crate::block::block_models(blocks@),
                start == old(self)@,
                self.blockchain.follows(&old(self).blockchain),
                self.config == old(self).config,
                self@.chain.has_tip(),
                ({
                    let b = batch::<L>(
                        start.chain,
                        start.ledger,
                        all,
                        low,
                        start.params,
                        i as int,
                    );
                    &&& b.ok
                    &&& !b.stuck
                    &&& b.applied >= 0
                    &&& progress == (b.applied > 0)
                    &&& self@ == NodeModel { chain: b.chain, ledger: b.ledger, ..start }
                }),
            decreases blocks.len() - i,
        {
            let block = &blocks[i];
            assert(all[i as int] == block@);
            let skip = match low {
                Some(l) => block.index <= l,
                None => false,
            };
            if !skip {
                proof {
                    crate::node::lemma_ibd_effect_sound::<L>(
                        self@.chain,
                        self@.ledger,
                        block@,
                        start.params,
                    );
                }
                let paid = self.blockchain.pay_ibd(block, &self.ledger);
                let refused = paid.is_none();
                let stuck = !refused && !self.blockchain.can_settle(block);
                proof {
                    if refused || stuck {
                        lemma_ended_batch_stays::<L>(
                            start.chain,
                            start.ledger,
                            all,
                            low,
                            start.params,
                            i + 1,
                            all.len() as int,
                        );
                    }
                }
                if stuck {
                    return None;
                }
                match paid {
                    Some(ledger) => {
                        self.ledger = ledger;
                        self.blockchain.append_ibd(block);
                        progress = true;
                    },
                    None => {
                        return Some((progress, false));
                    },
                }
            }
            i = i + 1;
        }
        Some((progress, true))
    }

    fn go_back(&mut self, height: u64)
        requires
            old(self).blockchain.wf(),
            height <= old(self)@.chain.height,
            old(self)@.can_read_from(height),
            !old(self)@.chain.refuses_revert(height, old(self)@.params),
        ensures
            final(self).blockchain.follows(&old(self).blockchain),
            final(self).config == old(self).config,
            final(self)@.chain.has_tip(),
            final(self)@ == old(self)@.gone_back(height),
    {
        proof {
            lemma_reverted_above_sound(self@.chain, height, self@.params);
        }
        let outcome = self.blockchain.revert_to_height(height, &mut self.ledger);
        assert(outcome is Ok);
    }

    fn reorganise(&mut self, blocks: &[Block]) -> (forward: Option<bool>)
        requires
            old(self).blockchain.wf(),
            old(self)@.chain.has_tip(),
        ensures
            final(self).blockchain.follows(&old(self).blockchain),
            final(self).config == old(self).config,
            final(self)@.chain.has_tip(),
            (final(self)@, forward) == old(self)@.reorganised(
                crate::block::block_models(blocks@),
            ),
    {
        let height: u64 = self.blockchain.height();
        let top: u64 = highest_index(blocks);
        if top <= height {
            return Some(false);
        }
        if !self.blockchain.holds_recent() {
            return None;
        }
        proof {
            lemma_fork_point_stored(
                self@.chain,
                crate::block::block_models(blocks@),
                blocks@.len() as int,
            );
        }
        match self.blockchain.find_fork_point(blocks) {
            Some(fork) => {
                let limit: u64 = if height < FINALITY_DEPTH {
                    height
                } else {
                    SYNCED_MAX_REORG
                };
                if height - fork > limit || self.blockchain.refuses_revert(fork) {
                    return Some(false);
                }
                if !self.blockchain.can_read_from(fork) {
                    return None;
                }
                self.go_back(fork);
                match self.apply_batch(blocks, Some(fork)) {
                    Some((progress, _)) => Some(progress),
                    None => None,
                }
            },
            None => {
                if (top as u128) <= (height as u128) + 10 || height >= RESYNC_HEIGHT
                    || self.blockchain.refuses_revert(0) {
                    return Some(false);
                }
                if !self.blockchain.can_read_from(0) {
                    return None;
                }
                self.go_back(0);
                Some(true)
            },
        }
    }

    /// Applies a batch of downloaded blocks in order. At the first block that is
    /// refused, the node changes over to the batch's branch if that is longer and
    /// leaves the chain at a block that is not too deep. Returns whether the node
    /// came forward; `None` if that hangs on what is not in memory or cannot be read.
    pub(crate) fn take_batch(&mut self, blocks: &[Block]) -> (forward: Option<bool>)
        requires
            old(self).blockchain.wf(),
            old(self)@.chain.has_tip(),
        ensures
            final(self).blockchain.follows(&old(self).blockchain),
            final(self).config == old(self).config,
            final(self)@.chain.has_tip(),
            (final(self)@, forward) == old(self)@.batched(crate::block::block_models(blocks@)),
    {
        match self.apply_batch(blocks, None) {
            None => None,
            Some((progress, true)) => Some(progress),
            Some((progress, false)) => {
                match self.reorganise(blocks) {
                    Some(forward) => Some(progress || forward),
                    None => None,
                }
            },
        }
    }
}

} // verus!
