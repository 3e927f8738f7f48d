//! What holds of a node, whatever its peers send.

use vstd::prelude::*;

use crate::apply::BlockChecks;
use crate::block::BlockModel;
use crate::ledger::ChainLedger;
use crate::model::ChainModel;
use crate::node::NodeModel;
use crate::params::{ParamsModel, FINALITY_DEPTH};
use crate::peers::PeerAddr;
use crate::session::{LocatorStep, PeerSession, StepModel, SyncStep};
use crate::sync::{RelayLock, Slot, MAX_GETBLOCKS_RANGE, RELAY_LOCK_DURATION, SYNCED_MAX_REORG};

verus! {

// ── The download slot ────────────────────────────────────────────────────────

/// Only the peer that holds the download slot is listened to: a batch of blocks
/// or a locator from another peer changes nothing.
pub proof fn law_only_the_holder_syncs<L: ChainLedger>(
    node: NodeModel<L>,
    session: PeerSession,
    blocks: Seq<BlockModel>,
    locator: Seq<crate::queries::LocatorEntry>,
    now: u64,
)
    requires
        node.slot is Some,
        !crate::sync::holds(node.slot, session.addr),
    ensures
        node.delivered(session, blocks, now) == (node, Some(SyncStep::Ignore)),
        node.located(session, locator) == (node, LocatorStep::Ignore),
{
}

/// Only the peer that holds the download slot can bring about a reorganisation:
/// a block that another peer announces leaves every block of the chain in place.
pub proof fn law_only_the_holder_reorganises<L: ChainLedger>(
    node: NodeModel<L>,
    session: PeerSession,
    block: BlockModel,
    checks: BlockChecks,
    tip_checks: BlockChecks,
    now: u64,
    index: u64,
)
    requires
        node.chain.sound(),
        node.slot is Some,
        !crate::sync::holds(node.slot, session.addr),
        index <= node.chain.height,
    ensures
        node.processed(session, block, checks, tip_checks, now).0.chain.block(index)
            == node.chain.block(index),
{
    lemma_offered_keeps(node, block, checks, index);
}

/// A peer that is connected and active keeps the slot: nothing that another peer
/// sends takes it away.
pub proof fn law_an_active_holder_keeps_the_slot<L: ChainLedger>(
    node: NodeModel<L>,
    session: PeerSession,
    block: BlockModel,
    checks: BlockChecks,
    tip_checks: BlockChecks,
    blocks: Seq<BlockModel>,
    height: u64,
    now: u64,
)
    requires
        node.slot is Some,
        !crate::sync::holds(node.slot, session.addr),
        !crate::sync::timed_out(node.slot, now),
    ensures
        node.announced(session, block.index, now).0.slot == node.slot,
        node.processed(session, block, checks, tip_checks, now).0.slot == node.slot,
        node.told_height(session, height, true, now).0.slot == node.slot,
        node.delivered(session, blocks, now).0.slot == node.slot,
{
}

/// A peer that has delivered nothing for too long loses the slot to the next peer
/// that is ahead of us and may claim it, and so does one that is disconnected.
pub proof fn law_an_idle_holder_loses_the_slot<L: ChainLedger>(
    node: NodeModel<L>,
    session: PeerSession,
    height: u64,
    connected: bool,
    now: u64,
)
    requires
        node.slot is Some,
        !crate::sync::holds(node.slot, session.addr),
        crate::sync::timed_out(node.slot, now) || !connected,
        node.may_claim(session, now),
        height > node.chain.height,
    ensures
        node.told_height(session, height, connected, now).0.slot == Some((session.addr, now)),
        node.told_height(session, height, connected, now).2,
{
}

/// A peer that is no seed does not get the free slot before a seed was seen or the
/// waiting time is over.
pub proof fn law_others_wait_for_a_seed<L: ChainLedger>(
    node: NodeModel<L>,
    session: PeerSession,
    block: BlockModel,
    checks: BlockChecks,
    tip_checks: BlockChecks,
    blocks: Seq<BlockModel>,
    height: u64,
    connected: bool,
    now: u64,
)
    requires
        node.slot is None,
        !session.is_seed,
        !node.seed_seen,
        now < crate::sync::SEED_WAIT,
    ensures
        node.announced(session, block.index, now).0.slot is None,
        node.processed(session, block, checks, tip_checks, now).0.slot is None,
        node.told_height(session, height, connected, now).0.slot is None,
        node.delivered(session, blocks, now).0.slot is None,
{
}

/// Claiming, taking over and releasing the slot: afterwards it is free, as it was,
/// or with the peer that asked.
pub proof fn law_the_slot_goes_to_who_asked(
    slot: Slot,
    addr: PeerAddr,
    may_claim: bool,
    connected: bool,
    now: u64,
)
    ensures
        ({
            let (after, held) = crate::sync::taken_over(slot, addr, may_claim, connected, now);
            &&& after is None || after == slot || after == Some((addr, now))
            &&& held <==> crate::sync::holds(after, addr)
        }),
        !crate::sync::holds(crate::sync::released(slot, addr), addr),
{
}

/// Once the node is synced, it stays so.
pub proof fn law_synced_stays_synced<L: ChainLedger>(
    node: NodeModel<L>,
    session: PeerSession,
    block: BlockModel,
    checks: BlockChecks,
    tip_checks: BlockChecks,
    blocks: Seq<BlockModel>,
    locator: Seq<crate::queries::LocatorEntry>,
    height: u64,
    connected: bool,
    now: u64,
)
    requires
        node.sync_ready,
    ensures
        node.submitted(block, checks, now).0.sync_ready,
        node.announced(session, block.index, now).0.sync_ready,
        node.processed(session, block, checks, tip_checks, now).0.sync_ready,
        node.told_height(session, height, connected, now).0.sync_ready,
        node.located(session, locator).0.sync_ready,
        node.delivered(session, blocks, now).0.sync_ready,
{
}

/// The download goes on where it stopped: after a batch that brought the node
/// forward but not up to the peer, it asks for the blocks right after its tip, and
/// for none that the peer does not have.
pub proof fn law_the_download_goes_on<L: ChainLedger>(
    node: NodeModel<L>,
    session: PeerSession,
    now: u64,
)
    requires
        node.chunk > 0,
        session.peer_height matches Some(last) && node.chain.height < last,
    ensures
        node.advanced(session, now).1 matches SyncStep::Request { from, to } && from
            == node.chain.height + 1 && from <= to <= session.peer_height->0 && to - from
            < node.chunk,
{
}

// ── Passing blocks on ────────────────────────────────────────────────────────

/// After a block has been passed on, a competing block of the same height is not
/// passed on for the duration of the lock unless its hash is strictly lower.
/// Blocks of other heights are passed on, and so is anything after that time.
pub proof fn law_relay_lock_holds(
    lock: RelayLock,
    height: u64,
    hash: [u8; 32],
    at: u64,
    other_height: u64,
    other_hash: [u8; 32],
    now: u64,
)
    requires
        lock.relayed(height, hash, at).1,
        at <= now,
    ensures
        ({
            let after = lock.relayed(height, hash, at).0;
            after.relayed(other_height, other_hash, now).1 <==> other_height != height
                || crate::hash::bytes_less(other_hash@, hash@) || now - at >= RELAY_LOCK_DURATION
        }),
{
}

/// A block that a node takes becomes its tip one above the old one, and the
/// figures it shows are those of that block.
pub proof fn law_a_taken_block_is_the_tip<L: ChainLedger>(
    node: NodeModel<L>,
    block: BlockModel,
    checks: BlockChecks,
    now: u64,
)
    requires
        node.ready(),
        node.chain.sound(),
        node.submitted(block, checks, now).1,
    ensures
        ({
            let after = node.submitted(block, checks, now).0;
            &&& after.chain.tip() == block
            &&& after.chain.height == node.chain.height + 1
            &&& after.cached.height == block.index
            &&& after.cached.best_hash == crate::hash::hex_text(block.hash@)
            &&& after.in_step()
            &&& after.relay == RelayLock { height: block.index, hash: block.hash, at: now }
        }),
{
    let after = node.submitted(block, checks, now).0;
    assert(after.chain.stored == node.chain.stored.insert(block.index, block));
}

/// A block that does not come right after the tip is turned down without a trace.
pub proof fn law_a_stale_submission_changes_nothing<L: ChainLedger>(
    node: NodeModel<L>,
    block: BlockModel,
    checks: BlockChecks,
    now: u64,
)
    requires
        node.ready(),
        block.index != node.chain.height + 1,
    ensures
        node.submitted(block, checks, now) == (node, false),
{
}

/// A block takes the tip's place only if it has the same height and parent and a
/// lower hash; it is the tip then. If it does not even qualify, nothing changes.
pub proof fn law_the_lower_hash_wins<L: ChainLedger>(
    node: NodeModel<L>,
    block: BlockModel,
    checks: BlockChecks,
    tip_checks: BlockChecks,
    now: u64,
)
    requires
        node.chain.sound(),
    ensures
        ({
            let (after, step) = node.competed(block, checks, tip_checks, now);
            &&& step is Replaced ==> {
                &&& step == StepModel::Replaced(node.chain.tip())
                &&& crate::hash::bytes_less(block.hash@, node.chain.tip().hash@)
                &&& after.chain.tip() == block
                &&& after.chain.height == node.chain.height
                &&& block.prev_hash == node.chain.stored[(node.chain.height - 1) as u64].hash
            }
            &&& !node.beats_tip(block, checks) ==> after == node
        }),
{
    let (after, step) = node.competed(block, checks, tip_checks, now);
    if step is Replaced {
        crate::batch::lemma_reverted_sound(node.chain, node.params);
        let back = node.chain.reverted(node.params);
        assert(after.chain.stored == back.stored.insert(block.index, block));
    }
}

// ── Batches ──────────────────────────────────────────────────────────────────

/// A branch that is not longer than the chain changes nothing once one of its
/// blocks is refused.
pub proof fn law_only_a_longer_branch_counts<L: ChainLedger>(
    node: NodeModel<L>,
    blocks: Seq<BlockModel>,
)
    requires
        forall|i: int| 0 <= i < blocks.len() ==> (#[trigger] blocks[i]).index <= node.chain.height,
    ensures
        node.reorganised(blocks) == (node, Some(false)),
{
    lemma_top_index(blocks, node.chain.height, blocks.len() as int);
}

pub(crate) proof fn lemma_top_index(blocks: Seq<BlockModel>, bound: u64, n: int)
    requires
        0 <= n <= blocks.len(),
        forall|i: int| 0 <= i < blocks.len() ==> (#[trigger] blocks[i]).index <= bound,
    ensures
        crate::batch::top_index(blocks, n) <= bound,
    decreases n,
{
    if n > 0 {
        lemma_top_index(blocks, bound, n - 1);
    }
}

proof fn lemma_batch_keeps<L: ChainLedger>(
    chain: ChainModel,
    ledger: L::Model,
    blocks: Seq<BlockModel>,
    low: Option<u64>,
    params: ParamsModel,
    n: int,
    index: u64,
)
    requires
        chain.sound(),
        index <= chain.height,
    ensures
        crate::batch::batch::<L>(chain, ledger, blocks, low, params, n).chain.block(index)
            == chain.block(index),
    decreases n,
{
    if n > 0 {
        lemma_batch_keeps::<L>(chain, ledger, blocks, low, params, n - 1, index);
        crate::batch::lemma_batch_sound::<L>(chain, ledger, blocks, low, params, n - 1);
        let before = crate::batch::batch::<L>(chain, ledger, blocks, low, params, n - 1);
        if !before.stuck && before.ok && !crate::batch::skipped(blocks[n - 1].index, low)
            && crate::apply::ibd_appends::<L>(
            before.chain,
            before.ledger,
            blocks[n - 1],
            params,
        ) {
            let after = crate::apply::ibd_effect::<L>(
                before.chain,
                before.ledger,
                blocks[n - 1],
                params,
            ).0;
            assert(after.stored == before.chain.stored.insert(
                blocks[n - 1].index,
                blocks[n - 1],
            ));
            assert(blocks[n - 1].index == before.chain.height + 1);
        }
    }
}

/// What a batch leaves in place: everything up to `index`, if the node neither
/// gives up blocks there nor starts over.
proof fn lemma_batched_keeps<L: ChainLedger>(
    node: NodeModel<L>,
    blocks: Seq<BlockModel>,
    index: u64,
)
    requires
        node.chain.sound(),
        index == 0 || index + FINALITY_DEPTH <= node.chain.height || (node.chain.height
            > FINALITY_DEPTH && index + SYNCED_MAX_REORG <= node.chain.height),
    ensures
        node.batched(blocks).0.chain.block(index) == node.chain.block(index),
        node.batched(blocks).0.chain.height >= index,
{
    let n = blocks.len() as int;
    lemma_batch_keeps::<L>(node.chain, node.ledger, blocks, None, node.params, n, index);
    crate::batch::lemma_batch_sound::<L>(node.chain, node.ledger, blocks, None, node.params, n);
    let b = crate::batch::batch::<L>(node.chain, node.ledger, blocks, None, node.params, n);
    let after = NodeModel { chain: b.chain, ledger: b.ledger, ..node };
    crate::batch::lemma_fork_point_stored(b.chain, blocks, n);
    match b.chain.fork_point(blocks) {
        Some(fork) => {
            if after.gives_up_above(fork) && after.can_read_from(fork) {
                crate::batch::lemma_reverted_above_sound(b.chain, fork, node.params);
                crate::laws::law_revert_to_height_cuts_there(b.chain, fork, node.params);
                let back = after.gone_back(fork);
                assert(index <= fork);
                assert(back.chain.block(index) == b.chain.block(index));
                lemma_batch_keeps::<L>(
                    back.chain,
                    back.ledger,
                    blocks,
                    Some(fork),
                    node.params,
                    n,
                    index,
                );
                crate::batch::lemma_batch_sound::<L>(
                    back.chain,
                    back.ledger,
                    blocks,
                    Some(fork),
                    node.params,
                    n,
                );
            }
        },
        None => {
            crate::laws::law_revert_to_height_cuts_there(b.chain, 0, node.params);
            if index == 0 {
                assert(after.gone_back(0).chain.block(0) == b.chain.block(0));
            }
        },
    }
}

/// A block with as many confirmations as the finality depth is final: whatever is
/// submitted, announced or delivered, it stays where it is.
pub proof fn law_final_blocks_stay<L: ChainLedger>(
    node: NodeModel<L>,
    session: PeerSession,
    block: BlockModel,
    checks: BlockChecks,
    tip_checks: BlockChecks,
    blocks: Seq<BlockModel>,
    now: u64,
    index: u64,
)
    requires
        node.chain.sound(),
        index + FINALITY_DEPTH <= node.chain.height,
    ensures
        node.submitted(block, checks, now).0.chain.block(index) == node.chain.block(index),
        node.processed(session, block, checks, tip_checks, now).0.chain.block(index)
            == node.chain.block(index),
        node.delivered(session, blocks, now).0.chain.block(index) == node.chain.block(index),
{
    lemma_batched_keeps(node, blocks, index);
    lemma_offered_keeps(node, block, checks, index);
    if node.beats_tip(block, checks) {
        crate::batch::lemma_reverted_sound(node.chain, node.params);
        let back = node.without_tip();
        assert(back.chain.block(index) == node.chain.block(index));
        lemma_offered_keeps(back, block, checks, index);
        crate::node::lemma_live_effect_sound::<L>(
            back.chain,
            back.ledger,
            block,
            checks,
            node.params,
        );
        let tried = back.offered(block, checks).0;
        lemma_offered_keeps(tried, node.chain.tip(), tip_checks, index);
    }
}

proof fn lemma_offered_keeps<L: ChainLedger>(
    node: NodeModel<L>,
    block: BlockModel,
    checks: BlockChecks,
    index: u64,
)
    requires
        node.chain.sound(),
        index <= node.chain.height,
    ensures
        node.offered(block, checks).0.chain.block(index) == node.chain.block(index),
{
    let after = node.offered(block, checks).0;
    if node.offered(block, checks).1 {
        assert(after.chain.stored == node.chain.stored.insert(block.index, block));
        assert(block.index == node.chain.height + 1);
    }
}

/// On a synced node, one with more blocks than the finality depth, no batch
/// replaces a block that lies deeper than a few blocks.
pub proof fn law_deep_blocks_survive_a_batch<L: ChainLedger>(
    node: NodeModel<L>,
    blocks: Seq<BlockModel>,
    index: u64,
)
    requires
        node.chain.sound(),
        node.chain.height > FINALITY_DEPTH,
        index + SYNCED_MAX_REORG <= node.chain.height,
    ensures
        node.batched(blocks).0.chain.block(index) == node.chain.block(index),
        node.batched(blocks).0.chain.height >= index,
{
    lemma_batched_keeps(node, blocks, index);
}

/// No batch replaces genesis.
pub proof fn law_genesis_survives_a_batch<L: ChainLedger>(
    node: NodeModel<L>,
    blocks: Seq<BlockModel>,
)
    requires
        node.chain.sound(),
    ensures
        node.batched(blocks).0.chain.block(0) == node.chain.block(0),
{
    lemma_batched_keeps(node, blocks, 0);
}

/// Whether each block of a batch may be appended in turn, and the difficulty after
/// it worked out.
pub open spec fn acceptable<L: ChainLedger>(
    chain: ChainModel,
    ledger: L::Model,
    blocks: Seq<BlockModel>,
    params: ParamsModel,
) -> bool {
    forall|i: int|
        0 <= i < blocks.len() ==> {
            let before = #[trigger] crate::batch::batch::<L>(
                chain,
                ledger,
                blocks,
                None,
                params,
                i,
            );
            &&& crate::apply::ibd_appends::<L>(before.chain, before.ledger, blocks[i], params)
            &&& before.chain.can_settle(blocks[i], params)
        }
}

/// A batch each block of which may be appended is applied whole: the chain grows
/// by its length, and its last block is the tip.
pub proof fn law_an_acceptable_batch_is_applied_whole<L: ChainLedger>(
    node: NodeModel<L>,
    blocks: Seq<BlockModel>,
)
    requires
        node.chain.sound(),
        blocks.len() > 0,
        acceptable::<L>(node.chain, node.ledger, blocks, node.params),
    ensures
        node.batched(blocks).1 == Some(true),
        node.batched(blocks).0.chain.height == node.chain.height + blocks.len(),
        node.batched(blocks).0.chain.tip() == blocks.last(),
{
    lemma_whole_batch::<L>(
        node.chain,
        node.ledger,
        blocks,
        node.params,
        blocks.len() as int,
    );
}

pub(crate) proof fn lemma_whole_batch<L: ChainLedger>(
    chain: ChainModel,
    ledger: L::Model,
    blocks: Seq<BlockModel>,
    params: ParamsModel,
    n: int,
)
    requires
        chain.sound(),
        0 <= n <= blocks.len(),
        acceptable::<L>(chain, ledger, blocks, params),
    ensures
        ({
            let b = crate::batch::batch::<L>(chain, ledger, blocks, None, params, n);
            &&& b.ok
            &&& !b.stuck
            &&& b.applied == n
            &&& b.chain.height == chain.height + n
            &&& n > 0 ==> b.chain.tip() == blocks[n - 1]
        }),
    decreases n,
{
    if n > 0 {
        lemma_whole_batch::<L>(chain, ledger, blocks, params, n - 1);
        crate::batch::lemma_batch_sound::<L>(chain, ledger, blocks, None, params, n - 1);
        let before = crate::batch::batch::<L>(chain, ledger, blocks, None, params, n - 1);
        let after = crate::batch::batch::<L>(chain, ledger, blocks, None, params, n);
        assert(after.chain.stored == before.chain.stored.insert(
            blocks[n - 1].index,
            blocks[n - 1],
        ));
        assert(after.chain.height == blocks[n - 1].index);
    }
}

/// Whatever is submitted, announced or delivered: the tip can be read, and every
/// block that can be read lies under its own index, none above the tip.
#[verifier::spinoff_prover]
#[verifier::rlimit(40)]
pub proof fn law_blocks_stay_in_place<L: ChainLedger>(
    node: NodeModel<L>,
    session: PeerSession,
    block: BlockModel,
    checks: BlockChecks,
    tip_checks: BlockChecks,
    blocks: Seq<BlockModel>,
    now: u64,
)
    requires
        node.chain.sound(),
    ensures
        node.submitted(block, checks, now).0.chain.sound(),
        node.processed(session, block, checks, tip_checks, now).0.chain.sound(),
        node.delivered(session, blocks, now).0.chain.sound(),
{
    crate::node::lemma_live_effect_sound::<L>(
        node.chain,
        node.ledger,
        block,
        checks,
        node.params,
    );
    let offered = if block.index <= node.chain.height {
        node
    } else {
        node.offered(block, checks).0
    };
    if offered.beats_tip(block, checks) {
        crate::batch::lemma_reverted_sound(offered.chain, node.params);
        let back = offered.without_tip();
        crate::node::lemma_live_effect_sound::<L>(
            back.chain,
            back.ledger,
            block,
            checks,
            node.params,
        );
        let tried = back.offered(block, checks).0;
        crate::node::lemma_live_effect_sound::<L>(
            tried.chain,
            tried.ledger,
            offered.chain.tip(),
            tip_checks,
            node.params,
        );
    }
    let n = blocks.len() as int;
    crate::batch::lemma_batch_sound::<L>(node.chain, node.ledger, blocks, None, node.params, n);
    let b = crate::batch::batch::<L>(node.chain, node.ledger, blocks, None, node.params, n);
    let after = NodeModel { chain: b.chain, ledger: b.ledger, ..node };
    crate::batch::lemma_fork_point_stored(b.chain, blocks, n);
    match b.chain.fork_point(blocks) {
        Some(fork) => {
            if after.can_read_from(fork) {
                lemma_gone_back_sound(after, fork);
                let back = after.gone_back(fork);
                crate::batch::lemma_batch_sound::<L>(
                    back.chain,
                    back.ledger,
                    blocks,
                    Some(fork),
                    node.params,
                    n,
                );
            }
        },
        None => {
            if after.can_read_from(0) {
                lemma_gone_back_sound(after, 0);
            }
        },
    }
    assert(node.batched(blocks).0.chain.sound());
}

pub(crate) proof fn lemma_gone_back_sound<L: ChainLedger>(node: NodeModel<L>, height: u64)
    requires
        node.chain.sound(),
        height <= node.chain.height,
        node.can_read_from(height),
    ensures
        node.gone_back(height).chain.sound(),
{
    crate::batch::lemma_reverted_above_sound(node.chain, height, node.params);
    let above = node.chain.reverted_above(height, node.params);
    let back = node.gone_back(height).chain;
    assert(back.stored == above.stored && back.height == above.height);
}

// ── What is in memory ────────────────────────────────────────────────────────

impl ChainModel {
    /// Every block from genesis to the tip is in memory and names the one before it,
    /// and blocks take time.
    pub open spec fn whole(self) -> bool {
        &&& self.linked()
        &&& self.holds(0, self.height as int)
        &&& self.target_block_ms > 0
    }
}

proof fn lemma_whole_settles(chain: ChainModel, block: BlockModel, params: ParamsModel)
    requires
        chain.holds(0, chain.height as int),
        chain.target_block_ms > 0,
        block.index == chain.height + 1,
    ensures
        chain.can_settle(block, params),
{
    if block.index >= crate::params::DAA_WINDOW {
        assert(chain.loaded.contains((block.index - crate::params::DAA_WINDOW) as u64));
    }
}

proof fn lemma_longer_whole(chain: ChainModel, after: ChainModel, block: BlockModel)
    requires
        chain.holds(0, chain.height as int),
        chain.target_block_ms > 0,
        block.index == chain.height + 1,
        after.linked(),
        after.height == block.index,
        after.loaded == chain.loaded.insert(block.index),
        after.target_block_ms == chain.target_block_ms,
    ensures
        after.whole(),
{
    assert forall|i: u64| 0 <= i <= after.height implies #[trigger] after.loaded.contains(i) by {
        if i <= chain.height {
            assert(chain.loaded.contains(i));
        }
    }
}

#[verifier::spinoff_prover]
proof fn lemma_ibd_whole<L: ChainLedger>(
    chain: ChainModel,
    ledger: L::Model,
    block: BlockModel,
    params: ParamsModel,
)
    requires
        chain.whole(),
    ensures
        crate::apply::ibd_effect::<L>(chain, ledger, block, params).0.whole(),
        crate::apply::ibd_appends::<L>(chain, ledger, block, params) ==> chain.can_settle(
            block,
            params,
        ),
{
    let after = crate::apply::ibd_effect::<L>(chain, ledger, block, params).0;
    if crate::apply::ibd_appends::<L>(chain, ledger, block, params) {
        crate::laws::law_append_keeps_links(chain, block, params);
        assert(chain.stored[chain.height].index == chain.height);
        lemma_whole_settles(chain, block, params);
        assert(after.loaded == chain.loaded.insert(block.index));
        assert(after.target_block_ms == chain.target_block_ms);
        lemma_longer_whole(chain, after, block);
    }
}

pub(crate) proof fn lemma_batch_whole<L: ChainLedger>(
    chain: ChainModel,
    ledger: L::Model,
    blocks: Seq<BlockModel>,
    low: Option<u64>,
    params: ParamsModel,
    n: int,
)
    requires
        chain.whole(),
    ensures
        crate::batch::batch::<L>(chain, ledger, blocks, low, params, n).chain.whole(),
        !crate::batch::batch::<L>(chain, ledger, blocks, low, params, n).stuck,
    decreases n,
{
    if n > 0 {
        lemma_batch_whole::<L>(chain, ledger, blocks, low, params, n - 1);
        let before = crate::batch::batch::<L>(chain, ledger, blocks, low, params, n - 1);
        lemma_ibd_whole::<L>(before.chain, before.ledger, blocks[n - 1], params);
    }
}

proof fn lemma_reverted_above_whole(chain: ChainModel, target: u64, params: ParamsModel)
    requires
        chain.whole(),
    ensures
        chain.reverted_above(target, params).whole(),
    decreases chain.height,
{
    if chain.height > target {
        let next = chain.reverted(params);
        crate::laws::law_revert_keeps_links(chain, params);
        assert(next.loaded == chain.loaded.remove(chain.height));
        assert(next.holds(0, next.height as int));
        lemma_reverted_above_whole(next, target, params);
    }
}

pub(crate) proof fn lemma_gone_back_whole<L: ChainLedger>(node: NodeModel<L>, height: u64)
    requires
        node.chain.whole(),
    ensures
        node.gone_back(height).chain.whole(),
{
    lemma_reverted_above_whole(node.chain, height, node.params);
    let above = node.chain.reverted_above(height, node.params);
    let back = node.gone_back(height).chain;
    assert(back.stored == above.stored && back.loaded == above.loaded);
}

proof fn lemma_whole_walk(chain: ChainModel, h: u64, step: u64, n: int)
    requires
        chain.holds(0, chain.height as int),
        h <= chain.height,
    ensures
        chain.walk_gap(h, step, n) is None,
    decreases h,
{
    assert(chain.loaded.contains(h));
    assert(chain.loaded.contains(0));
    let here = if chain.stored.dom().contains(h) {
        n + 1
    } else {
        n
    };
    if !(h == 0 || here >= 32 || step == 0) {
        lemma_whole_walk(
            chain,
            crate::model::monus(h as int, step as int) as u64,
            if here > 1 {
                crate::model::min_int(2 * step, u64::MAX as int) as u64
            } else {
                step
            },
            here,
        );
    }
}

/// A node that has its whole chain in memory can deal with whatever comes: with any
/// block, any batch, and any request for its locator.
pub proof fn law_a_whole_chain_is_never_held_up<L: ChainLedger>(
    node: NodeModel<L>,
    session: PeerSession,
    blocks: Seq<BlockModel>,
    now: u64,
)
    requires
        node.chain.whole(),
    ensures
        node.chain.holds_window(),
        node.delivered(session, blocks, now).1 is Some,
        node.chain.locator_gap() is None,
{
    lemma_whole_walk(node.chain, node.chain.height, 1, 0);
    let n = blocks.len() as int;
    lemma_batch_whole::<L>(node.chain, node.ledger, blocks, None, node.params, n);
    let b = crate::batch::batch::<L>(node.chain, node.ledger, blocks, None, node.params, n);
    let after = NodeModel { chain: b.chain, ledger: b.ledger, ..node };
    match b.chain.fork_point(blocks) {
        Some(fork) => {
            lemma_gone_back_whole(after, fork);
            let back = after.gone_back(fork);
            lemma_batch_whole::<L>(
                back.chain,
                back.ledger,
                blocks,
                Some(fork),
                node.params,
                n,
            );
        },
        None => {},
    }
    assert(node.batched(blocks).1 is Some);
}

/// A request for blocks is answered with a bounded number of them, whatever it
/// asks for.
pub proof fn law_an_answer_is_bounded(chain: ChainModel, from: u64, to: u64)
    ensures
        chain.blocks_between(
            from as int,
            crate::model::min_int(
                crate::model::min_int(to as int, from + MAX_GETBLOCKS_RANGE - 1),
                chain.height as int,
            ),
        ).len() <= MAX_GETBLOCKS_RANGE,
{
    let end = crate::model::min_int(
        crate::model::min_int(to as int, from + MAX_GETBLOCKS_RANGE - 1),
        chain.height as int,
    );
    if from <= end {
        crate::laws::lemma_range_len(chain, from as int, end);
    }
}

// ── Integrity ────────────────────────────────────────────────────────────────

impl ChainModel {
    /// Every block names the one before it, and the counters are on record.
    pub open spec fn intact(self) -> bool {
        self.linked() && self.persisted()
    }
}

pub(crate) proof fn lemma_live_intact<L: ChainLedger>(
    chain: ChainModel,
    ledger: L::Model,
    block: BlockModel,
    checks: BlockChecks,
    params: ParamsModel,
)
    requires
        chain.intact(),
    ensures
        crate::apply::live_effect::<L>(chain, ledger, block, checks, params).0.intact(),
{
    crate::laws::law_operations_persist(chain, block, 0, params);
    if chain.admits(block, checks, params) {
        crate::laws::law_append_keeps_links(chain, block, params);
    }
}

pub(crate) proof fn lemma_ibd_intact<L: ChainLedger>(
    chain: ChainModel,
    ledger: L::Model,
    block: BlockModel,
    params: ParamsModel,
)
    requires
        chain.intact(),
    ensures
        crate::apply::ibd_effect::<L>(chain, ledger, block, params).0.intact(),
{
    let restored = chain.restored(block, params);
    crate::laws::law_operations_persist(chain, block, 0, params);
    crate::laws::law_operations_persist(restored, block, 0, params);
    assert(restored.stored == chain.stored && restored.height == chain.height);
    if chain.admits_ibd(block, params) {
        crate::laws::law_append_keeps_links(chain, block, params);
    }
}

proof fn lemma_batch_intact<L: ChainLedger>(
    chain: ChainModel,
    ledger: L::Model,
    blocks: Seq<BlockModel>,
    low: Option<u64>,
    params: ParamsModel,
    n: int,
)
    requires
        chain.intact(),
    ensures
        crate::batch::batch::<L>(chain, ledger, blocks, low, params, n).chain.intact(),
    decreases n,
{
    if n > 0 {
        lemma_batch_intact::<L>(chain, ledger, blocks, low, params, n - 1);
        let before = crate::batch::batch::<L>(chain, ledger, blocks, low, params, n - 1);
        lemma_ibd_intact::<L>(before.chain, before.ledger, blocks[n - 1], params);
    }
}

proof fn lemma_reverted_above_intact(chain: ChainModel, target: u64, params: ParamsModel)
    requires
        chain.intact(),
    ensures
        chain.reverted_above(target, params).intact(),
    decreases chain.height,
{
    if chain.height > target {
        crate::laws::law_revert_keeps_links(chain, params);
        crate::laws::law_operations_persist(chain, chain.tip(), 0, params);
        lemma_reverted_above_intact(chain.reverted(params), target, params);
    }
}

proof fn lemma_gone_back_intact<L: ChainLedger>(node: NodeModel<L>, height: u64)
    requires
        node.chain.intact(),
    ensures
        node.gone_back(height).chain.intact(),
{
    lemma_reverted_above_intact(node.chain, height, node.params);
    let above = node.chain.reverted_above(height, node.params);
    assert(node.gone_back(height).chain.stored == above.stored);
}

proof fn lemma_batched_intact<L: ChainLedger>(node: NodeModel<L>, blocks: Seq<BlockModel>)
    requires
        node.chain.intact(),
    ensures
        node.batched(blocks).0.chain.intact(),
{
    let n = blocks.len() as int;
    lemma_batch_intact::<L>(node.chain, node.ledger, blocks, None, node.params, n);
    let b = crate::batch::batch::<L>(node.chain, node.ledger, blocks, None, node.params, n);
    let after = NodeModel { chain: b.chain, ledger: b.ledger, ..node };
    lemma_gone_back_intact(after, 0);
    match b.chain.fork_point(blocks) {
        Some(fork) => {
            lemma_gone_back_intact(after, fork);
            let back = after.gone_back(fork);
            lemma_batch_intact::<L>(
                back.chain,
                back.ledger,
                blocks,
                Some(fork),
                node.params,
                n,
            );
        },
        None => {},
    }
}

/// Whatever is submitted, announced or delivered: every block of the chain keeps
/// naming the one before it, and the height, the difficulty, the target block time
/// and the work stay on record.
pub proof fn law_the_chain_stays_intact<L: ChainLedger>(
    node: NodeModel<L>,
    session: PeerSession,
    block: BlockModel,
    checks: BlockChecks,
    tip_checks: BlockChecks,
    blocks: Seq<BlockModel>,
    now: u64,
)
    requires
        node.chain.intact(),
    ensures
        node.submitted(block, checks, now).0.chain.intact(),
        node.processed(session, block, checks, tip_checks, now).0.chain.intact(),
        node.delivered(session, blocks, now).0.chain.intact(),
{
    lemma_live_intact::<L>(node.chain, node.ledger, block, checks, node.params);
    lemma_batched_intact(node, blocks);
    crate::laws::law_operations_persist(node.chain, block, 0, node.params);
    let applied = node.batched(blocks).0;
    crate::laws::law_operations_persist(applied.chain, block, 0, node.params);
    let offered = if block.index <= node.chain.height {
        node
    } else {
        node.offered(block, checks).0
    };
    assert(offered.chain.intact());
    if offered.beats_tip(block, checks) {
        let old_tip = offered.chain.tip();
        let back = offered.without_tip();
        crate::laws::law_revert_keeps_links(offered.chain, node.params);
        crate::laws::law_operations_persist(offered.chain, block, 0, node.params);
        lemma_live_intact::<L>(back.chain, back.ledger, block, checks, node.params);
        let tried = back.offered(block, checks).0;
        lemma_live_intact::<L>(tried.chain, tried.ledger, old_tip, tip_checks, node.params);
    }
}

} // verus!
