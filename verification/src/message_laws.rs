//! What a node answers to each message of a peer, and what the message changes.

use vstd::prelude::*;

use crate::apply::BlockChecks;
use crate::block::BlockModel;
use crate::ledger::ChainLedger;
use crate::node::{CachedModel, NodeModel};
use crate::queries::LocatorEntry;
use crate::session::{Announced, LocatorStep, PeerSession, StepModel};
use crate::sync::{
    RelayLock, Slot, IBD_SLOT_TIMEOUT, MAX_LOCATOR_REORG, RELAY_LOCK_DURATION, SEED_WAIT,
};

verus! {

/// Whether the slot belongs to a peer.
pub open spec fn belongs(slot: Slot, session: PeerSession) -> bool {
    match slot {
        Some((holder, _)) => holder == session.addr,
        None => false,
    }
}

/// Whether whoever has the slot was last active longer ago than is allowed.
pub open spec fn overdue(slot: Slot, now: u64) -> bool {
    match slot {
        Some((_, active)) => now > active + IBD_SLOT_TIMEOUT,
        None => false,
    }
}

/// Whether a peer gets the slot if it is free: it is a seed, or one was seen, or the
/// time in which only seeds count is over.
pub open spec fn entitled<L: ChainLedger>(
    node: NodeModel<L>,
    session: PeerSession,
    now: u64,
) -> bool {
    session.is_seed || node.seed_seen || now >= SEED_WAIT
}

/// The figures of a node whose tip is a block, with a difficulty and a ledger.
pub open spec fn figures<L: ChainLedger>(
    tip: BlockModel,
    difficulty: u64,
    ledger: L::Model,
) -> CachedModel {
    CachedModel {
        height: tip.index,
        difficulty,
        best_hash: crate::hash::hex_text(tip.hash@),
        accounts: L::accounts(ledger) as u64,
        supply: L::supply(ledger),
    }
}

// ── The download slot ────────────────────────────────────────────────────────

/// A free slot goes to a peer that may have it and to no other; one that is taken
/// stays as it is. Whoever asks for a slot that is taken gets it only if the holder is
/// gone or was idle for too long, and the peer itself does not hold it already.
pub proof fn law_who_gets_the_slot(
    slot: Slot,
    session: PeerSession,
    may_claim: bool,
    connected: bool,
    now: u64,
)
    ensures
        slot is None ==> crate::sync::claimed(slot, session.addr, may_claim, now) == if may_claim {
            (Some((session.addr, now)), true)
        } else {
            (None::<(crate::peers::PeerAddr, u64)>, false)
        },
        slot is Some ==> crate::sync::claimed(slot, session.addr, may_claim, now) == (
            slot,
            belongs(slot, session),
        ),
        slot is None || belongs(slot, session) || (connected && !overdue(slot, now)) ==> crate::sync::taken_over(
            slot,
            session.addr,
            may_claim,
            connected,
            now,
        ) == crate::sync::claimed(slot, session.addr, may_claim, now),
        slot is Some && !belongs(slot, session) && (!connected || overdue(slot, now)) ==> crate::sync::taken_over(
            slot,
            session.addr,
            may_claim,
            connected,
            now,
        ) == if may_claim {
            (Some((session.addr, now)), true)
        } else {
            (None::<(crate::peers::PeerAddr, u64)>, false)
        },
        belongs(slot, session) ==> crate::sync::released(slot, session.addr) is None,
        !belongs(slot, session) ==> crate::sync::released(slot, session.addr) == slot,
        crate::sync::timed_out(slot, now) <==> overdue(slot, now),
        crate::sync::holds(slot, session.addr) <==> belongs(slot, session),
{
}

// ── Announcements ────────────────────────────────────────────────────────────

/// An announced block is processed if it is at the tip's height or the next one, and
/// ignored if it is behind. One further ahead starts a download with a peer that gets
/// the free slot; the peer that has it already only has its height noted, if that is
/// news; from any other peer it is ignored.
pub proof fn law_what_an_announcement_leads_to<L: ChainLedger>(
    node: NodeModel<L>,
    session: PeerSession,
    index: u64,
    now: u64,
)
    ensures
        node.cached.height <= index <= node.cached.height + 1 ==> node.announced(
            session,
            index,
            now,
        ) == (node, session, Announced::Process),
        index < node.cached.height ==> node.announced(session, index, now) == (
            node,
            session,
            Announced::Ignore,
        ),
        index > node.cached.height + 1 && node.slot is None && entitled(node, session, now)
            ==> node.announced(session, index, now) == (
            NodeModel { slot: Some((session.addr, now)), ..node },
            PeerSession { peer_height: Some(index), ..session },
            Announced::AskLocator,
        ),
        index > node.cached.height + 1 && belongs(node.slot, session) ==> node.announced(
            session,
            index,
            now,
        ) == (
            node,
            PeerSession {
                peer_height: if session.peer_height is Some && session.peer_height->0 >= index {
                    session.peer_height
                } else {
                    Some(index)
                },
                ..session
            },
            Announced::Ignore,
        ),
        index > node.cached.height + 1 && !belongs(node.slot, session) && !(node.slot is None
            && entitled(node, session, now)) ==> node.announced(session, index, now) == (
            node,
            session,
            Announced::Ignore,
        ),
{
}

/// A block that becomes the next one is passed on, unless another one of its height
/// was passed on moments ago and its hash is not lower than that one's. The figures
/// that the node shows are then those of the block and of the ledger it left.
pub proof fn law_a_taken_block_is_passed_on<L: ChainLedger>(
    node: NodeModel<L>,
    session: PeerSession,
    block: BlockModel,
    checks: BlockChecks,
    tip_checks: BlockChecks,
    now: u64,
)
    requires
        block.index > node.chain.height,
        crate::apply::live_effect::<L>(node.chain, node.ledger, block, checks, node.params).2,
    ensures
        ({
            let (chain, ledger, _) = crate::apply::live_effect::<L>(
                node.chain,
                node.ledger,
                block,
                checks,
                node.params,
            );
            let (after, heard, step) = node.processed(session, block, checks, tip_checks, now);
            let beaten = node.relay.height == block.index && !crate::hash::bytes_less(
                block.hash@,
                node.relay.hash@,
            ) && now < node.relay.at + RELAY_LOCK_DURATION;
            &&& after == (NodeModel {
                chain,
                ledger,
                cached: figures::<L>(block, chain.difficulty, ledger),
                relay: if beaten {
                    node.relay
                } else {
                    RelayLock { height: block.index, hash: block.hash, at: now }
                },
                ..node
            })
            &&& heard == session
            &&& step == if beaten {
                StepModel::Return
            } else {
                StepModel::Relay
            }
        }),
{
    let after = crate::apply::live_effect::<L>(
        node.chain,
        node.ledger,
        block,
        checks,
        node.params,
    ).0;
    assert(after.stored == node.chain.stored.insert(block.index, block));
}

/// A block that cannot be taken leads to a request: for the blocks in between if it is
/// further ahead than the next one, and for the last blocks before it if it would be
/// the next one but does not fit. The first takes the download slot, the second is not
/// for peers that another one keeps from it. Blocks behind the tip lead to nothing.
pub proof fn law_what_a_refused_block_leads_to<L: ChainLedger>(
    node: NodeModel<L>,
    session: PeerSession,
    block: BlockModel,
    checks: BlockChecks,
    tip_checks: BlockChecks,
    now: u64,
)
    requires
        block.index != node.chain.height,
        block.index > node.chain.height ==> !crate::apply::live_effect::<L>(
            node.chain,
            node.ledger,
            block,
            checks,
            node.params,
        ).2,
    ensures
        ({
            let height = node.chain.height;
            let got = node.processed(session, block, checks, tip_checks, now);
            let kept_away = node.slot is Some && !belongs(node.slot, session);
            let may_lead = belongs(node.slot, session) || (node.slot is None && entitled(
                node,
                session,
                now,
            ));
            &&& block.index < height ==> got == (node, session, StepModel::Ignore)
            &&& block.index == height + 1 && kept_away ==> got == (
                node,
                session,
                StepModel::Ignore,
            )
            &&& block.index == height + 1 && !kept_away ==> got == (
                node,
                session,
                StepModel::Request {
                    from: if height > 10 {
                        (height - 10) as u64
                    } else {
                        1
                    },
                    to: block.index,
                },
            )
            &&& block.index > height + 1 && !may_lead ==> got == (node, session, StepModel::Ignore)
            &&& block.index > height + 1 && may_lead ==> {
                &&& got.0 == (NodeModel {
                    slot: if node.slot is None {
                        Some((session.addr, now))
                    } else {
                        node.slot
                    },
                    ..node
                })
                &&& got.1 == (PeerSession { peer_height: Some(block.index), ..session })
                &&& got.2 matches StepModel::Request { from, to } && from == height + 1 && to
                    == if height + node.chunk < block.index {
                    height + node.chunk
                } else {
                    block.index as int
                }
            }
        }),
{
    let got = node.processed(session, block, checks, tip_checks, now);
    if block.index > node.chain.height {
        assert(node.offered(block, checks).0 == node);
    }
}

/// A block takes the tip's place exactly if its hash is lower than the tip's, it
/// follows the tip's parent, it would be valid there under the difficulty of the chain,
/// and the chain without its tip takes it. If only the last fails, the tip is offered
/// to the chain again. Otherwise nothing changes, and nothing does while another peer
/// drives the download.
pub proof fn law_when_the_tip_is_replaced<L: ChainLedger>(
    node: NodeModel<L>,
    session: PeerSession,
    block: BlockModel,
    checks: BlockChecks,
    tip_checks: BlockChecks,
    now: u64,
)
    requires
        block.index == node.chain.height,
    ensures
        ({
            let height = node.chain.height;
            let tip = node.chain.stored[height];
            let parent = node.chain.stored[(height - 1) as u64];
            let (after, heard, step) = node.processed(session, block, checks, tip_checks, now);
            let kept_away = node.slot is Some && !belongs(node.slot, session);
            let competes = {
                &&& height > 0
                &&& node.chain.stored.dom().contains((height - 1) as u64)
                &&& checks.header_ok
                &&& block.index == parent.index + 1
                &&& block.prev_hash == parent.hash
                &&& crate::hash::bytes_less(block.hash@, tip.hash@)
                &&& crate::hash::leading_u64(block.hash) < node.chain.difficulty
                &&& block.reward == node.params.testnet_reward
            };
            let (chain, ledger, ok) = crate::apply::live_effect::<L>(
                node.chain.reverted(node.params),
                crate::apply::block_undone::<L>(node.ledger, tip),
                block,
                checks,
                node.params,
            );
            let (restored, kept, _) = crate::apply::live_effect::<L>(
                node.chain.reverted(node.params),
                crate::apply::block_undone::<L>(node.ledger, tip),
                tip,
                tip_checks,
                node.params,
            );
            &&& heard == session
            &&& kept_away || !competes ==> after == node && step == StepModel::Ignore
            &&& !kept_away && competes && ok ==> {
                &&& step == StepModel::Replaced(tip)
                &&& after == (NodeModel {
                    chain,
                    ledger,
                    cached: figures::<L>(block, chain.difficulty, ledger),
                    relay: RelayLock { height: block.index, hash: block.hash, at: now },
                    ..node
                })
            }
            &&& !kept_away && competes && !ok ==> {
                &&& step == StepModel::Ignore
                &&& after == (NodeModel {
                    chain: restored,
                    ledger: kept,
                    cached: CachedModel {
                        height: restored.height,
                        ..figures::<L>(
                            restored.stored[restored.height],
                            restored.difficulty,
                            kept,
                        )
                    },
                    ..node
                })
            }
        }),
{
    let back = node.chain.reverted(node.params);
    let undone = crate::apply::block_undone::<L>(node.ledger, node.chain.tip());
    let taken = crate::apply::live_effect::<L>(back, undone, block, checks, node.params);
    if taken.2 {
        assert(taken.0.stored == back.stored.insert(block.index, block));
    }
}

/// A submitted block is taken exactly if it is the next one after the height that the
/// node shows and the chain takes it. It is passed on then, and the figures are its
/// own; any other leaves the node as it is.
pub proof fn law_what_a_submission_leads_to<L: ChainLedger>(
    node: NodeModel<L>,
    block: BlockModel,
    checks: BlockChecks,
    now: u64,
)
    ensures
        ({
            let (chain, ledger, ok) = crate::apply::live_effect::<L>(
                node.chain,
                node.ledger,
                block,
                checks,
                node.params,
            );
            let (after, taken) = node.submitted(block, checks, now);
            &&& taken <==> ok && block.index == node.cached.height + 1
            &&& !taken ==> after == node
            &&& taken ==> after == (NodeModel {
                chain,
                ledger,
                cached: figures::<L>(block, chain.difficulty, ledger),
                relay: RelayLock { height: block.index, hash: block.hash, at: now },
                ..node
            })
        }),
{
    let (chain, _, ok) = crate::apply::live_effect::<L>(
        node.chain,
        node.ledger,
        block,
        checks,
        node.params,
    );
    if ok {
        assert(chain.stored == node.chain.stored.insert(block.index, block));
    } else {
        assert(node.offered(block, checks).0 == node);
    }
}

// ── Heights and locators ─────────────────────────────────────────────────────

/// A peer that is not ahead tells the node that it is synced. One that is ahead is
/// asked for its locator if it gets the download slot or has it; its height is noted
/// in any case, and nothing else changes.
pub proof fn law_what_a_height_leads_to<L: ChainLedger>(
    node: NodeModel<L>,
    session: PeerSession,
    height: u64,
    connected: bool,
    now: u64,
)
    ensures
        ({
            let (after, heard, ask) = node.told_height(session, height, connected, now);
            let (slot, held) = crate::sync::taken_over(
                node.slot,
                session.addr,
                entitled(node, session, now),
                connected,
                now,
            );
            &&& heard == (PeerSession { peer_height: Some(height), ..session })
            &&& height <= node.chain.height ==> !ask && after == (NodeModel {
                sync_ready: true,
                ..node
            })
            &&& height > node.chain.height ==> ask == held && after == (NodeModel { slot, ..node })
        }),
{
}

/// The locator of the peer that drives the download, whose height is known, leads to a
/// request for the blocks right after the highest one that both chains share, and the
/// peer keeps its place, unless that block lies too deep and the peer is not far ahead:
/// then it loses its place. It loses it too, and the connection, if the chains share
/// nothing. Any other locator is ignored.
pub proof fn law_what_a_locator_leads_to<L: ChainLedger>(
    node: NodeModel<L>,
    session: PeerSession,
    locator: Seq<LocatorEntry>,
    shared: int,
)
    requires
        node.chain.height < u64::MAX,
        0 <= shared < locator.len() ==> {
            let ours = |e: LocatorEntry|
                {
                    &&& e.0 <= node.chain.height
                    &&& node.chain.stored.dom().contains(e.0)
                    &&& e.1 == crate::hash::hex_text(node.chain.stored[e.0].hash@)
                };
            &&& ours(locator[shared])
            &&& forall|k: int|
                0 <= k < locator.len() && ours(#[trigger] locator[k]) ==> locator[k].0
                    <= locator[shared].0
        },
        !(0 <= shared < locator.len()) ==> forall|k: int|
            0 <= k < locator.len() ==> !({
                let e = #[trigger] locator[k];
                &&& e.0 <= node.chain.height
                &&& node.chain.stored.dom().contains(e.0)
                &&& e.1 == crate::hash::hex_text(node.chain.stored[e.0].hash@)
            }),
    ensures
        ({
            let (after, step) = node.located(session, locator);
            let listened = belongs(node.slot, session) && session.peer_height is Some;
            let last = session.peer_height->0;
            let ancestor = locator[shared].0;
            let found = 0 <= shared < locator.len();
            let too_deep = ancestor + MAX_LOCATOR_REORG < node.chain.height && last
                <= node.chain.height + 20;
            &&& !listened ==> after == node && step == LocatorStep::Ignore
            &&& listened && !found ==> after == (NodeModel { slot: None, ..node }) && step
                == LocatorStep::Disconnect
            &&& listened && found && too_deep ==> after == (NodeModel { slot: None, ..node })
                && step == LocatorStep::Ignore
            &&& listened && found && !too_deep ==> {
                &&& after == node
                &&& step matches LocatorStep::Request { from, to } && from == ancestor + 1 && to
                    == if ancestor + node.chunk < last {
                    ancestor + node.chunk
                } else {
                    last as int
                }
            }
        }),
{
    crate::locator_laws::law_common_ancestor_is_the_highest(node.chain, locator);
    if 0 <= shared < locator.len() {
        assert(node.chain.shares(locator[shared]));
        let height = node.chain.common_ancestor(locator)->0;
        let i = choose|i: int|
            0 <= i < locator.len() && (#[trigger] locator[i]).0 == height && node.chain.shares(
                locator[i],
            );
        assert(locator[i].0 <= locator[shared].0);
    } else {
        assert forall|k: int| 0 <= k < locator.len() implies !node.chain.shares(
            #[trigger] locator[k],
        ) by {
            let e = locator[k];
        }
        if node.chain.common_ancestor(locator) is Some {
            let height = node.chain.common_ancestor(locator)->0;
            let i = choose|i: int|
                0 <= i < locator.len() && (#[trigger] locator[i]).0 == height
                    && node.chain.shares(locator[i]);
            assert(node.chain.shares(locator[i]));
        }
    }
}

} // verus!
