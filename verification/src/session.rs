//! What a node does with each message of a peer.

use vstd::prelude::*;

use crate::apply::BlockChecks;
use crate::block::{Block, BlockModel};
use crate::hash::hash_less;
use crate::ledger::ChainLedger;
use crate::model::ChainModel;
use crate::node::{NodeModel, TaronNode};
use crate::peers::{any_with_ip, PeerAddr};
use crate::sync::{
    chunk_last, claim_slot, holds_slot, release_slot, take_over_slot,
    MAX_GETBLOCKS_RANGE, MAX_LOCATOR_REORG, SEED_WAIT,
};

verus! {

/// A connection is given up once nothing was received for longer than this.
pub const IDLE_TIMEOUT: u64 = 120_000_000_000;

/// What is known of one connected peer.
#[derive(Debug, Clone, Copy, PartialEq, Eq)]
pub struct PeerSession {
    pub addr: PeerAddr,
    /// Whether the peer is one of the seeds.
    pub is_seed: bool,
    /// The height the peer last reported.
    pub peer_height: Option<u64>,
    /// When the last message came.
    pub last_recv: u64,
    /// Whether the peer has had a locator and not yet the last batch of blocks.
    pub locator_sent: bool,
}

/// What to do about a block that a peer announces.
#[derive(Debug, Clone, Copy, PartialEq, Eq, Structural)]
pub enum Announced {
    Ignore,
    /// Ask the peer for its block locator.
    AskLocator,
    /// Offer the block to the chain.
    Process,
}

/// What to do once a block that a peer announced has been processed.
pub enum BlockStep {
    /// The block was taken: pass it on to the other peers.
    Relay,
    /// The block was taken, but a better one at its height was passed on moments
    /// ago: send our tip back instead.
    Return,
    /// The block took the place of the tip, which is handed back: pass it on to
    /// the other peers.
    Replaced(Block),
    /// Ask the peer for these blocks.
    Request { from: u64, to: u64 },
    Ignore,
}

/// The content of a [`BlockStep`].
pub enum StepModel {
    Relay,
    Return,
    Replaced(BlockModel),
    Request { from: u64, to: u64 },
    Ignore,
}

impl View for BlockStep {
    type V = StepModel;

    open spec fn view(&self) -> StepModel {
        match self {
            BlockStep::Relay => StepModel::Relay,
            BlockStep::Return => StepModel::Return,
            BlockStep::Replaced(tip) => StepModel::Replaced(tip@),
            BlockStep::Request { from, to } => StepModel::Request { from: *from, to: *to },
            BlockStep::Ignore => StepModel::Ignore,
        }
    }
}

/// What to do about a peer's block locator.
#[derive(Debug, Clone, Copy, PartialEq, Eq, Structural)]
pub enum LocatorStep {
    Ignore,
    /// The chains share no block: disconnect.
    Disconnect,
    /// Ask the peer for these blocks.
    Request { from: u64, to: u64 },
}

/// What to do after a batch of blocks.
#[derive(Debug, Clone, Copy, PartialEq, Eq, Structural)]
pub enum SyncStep {
    /// The batch was not looked at.
    Ignore,
    /// Nothing more to ask.
    Idle,
    /// Ask the peer for these blocks.
    Request { from: u64, to: u64 },
    /// Ask the peer for its height.
    AskHeight,
}

/// What to do when the keep-alive timer goes off.
#[derive(Debug, Clone, Copy, PartialEq, Eq, Structural)]
pub enum Tick {
    Disconnect,
    Ping,
}

impl PeerSession {
    /// Whether nothing was received for too long.
    pub open spec fn idle(self, now: u64) -> bool {
        now - self.last_recv > IDLE_TIMEOUT
    }

    /// Notes that a message came.
    pub fn hear(&mut self, now: u64)
        ensures
            *final(self) == (PeerSession { last_recv: now, ..*old(self) }),
    {
        self.last_recv = now;
    }

    /// What to do when the keep-alive timer goes off.
    pub fn tick(&self, now: u64) -> (step: Tick)
        ensures
            step == if self.idle(now) {
                Tick::Disconnect
            } else {
                Tick::Ping
            },
    {
        if now > self.last_recv && now - self.last_recv > IDLE_TIMEOUT {
            Tick::Disconnect
        } else {
            Tick::Ping
        }
    }
}

/// Whether a peer is on another chain: it names a genesis block, and not ours.
/// Such a peer is banned.
pub fn wrong_genesis(theirs: &String, ours: &String) -> (wrong: bool)
    ensures
        wrong == (theirs@.len() > 0 && theirs@ != ours@),
{
    let named = *theirs != String::new();
    assert(named == (theirs@.len() > 0)) by {
        assert(theirs@.len() == 0 ==> theirs@ =~= Seq::<char>::empty());
    }
    named && *theirs != *ours
}

impl<L: ChainLedger> NodeModel<L> {
    /// Whether a peer may claim the free download slot.
    pub open spec fn may_claim(self, session: PeerSession, now: u64) -> bool {
        crate::sync::may_claim(session.is_seed, self.seed_seen, now)
    }

    /// The node and the session once a block of some index has been announced, and
    /// what to do about it. A block further ahead than the next one starts a
    /// download, unless one is running; a block behind the tip is of no interest.
    pub open spec fn announced(self, session: PeerSession, index: u64, now: u64) -> (
        Self,
        PeerSession,
        Announced,
    ) {
        if index > self.cached.height + 1 {
            let (slot, held) = crate::sync::claimed(
                self.slot,
                session.addr,
                self.may_claim(session, now),
                now,
            );
            let after = NodeModel { slot, ..self };
            if !held {
                (after, session, Announced::Ignore)
            } else if self.slot is None {
                (
                    after,
                    PeerSession { peer_height: Some(index), ..session },
                    Announced::AskLocator,
                )
            } else if session.peer_height matches Some(h) && index <= h {
                (after, session, Announced::Ignore)
            } else {
                (after, PeerSession { peer_height: Some(index), ..session }, Announced::Ignore)
            }
        } else if index < self.cached.height {
            (self, session, Announced::Ignore)
        } else {
            (self, session, Announced::Process)
        }
    }

    /// Whether a block may take the place of the tip: it follows the tip's parent,
    /// its hash is lower than the tip's, and it would be valid there.
    pub open spec fn beats_tip(self, block: BlockModel, checks: BlockChecks) -> bool {
        let parent = self.chain.stored[(self.chain.height - 1) as u64];
        &&& crate::hash::bytes_less(block.hash@, self.chain.tip().hash@)
        &&& self.chain.height > 0
        &&& self.chain.stored.dom().contains((self.chain.height - 1) as u64)
        &&& checks.header_ok
        &&& crate::block::extends(block, parent)
        &&& crate::hash::leading_u64(block.hash) < self.chain.difficulty
        &&& block.reward == self.params.testnet_reward
    }

    /// The node without its last block.
    pub open spec fn without_tip(self) -> Self {
        NodeModel {
            chain: self.chain.reverted(self.params),
            ledger: crate::apply::block_undone::<L>(self.ledger, self.chain.tip()),
            ..self
        }
    }

    /// The node once a block has competed with its tip, and what to do next. If
    /// the block cannot be applied after all, the old tip is offered again, and is
    /// the tip again unless it is refused in its turn.
    pub open spec fn competed(
        self,
        block: BlockModel,
        checks: BlockChecks,
        tip_checks: BlockChecks,
        now: u64,
    ) -> (Self, StepModel) {
        let tip = self.chain.tip();
        let (after, ok) = self.without_tip().offered(block, checks);
        if !self.beats_tip(block, checks) {
            (self, StepModel::Ignore)
        } else if ok {
            (after.broadcast(block, now), StepModel::Replaced(tip))
        } else {
            (after.offered(tip, tip_checks).0.mirrored(), StepModel::Ignore)
        }
    }

    /// The node and the session once a block has been refused, and what to do
    /// next: fetch the blocks in between, look for the fork, or let the block
    /// compete with the tip. While a peer drives the download, only its blocks can
    /// lead to a reorganisation.
    pub open spec fn refused(
        self,
        session: PeerSession,
        block: BlockModel,
        checks: BlockChecks,
        tip_checks: BlockChecks,
        now: u64,
    ) -> (Self, PeerSession, StepModel) {
        let height = self.chain.height;
        if block.index > height + 1 {
            let (slot, held) = crate::sync::claimed(
                self.slot,
                session.addr,
                self.may_claim(session, now),
                now,
            );
            let after = NodeModel { slot, ..self };
            let from = (height + 1) as u64;
            if held {
                (
                    after,
                    PeerSession { peer_height: Some(block.index), ..session },
                    StepModel::Request {
                        from,
                        to: crate::sync::chunk_end(from, self.chunk, block.index),
                    },
                )
            } else {
                (after, session, StepModel::Ignore)
            }
        } else if self.slot is Some && !crate::sync::holds(self.slot, session.addr) {
            (self, session, StepModel::Ignore)
        } else if block.index == height + 1 {
            (
                self,
                session,
                StepModel::Request { from: crate::sync::fork_start(height), to: block.index },
            )
        } else if block.index == height {
            let (after, step) = self.competed(block, checks, tip_checks, now);
            (after, session, step)
        } else {
            (self, session, StepModel::Ignore)
        }
    }

    /// The node and the session once an announced block has been processed, and
    /// what to do next.
    pub open spec fn processed(
        self,
        session: PeerSession,
        block: BlockModel,
        checks: BlockChecks,
        tip_checks: BlockChecks,
        now: u64,
    ) -> (Self, PeerSession, StepModel) {
        let (after, ok) = if block.index <= self.chain.height {
            (self, false)
        } else {
            self.offered(block, checks)
        };
        if ok {
            let (relay, pass) = after.relay.relayed(block.index, block.hash, now);
            (
                NodeModel { relay, ..after },
                session,
                if pass {
                    StepModel::Relay
                } else {
                    StepModel::Return
                },
            )
        } else {
            after.refused(session, block, checks, tip_checks, now)
        }
    }

    /// The node and the session once a peer has reported its height, and whether
    /// to ask it for its block locator. `connected` says whether the peer that
    /// holds the download slot is connected.
    pub open spec fn told_height(
        self,
        session: PeerSession,
        height: u64,
        connected: bool,
        now: u64,
    ) -> (Self, PeerSession, bool) {
        let heard = PeerSession { peer_height: Some(height), ..session };
        if height > self.chain.height {
            let (slot, held) = crate::sync::taken_over(
                self.slot,
                session.addr,
                self.may_claim(session, now),
                connected,
                now,
            );
            (NodeModel { slot, ..self }, heard, held)
        } else {
            (NodeModel { sync_ready: true, ..self }, heard, false)
        }
    }

    /// The node once a peer's block locator has come, and what to do next.
    pub open spec fn located(
        self,
        session: PeerSession,
        locator: Seq<crate::queries::LocatorEntry>,
    ) -> (Self, LocatorStep) {
        let height = self.chain.height;
        if !crate::sync::holds(self.slot, session.addr) || session.peer_height is None {
            (self, LocatorStep::Ignore)
        } else {
            let peer_height = session.peer_height->0;
            match self.chain.common_ancestor(locator) {
                None => (NodeModel { slot: None, ..self }, LocatorStep::Disconnect),
                Some(ancestor) => if crate::sync::refuses_ancestor(
                    height,
                    ancestor,
                    peer_height,
                ) {
                    (NodeModel { slot: None, ..self }, LocatorStep::Ignore)
                } else {
                    let from = (ancestor + 1) as u64;
                    (
                        self,
                        LocatorStep::Request {
                            from,
                            to: crate::sync::chunk_end(from, self.chunk, peer_height),
                        },
                    )
                },
            }
        }
    }

    /// The node once the download is over.
    pub open spec fn caught_up(self) -> Self {
        NodeModel { chain: self.chain.abc_reset(), slot: None, sync_ready: true, ..self }
    }

    /// The node once a peer has had no more blocks to send. It counts as synced if
    /// it is close to the peer's height.
    pub open spec fn ran_dry(self, session: PeerSession) -> Self {
        NodeModel {
            chain: self.chain.abc_reset(),
            slot: None,
            sync_ready: self.sync_ready || crate::sync::close_enough(
                self.chain.height,
                session.peer_height,
            ),
            ..self
        }
    }

    /// The node once a batch has brought it forward, and what to ask next.
    pub open spec fn advanced(self, session: PeerSession, now: u64) -> (Self, SyncStep) {
        let after = self.broadcast(self.chain.tip(), now);
        match session.peer_height {
            Some(last) => if self.chain.height < last {
                let from = (self.chain.height + 1) as u64;
                (
                    after,
                    SyncStep::Request {
                        from,
                        to: crate::sync::chunk_end(from, self.chunk, last),
                    },
                )
            } else {
                (after.caught_up(), SyncStep::Idle)
            },
            None => (after, SyncStep::AskHeight),
        }
    }

    /// The node once a batch of blocks has come from a peer, and what to do next.
    /// Only the peer that drives the download is listened to; a free slot goes to
    /// the peer that delivers. What to do next is `None` where that hangs on records
    /// that are not in memory or on blocks that cannot be read.
    pub open spec fn delivered(
        self,
        session: PeerSession,
        blocks: Seq<BlockModel>,
        now: u64,
    ) -> (Self, Option<SyncStep>) {
        let (slot, held) = crate::sync::claimed(
            self.slot,
            session.addr,
            self.may_claim(session, now),
            now,
        );
        if blocks.len() == 0 {
            if self.slot is None || held {
                (self.ran_dry(session), Some(SyncStep::Idle))
            } else {
                (self, Some(SyncStep::Ignore))
            }
        } else if !held {
            (NodeModel { slot, ..self }, Some(SyncStep::Ignore))
        } else {
            let (applied, forward) = self.batched(blocks);
            let after = NodeModel { slot: Some((session.addr, now)), ..applied.mirrored() };
            match forward {
                Some(true) => {
                    let (end, step) = after.advanced(session, now);
                    (end, Some(step))
                },
                Some(false) => (after, Some(SyncStep::Idle)),
                None => (after, None),
            }
        }
    }
}

impl<L: ChainLedger> TaronNode<L> {
    /// Starts a session with a peer. Peers that share an IP address with a seed
    /// count as that seed.
    pub fn meet(&mut self, addr: PeerAddr, seeds: &[PeerAddr], now: u64) -> (session: PeerSession)
        requires
            old(self).wf(),
        ensures
            final(self).follows(old(self)),
            session == (PeerSession {
                addr,
                is_seed: crate::peers::has_ip(seeds@, addr.ip),
                peer_height: None,
                last_recv: now,
                locator_sent: false,
            }),
            final(self)@ == (NodeModel {
                seed_seen: old(self)@.seed_seen || session.is_seed,
                ..old(self)@
            }),
    {
        let is_seed = any_with_ip(seeds, addr.ip);
        if is_seed {
            self.seed_seen = true;
        }
        PeerSession { addr, is_seed, peer_height: None, last_recv: now, locator_sent: false }
    }

    /// Ends a session: a peer that is gone does not drive the download.
    pub fn part(&mut self, session: &PeerSession)
        requires
            old(self).wf(),
        ensures
            final(self).follows(old(self)),
            final(self)@ == (NodeModel {
                slot: crate::sync::released(old(self)@.slot, session.addr),
                ..old(self)@
            }),
    {
        release_slot(&mut self.ibd_peer, session.addr);
    }

    fn claim(&mut self, session: &PeerSession, now: u64) -> (held: bool)
        requires
            old(self).blockchain.wf(),
        ensures
            final(self).blockchain == old(self).blockchain,
            final(self).config == old(self).config,
            final(self)@ == (NodeModel { slot: final(self)@.slot, ..old(self)@ }),
            (final(self)@.slot, held) == crate::sync::claimed(
                old(self)@.slot,
                session.addr,
                old(self)@.may_claim(*session, now),
                now,
            ),
    {
        let may_claim = session.is_seed || self.seed_seen || now >= SEED_WAIT;
        claim_slot(&mut self.ibd_peer, session.addr, may_claim, now)
    }

    /// A peer announces a block: decides, by its index alone, what to do.
    pub fn announce(&mut self, session: &mut PeerSession, index: u64, now: u64) -> (step:
        Announced)
        requires
            old(self).wf(),
        ensures
            final(self).follows(old(self)),
            (final(self)@, *final(session), step) == old(self)@.announced(
                *old(session),
                index,
                now,
            ),
    {
        if (index as u128) > (self.chain_height as u128) + 1 {
            let free = self.ibd_peer.is_none();
            if !self.claim(&*session, now) {
                return Announced::Ignore;
            }
            if free {
                session.peer_height = Some(index);
                return Announced::AskLocator;
            }
            let higher = match session.peer_height {
                Some(h) => index > h,
                None => true,
            };
            if higher {
                session.peer_height = Some(index);
            }
            return Announced::Ignore;
        }
        if index < self.chain_height {
            return Announced::Ignore;
        }
        Announced::Process
    }

    fn compete(
        &mut self,
        block: &Block,
        checks: &BlockChecks,
        tip_checks: &BlockChecks,
        now: u64,
    ) -> (step: BlockStep)
        requires
            old(self).wf(),
        ensures
            final(self).follows(old(self)),
            (final(self)@, step@) == old(self)@.competed(block@, *checks, *tip_checks, now),
    {
        let tip = self.blockchain.tip();
        if !hash_less(&block.hash, &tip.hash) || self.blockchain.height() == 0 {
            return BlockStep::Ignore;
        }
        let parent = match self.blockchain.block_at(self.blockchain.height() - 1) {
            Some(parent) => parent,
            None => {
                return BlockStep::Ignore;
            },
        };
        if !block.is_valid(&parent, self.blockchain.difficulty, checks.header_ok) || block.reward
            != self.blockchain.params.testnet_reward {
            return BlockStep::Ignore;
        }
        proof {
            let back = self@.chain.reverted(self@.params);
            assert(back.stored == self@.chain.stored.remove(self@.chain.height));
            assert(back.has_tip());
        }
        match self.blockchain.revert_tip(&mut self.ledger) {
            Ok(reverted) => {
                if self.offer(block, checks) {
                    self.broadcast_block(block, now);
                    BlockStep::Replaced(reverted)
                } else {
                    self.offer(&reverted, tip_checks);
                    self.mirror();
                    BlockStep::Ignore
                }
            },
            Err(_) => BlockStep::Ignore,
        }
    }

    fn refuse(
        &mut self,
        session: &mut PeerSession,
        block: &Block,
        checks: &BlockChecks,
        tip_checks: &BlockChecks,
        now: u64,
    ) -> (step: BlockStep)
        requires
            old(self).wf(),
        ensures
            final(self).follows(old(self)),
            (final(self)@, *final(session), step@) == old(self)@.refused(
                *old(session),
                block@,
                *checks,
                *tip_checks,
                now,
            ),
    {
        let height: u64 = self.blockchain.height();
        if (block.index as u128) > (height as u128) + 1 {
            if self.claim(&*session, now) {
                session.peer_height = Some(block.index);
                let from: u64 = height + 1;
                let to: u64 = chunk_last(from, self.ibd_chunk_size, block.index);
                BlockStep::Request { from, to }
            } else {
                BlockStep::Ignore
            }
        } else if self.ibd_peer.is_some() && !holds_slot(&self.ibd_peer, session.addr) {
            BlockStep::Ignore
        } else if (block.index as u128) == (height as u128) + 1 {
            let from: u64 = if height > 10 {
                height - 10
            } else {
                1
            };
            BlockStep::Request { from, to: block.index }
        } else if block.index == height {
            self.compete(block, checks, tip_checks, now)
        } else {
            BlockStep::Ignore
        }
    }

    /// Processes a block that a peer announced and that may be the next one, or
    /// may compete with the tip. `tip_checks` are the checks of the tip as it
    /// stands, should it have to be offered again. The records that decide on the
    /// difficulty must be in memory.
    pub fn process_block(
        &mut self,
        session: &mut PeerSession,
        block: &Block,
        checks: &BlockChecks,
        tip_checks: &BlockChecks,
        now: u64,
    ) -> (step: BlockStep)
        requires
            old(self).wf(),
            old(self)@.chain.holds_window(),
        ensures
            final(self).follows(old(self)),
            (final(self)@, *final(session), step@) == old(self)@.processed(
                *old(session),
                block@,
                *checks,
                *tip_checks,
                now,
            ),
    {
        if block.index > self.blockchain.height() && self.offer(block, checks) {
            if self.relay_lock.relay(block.index, &block.hash, now) {
                BlockStep::Relay
            } else {
                BlockStep::Return
            }
        } else {
            self.refuse(session, block, checks, tip_checks, now)
        }
    }

    /// As `process_block`, where it is not known whether the records that decide on
    /// the difficulty are in memory. `None`, and no change, if they are not.
    pub fn try_process_block(
        &mut self,
        session: &mut PeerSession,
        block: &Block,
        checks: &BlockChecks,
        tip_checks: &BlockChecks,
        now: u64,
    ) -> (step: Option<BlockStep>)
        requires
            old(self).wf(),
        ensures
            final(self).follows(old(self)),
            match step {
                Some(s) => old(self)@.chain.holds_window() && (
                    final(self)@,
                    *final(session),
                    s@,
                ) == old(self)@.processed(*old(session), block@, *checks, *tip_checks, now),
                None => !old(self)@.chain.holds_window() && *final(self) == *old(self)
                    && *final(session) == *old(session),
            },
    {
        if self.blockchain.holds_window() {
            Some(self.process_block(session, block, checks, tip_checks, now))
        } else {
            None
        }
    }

    /// A peer reports its height. Returns whether to ask it for its block locator.
    /// `connected` says whether the peer that holds the download slot, if another
    /// one does, is connected.
    pub fn hear_height(
        &mut self,
        session: &mut PeerSession,
        height: u64,
        connected: bool,
        now: u64,
    ) -> (ask: bool)
        requires
            old(self).wf(),
        ensures
            final(self).follows(old(self)),
            (final(self)@, *final(session), ask) == old(self)@.told_height(
                *old(session),
                height,
                connected,
                now,
            ),
    {
        session.peer_height = Some(height);
        if height > self.blockchain.height() {
            let may_claim = session.is_seed || self.seed_seen || now >= SEED_WAIT;
            take_over_slot(&mut self.ibd_peer, session.addr, may_claim, connected, now)
        } else {
            self.sync_ready = true;
            false
        }
    }

    /// A peer asks for our block locator. It gets one, but no second one before it
    /// has had the last batch of blocks. The records that the locator looks at must be
    /// in memory.
    pub fn answer_locator(&self, session: &mut PeerSession) -> (locator: Option<
        Vec<(u64, String)>,
    >)
        requires
            self.wf(),
            !old(session).locator_sent ==> self@.chain.locator_gap() is None,
        ensures
            *final(session) == (PeerSession { locator_sent: true, ..*old(session) }),
            match locator {
                Some(entries) => !old(session).locator_sent && crate::queries::locator_model(
                    entries@,
                ) == self@.chain.locator(),
                None => old(session).locator_sent,
            },
    {
        if session.locator_sent {
            return None;
        }
        session.locator_sent = true;
        Some(self.blockchain.generate_block_locator())
    }

    /// A peer answers with its block locator: decides which blocks to ask for. The
    /// records that the locator names must be in memory.
    pub fn take_locator(&mut self, session: &PeerSession, locator: &[(u64, String)]) -> (step:
        LocatorStep)
        requires
            old(self).wf(),
            old(self)@.chain.height < u64::MAX,
            crate::sync::holds(old(self)@.slot, session.addr) ==> old(self)@.chain.holds_entries(
                crate::queries::locator_model(locator@),
            ),
        ensures
            final(self).follows(old(self)),
            (final(self)@, step) == old(self)@.located(
                *session,
                crate::queries::locator_model(locator@),
            ),
    {
        if !holds_slot(&self.ibd_peer, session.addr) {
            return LocatorStep::Ignore;
        }
        let peer_height: u64 = match session.peer_height {
            Some(h) => h,
            None => {
                return LocatorStep::Ignore;
            },
        };
        proof {
            lemma_common_ancestor_bound(
                self@.chain,
                crate::queries::locator_model(locator@),
                locator@.len() as int,
            );
        }
        match self.blockchain.find_common_ancestor_from_locator(locator) {
            None => {
                self.ibd_peer = None;
                LocatorStep::Disconnect
            },
            Some(ancestor) => {
                let height: u64 = self.blockchain.height();
                let depth: u64 = height.saturating_sub(ancestor);
                let far_ahead = (peer_height as u128) > (height as u128) + 20;
                if depth > MAX_LOCATOR_REORG && !far_ahead {
                    self.ibd_peer = None;
                    LocatorStep::Ignore
                } else {
                    let from: u64 = ancestor + 1;
                    let to: u64 = chunk_last(from, self.ibd_chunk_size, peer_height);
                    LocatorStep::Request { from, to }
                }
            },
        }
    }

    /// A peer asks for blocks. Answers with those from `from` on, up to `to`, the
    /// tip, or the limit of a request. A request that reaches the tip lets the
    /// peer ask for a locator again. The records of these blocks must be in memory.
    pub fn answer_blocks(&self, session: &mut PeerSession, from: u64, to: u64) -> (blocks: Vec<
        Block,
    >)
        requires
            self.wf(),
            self@.chain.holds(
                from as int,
                crate::model::min_int(
                    crate::model::min_int(to as int, from + MAX_GETBLOCKS_RANGE - 1),
                    self@.chain.height as int,
                ),
            ),
        ensures
            ({
                let end = crate::model::min_int(to as int, from + MAX_GETBLOCKS_RANGE - 1);
                &&& crate::block::block_models(blocks@) == self@.chain.blocks_between(
                    from as int,
                    crate::model::min_int(end, self@.chain.height as int),
                )
                &&& *final(session) == (PeerSession {
                    locator_sent: old(session).locator_sent && end < self@.chain.height,
                    ..*old(session)
                })
            }),
            blocks.len() <= MAX_GETBLOCKS_RANGE,
            self@.chain.linked() ==> forall|k: int|
                0 <= k < blocks.len() ==> (#[trigger] blocks@[k])@ == self@.chain.stored[(from
                    + k) as u64],
            self@.chain.linked() && from <= to && from <= self@.chain.height ==> {
                ||| from + blocks.len() == from + MAX_GETBLOCKS_RANGE
                ||| from + blocks.len() == to + 1
                ||| from + blocks.len() == self@.chain.height + 1
            },
            from > to || from > self@.chain.height ==> blocks.len() == 0,
            to >= self@.chain.height && from + MAX_GETBLOCKS_RANGE > self@.chain.height
                ==> !final(session).locator_sent,
    {
        proof {
            let high = crate::model::min_int(
                crate::model::min_int(to as int, from + MAX_GETBLOCKS_RANGE - 1),
                self@.chain.height as int,
            );
            if from <= high {
                crate::laws::lemma_range_len(self@.chain, from as int, high);
                if self@.chain.linked() {
                    crate::laws::law_range_of_linked_chain(self@.chain, from as int, high);
                }
            }
        }
        let end: u64 = if to > from && to - from >= MAX_GETBLOCKS_RANGE {
            from + (MAX_GETBLOCKS_RANGE - 1)
        } else {
            to
        };
        let blocks = self.blockchain.blocks_range(from, end);
        if end >= self.blockchain.height() {
            session.locator_sent = false;
        }
        proof {
            let models = crate::block::block_models(blocks@);
            let high = crate::model::min_int(end as int, self@.chain.height as int);
            assert(models == self@.chain.blocks_between(from as int, high));
            assert(models.len() == blocks@.len());
            if from > high {
                assert(models.len() == 0);
            }
            assert forall|k: int| 0 <= k < blocks@.len() && self@.chain.linked() implies (
            #[trigger] blocks@[k])@ == self@.chain.stored[(from + k) as u64] by {
                assert(blocks@[k]@ == models[k]);
            }
        }
        blocks
    }

    /// A peer delivers a batch of blocks. What a reorganisation needs must be in
    /// memory if a block is refused, and what is taken back must be readable.
    pub fn take_blocks(&mut self, session: &PeerSession, blocks: &[Block], now: u64) -> (step:
        SyncStep)
        requires
            old(self).wf(),
            old(self)@.delivered(*session, crate::block::block_models(blocks@), now).1 is Some,
        ensures
            final(self).follows(old(self)),
            (final(self)@, Some(step)) == old(self)@.delivered(
                *session,
                crate::block::block_models(blocks@),
                now,
            ),
    {
        self.try_take_blocks(session, blocks, now).unwrap()
    }

    /// As `take_blocks`, where it is not known whether what the batch needs is in
    /// memory and can be read. `None` if it turns out not to be; the node has then
    /// come as far as it could.
    pub fn try_take_blocks(&mut self, session: &PeerSession, blocks: &[Block], now: u64) -> (step:
        Option<SyncStep>)
        requires
            old(self).wf(),
        ensures
            final(self).follows(old(self)),
            (final(self)@, step) == old(self)@.delivered(
                *session,
                crate::block::block_models(blocks@),
                now,
            ),
    {
        if blocks.len() == 0 {
            if self.ibd_peer.is_some() && !holds_slot(&self.ibd_peer, session.addr) {
                return Some(SyncStep::Ignore);
            }
            self.blockchain.recalibrate_abc();
            let height: u64 = self.blockchain.height();
            let close = match session.peer_height {
                Some(h) => h == 0 || (height as u128) + 10 >= (h as u128),
                None => true,
            };
            self.ibd_peer = None;
            if close {
                self.sync_ready = true;
            }
            return Some(SyncStep::Idle);
        }
        if !self.claim(session, now) {
            return Some(SyncStep::Ignore);
        }
        let forward = self.take_batch(blocks);
        self.ibd_peer = Some((session.addr, now));
        self.mirror();
        match forward {
            Some(true) => {},
            Some(false) => {
                return Some(SyncStep::Idle);
            },
            None => {
                return None;
            },
        }
        let tip = self.blockchain.tip();
        self.broadcast_block(&tip, now);
        let height: u64 = self.blockchain.height();
        let step = match session.peer_height {
            Some(last) => {
                if height < last {
                    let from: u64 = height + 1;
                    let to: u64 = chunk_last(from, self.ibd_chunk_size, last);
                    SyncStep::Request { from, to }
                } else {
                    self.blockchain.recalibrate_abc();
                    self.ibd_peer = None;
                    self.sync_ready = true;
                    SyncStep::Idle
                }
            },
            None => SyncStep::AskHeight,
        };
        Some(step)
    }
}

/// A common ancestor lies no higher than the tip.
proof fn lemma_common_ancestor_bound(
    chain: ChainModel,
    locator: Seq<crate::queries::LocatorEntry>,
    n: int,
)
    ensures
        chain.common_ancestor_among(locator, n) matches Some(h) ==> h <= chain.height,
    decreases n,
{
    if n > 0 {
        lemma_common_ancestor_bound(chain, locator, n - 1);
    }
}

} // verus!
