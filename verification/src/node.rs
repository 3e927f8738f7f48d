//! The node: its configuration, the chain and the ledger it keeps, and the
//! figures it shows.

use vstd::prelude::*;

use crate::apply::BlockChecks;
use crate::block::{Block, BlockModel};
use crate::blockchain::Blockchain;
use crate::hash::hex_encode;
use crate::ledger::ChainLedger;
use crate::model::ChainModel;
use crate::params::{ChainParams, ParamsModel};
use crate::peers::PeerAddr;
use crate::records::{Records, Write};
use crate::sync::{RelayLock, Slot};

verus! {

/// Default TCP listen port.
pub const DEFAULT_PORT: u16 = 8333;

/// Node configuration.
#[derive(Debug, Clone)]
pub struct NodeConfig {
    pub listen_port: u16,
    pub seed_nodes: Vec<PeerAddr>,
    pub enable_discovery: bool,
    /// Data directory for persistent storage. If `None`, data is kept in memory
    /// only.
    pub data_dir: Option<String>,
}

impl Default for NodeConfig {
    fn default() -> (config: Self)
        ensures
            config.listen_port == DEFAULT_PORT,
            config.seed_nodes@ == Seq::<PeerAddr>::empty(),
            config.enable_discovery,
            config.data_dir is None,
    {
        NodeConfig {
            listen_port: DEFAULT_PORT,
            seed_nodes: Vec::new(),
            enable_discovery: true,
            data_dir: None,
        }
    }
}

/// Node status snapshot (for display).
#[derive(Debug, Clone)]
pub struct NodeStatus {
    pub listen_port: u16,
    pub peer_count: usize,
    pub inbound_count: usize,
    pub outbound_count: usize,
    pub mempool_size: usize,
    pub account_count: usize,
    pub total_supply: u64,
    pub chain_height: u64,
    /// The mining target as a number of leading zero bits.
    pub difficulty: u32,
    pub difficulty_target: u64,
    /// Hex-encoded hash of the chain tip block.
    pub best_hash: String,
}

/// Everything a chain is opened from.
pub struct Opening {
    /// The records that were read from disk.
    pub db: Records,
    pub params: ChainParams,
    pub genesis: Block,
    /// The blocks of a legacy chain file, if there is one.
    pub legacy: Vec<Block>,
    /// The target that a legacy difficulty record stands for.
    pub legacy_target: u64,
}

impl Opening {
    /// The chain that opens.
    pub open spec fn opened(&self) -> ChainModel {
        crate::load::opened(
            self.db@,
            self.params@,
            self.genesis@,
            crate::block::block_models(self.legacy@),
            self.legacy_target,
        )
    }

    /// Whether the chain can be opened and worked with: its tip can be read.
    pub open spec fn usable(&self) -> bool {
        self.db.wf() && self.opened().has_tip()
    }

    /// Opens the chain, where it is not known whether its tip can be read. `None` if
    /// it cannot.
    pub fn open_chain(self) -> (chain: Option<Blockchain>)
        requires
            self.db.wf(),
        ensures
            match chain {
                Some(c) => {
                    &&& self.usable()
                    &&& c.wf()
                    &&& c@ == self.opened()
                    &&& c.params == self.params
                    &&& c.on_disk() == self.db.on_disk()
                },
                None => !self.usable(),
            },
    {
        let blockchain = Blockchain::load_or_create(
            self.db,
            self.params,
            &self.genesis,
            self.legacy.as_slice(),
            self.legacy_target,
        );
        if blockchain.has_tip() {
            Some(blockchain)
        } else {
            None
        }
    }
}

/// The main TARON node: the state that its peers and its miners share.
pub struct TaronNode<L: ChainLedger> {
    pub config: NodeConfig,
    /// The blockchain (ordered chain of validated blocks).
    pub blockchain: Blockchain,
    /// The ledger containing all account states.
    pub ledger: L,
    /// True once initial sync is complete (download done or already at the tip).
    pub sync_ready: bool,
    /// The peer currently driving the initial download, with the moment of its
    /// last activity. `None` when synced.
    pub ibd_peer: Slot,
    /// Current chain height, for quick rejection and status reads.
    pub chain_height: u64,
    /// Difficulty, for status reads.
    pub cached_difficulty: u64,
    /// Hash of the tip as hexadecimal text, for status reads.
    pub cached_best_hash: String,
    /// Account count after the last block, for status reads.
    pub cached_account_count: u64,
    /// Total supply after the last block, for status reads.
    pub cached_total_supply: u64,
    /// True once a seed node has been seen during this session.
    pub seed_seen: bool,
    /// The last block that was passed on.
    pub relay_lock: RelayLock,
    /// How many blocks are asked for at a time.
    pub ibd_chunk_size: u64,
    /// Peers that others told us about and that are not connected yet.
    pub discovered_peers: Vec<PeerAddr>,
    /// Which peers have sent which transactions.
    pub peer_known_txs: Vec<(PeerAddr, [u8; 32])>,
}

/// The figures a node shows, as of its last block.
#[verifier::ext_equal]
pub struct CachedModel {
    pub height: u64,
    pub difficulty: u64,
    pub best_hash: Seq<char>,
    pub accounts: u64,
    pub supply: u64,
}

/// The state of a node, as mathematics.
#[verifier::ext_equal]
#[verifier::reject_recursive_types(L)]
pub struct NodeModel<L: ChainLedger> {
    pub chain: ChainModel,
    pub ledger: L::Model,
    pub params: ParamsModel,
    pub sync_ready: bool,
    pub slot: Slot,
    pub cached: CachedModel,
    pub seed_seen: bool,
    pub relay: RelayLock,
    pub chunk: u64,
    pub discovered: Seq<PeerAddr>,
    pub known: Seq<(PeerAddr, [u8; 32])>,
}

impl<L: ChainLedger> NodeModel<L> {
    /// Whether the figures are those of the chain as it stands.
    pub open spec fn in_step(self) -> bool {
        &&& self.cached.height == self.chain.height
        &&& self.cached.difficulty == self.chain.difficulty
        &&& self.cached.best_hash == crate::hash::hex_text(self.chain.tip().hash@)
    }

    /// Whether the node is in a state it can be in: the tip can be read, and the
    /// figures are those of the chain.
    pub open spec fn ready(self) -> bool {
        self.chain.has_tip() && self.in_step()
    }

    /// The node once it has taken its figures from the chain and the ledger.
    pub open spec fn mirrored(self) -> Self {
        NodeModel {
            cached: CachedModel {
                height: self.chain.height,
                difficulty: self.chain.difficulty,
                best_hash: crate::hash::hex_text(self.chain.tip().hash@),
                accounts: L::accounts(self.ledger) as u64,
                supply: L::supply(self.ledger),
            },
            ..self
        }
    }

    /// The node once a live block has been offered to its chain, and whether the
    /// block became the next one. The figures follow a block that did.
    pub open spec fn offered(self, block: BlockModel, checks: BlockChecks) -> (Self, bool) {
        let (chain, ledger, ok) = crate::apply::live_effect::<L>(
            self.chain,
            self.ledger,
            block,
            checks,
            self.params,
        );
        let after = NodeModel { chain, ledger, ..self };
        if ok {
            (after.mirrored(), true)
        } else {
            (after, false)
        }
    }

    /// The node once it passes a block on to everybody.
    pub open spec fn broadcast(self, block: BlockModel, now: u64) -> Self {
        NodeModel {
            relay: RelayLock { height: block.index, hash: block.hash, at: now },
            ..self
        }
    }

    /// The node once a mined block has been submitted, and whether it was taken: a
    /// block that is not the next one is turned down at once, and one that is
    /// taken is passed on.
    pub open spec fn submitted(self, block: BlockModel, checks: BlockChecks, now: u64) -> (
        Self,
        bool,
    ) {
        let (after, ok) = self.offered(block, checks);
        if block.index != self.cached.height + 1 {
            (self, false)
        } else if ok {
            (after.broadcast(block, now), true)
        } else {
            (after, false)
        }
    }
}

/// A live block keeps a tip that can be read, and all blocks in their places,
/// whether it is accepted or not.
pub(crate) proof fn lemma_live_effect_sound<L: ChainLedger>(
    chain: ChainModel,
    ledger: L::Model,
    block: BlockModel,
    checks: BlockChecks,
    params: ParamsModel,
)
    requires
        chain.has_tip(),
    ensures
        crate::apply::live_effect::<L>(chain, ledger, block, checks, params).0.has_tip(),
        chain.sound() ==> crate::apply::live_effect::<L>(
            chain,
            ledger,
            block,
            checks,
            params,
        ).0.sound(),
{
    let after = crate::apply::live_effect::<L>(chain, ledger, block, checks, params).0;
    if after != chain {
        assert(after.stored == chain.stored.insert(block.index, block));
        assert(after.height == block.index);
    }
}

/// A historical block keeps a tip that can be read, and all blocks in their places,
/// whether it is accepted or not.
pub(crate) proof fn lemma_ibd_effect_sound<L: ChainLedger>(
    chain: ChainModel,
    ledger: L::Model,
    block: BlockModel,
    params: ParamsModel,
)
    requires
        chain.has_tip(),
    ensures
        crate::apply::ibd_effect::<L>(chain, ledger, block, params).0.has_tip(),
        chain.sound() ==> crate::apply::ibd_effect::<L>(chain, ledger, block, params).0.sound(),
{
    let after = crate::apply::ibd_effect::<L>(chain, ledger, block, params).0;
    if crate::apply::ibd_appends::<L>(chain, ledger, block, params) {
        assert(after.stored == chain.stored.insert(block.index, block));
        assert(after.height == block.index);
    }
}

impl<L: ChainLedger> View for TaronNode<L> {
    type V = NodeModel<L>;

    open spec fn view(&self) -> NodeModel<L> {
        NodeModel {
            chain: self.blockchain@,
            ledger: self.ledger.model(),
            params: self.blockchain.params@,
            sync_ready: self.sync_ready,
            slot: self.ibd_peer,
            cached: CachedModel {
                height: self.chain_height,
                difficulty: self.cached_difficulty,
                best_hash: self.cached_best_hash@,
                accounts: self.cached_account_count,
                supply: self.cached_total_supply,
            },
            seed_seen: self.seed_seen,
            relay: self.relay_lock,
            chunk: self.ibd_chunk_size,
            discovered: self.discovered_peers@,
            known: self.peer_known_txs@,
        }
    }
}

impl<L: ChainLedger> TaronNode<L> {
    pub open spec fn wf(&self) -> bool {
        self.blockchain.wf() && self@.ready()
    }

    /// Whether `self` came from `before` by changes that the pending writes carry
    /// to disk.
    pub open spec fn follows(&self, before: &TaronNode<L>) -> bool {
        &&& self.wf()
        &&& self.blockchain.follows(&before.blockchain)
        &&& self.config == before.config
    }

    /// Whether a node has just started: on the chain that opens, with a given
    /// ledger, with figures that are those of both, nothing synced and nobody met.
    pub open spec fn started(
        &self,
        config: NodeConfig,
        opening: Opening,
        ledger: L,
        ibd_chunk_size: u64,
    ) -> bool {
        &&& self.wf()
        &&& self.config == config
        &&& self.blockchain.params == opening.params
        &&& self.blockchain.on_disk() == opening.db.on_disk()
        &&& self.ledger == ledger
        &&& self@.chain == opening.opened()
        &&& self@ == self@.mirrored()
        &&& self.idle(ibd_chunk_size)
    }

    /// Whether a node has synced nothing and met nobody.
    pub open spec fn idle(&self, ibd_chunk_size: u64) -> bool {
        &&& !self.sync_ready
        &&& self.ibd_peer is None
        &&& !self.seed_seen
        &&& self.ibd_chunk_size == ibd_chunk_size
        &&& self.relay_lock.height == 0
        &&& forall|i: int| 0 <= i < 32 ==> self.relay_lock.hash@[i] == 0xff
        &&& self.relay_lock.at == 0
        &&& self.discovered_peers@.len() == 0
        &&& self.peer_known_txs@.len() == 0
    }

    /// Opens the chain and starts a node on it, with the ledger that belongs to
    /// it. `ibd_chunk_size` is how many blocks are asked for at a time.
    pub fn new(config: NodeConfig, opening: Opening, ledger: L, ibd_chunk_size: u64) -> (node:
        Self)
        requires
            opening.usable(),
        ensures
            node.started(config, opening, ledger, ibd_chunk_size),
    {
        let blockchain = Blockchain::load_or_create(
            opening.db,
            opening.params,
            &opening.genesis,
            opening.legacy.as_slice(),
            opening.legacy_target,
        );
        Self::start(config, blockchain, ledger, ibd_chunk_size)
    }

    /// As `new`, where it is not known whether the tip can be read. `None` if it
    /// cannot.
    pub fn open(config: NodeConfig, opening: Opening, ledger: L, ibd_chunk_size: u64) -> (node:
        Option<Self>)
        requires
            opening.db.wf(),
        ensures
            match node {
                Some(n) => opening.usable() && n.started(config, opening, ledger, ibd_chunk_size),
                None => !opening.usable(),
            },
    {
        match opening.open_chain() {
            Some(blockchain) => Some(Self::start(config, blockchain, ledger, ibd_chunk_size)),
            None => None,
        }
    }

    /// Starts a node on a chain that is already open, with the ledger that belongs
    /// to it: its figures are those of both, nothing is synced and nobody met.
    pub fn start(config: NodeConfig, blockchain: Blockchain, ledger: L, ibd_chunk_size: u64) -> (node:
        Self)
        requires
            blockchain.wf(),
            blockchain@.has_tip(),
        ensures
            node.wf(),
            node.config == config,
            node.blockchain == blockchain,
            node.ledger == ledger,
            node@ == node@.mirrored(),
            node.idle(ibd_chunk_size),
    {
        let chain_height: u64 = blockchain.height();
        let cached_difficulty: u64 = blockchain.difficulty;
        let tip = blockchain.tip();
        let cached_best_hash = hex_encode(&tip.hash);
        let cached_account_count: u64 = ledger.account_count() as u64;
        let cached_total_supply: u64 = ledger.total_supply();
        TaronNode {
            config,
            blockchain,
            ledger,
            sync_ready: false,
            ibd_peer: None,
            chain_height,
            cached_difficulty,
            cached_best_hash,
            cached_account_count,
            cached_total_supply,
            seed_seen: false,
            relay_lock: RelayLock::new(0),
            ibd_chunk_size,
            discovered_peers: Vec::new(),
            peer_known_txs: Vec::new(),
        }
    }

    /// Opens the chain and starts a testnet node on it, with the ledger of the
    /// genesis state.
    pub fn new_testnet(
        config: NodeConfig,
        opening: Opening,
        genesis_ledger: L,
        ibd_chunk_size: u64,
    ) -> (node: Self)
        requires
            opening.usable(),
        ensures
            node.started(config, opening, genesis_ledger, ibd_chunk_size),
    {
        Self::new(config, opening, genesis_ledger, ibd_chunk_size)
    }

    /// Current node status. What the peer table and the mempool count comes from
    /// them; `bits` is the mining target as a number of leading zero bits.
    pub fn status(
        &self,
        peer_count: usize,
        inbound_count: usize,
        outbound_count: usize,
        mempool_size: usize,
        bits: u32,
    ) -> (status: NodeStatus)
        ensures
            status.listen_port == self.config.listen_port,
            status.peer_count == peer_count,
            status.inbound_count == inbound_count,
            status.outbound_count == outbound_count,
            status.mempool_size == mempool_size,
            status.account_count == self@.cached.accounts as usize,
            status.total_supply == self@.cached.supply,
            status.chain_height == self@.cached.height,
            status.difficulty == bits,
            status.difficulty_target == self@.cached.difficulty,
            status.best_hash@ == self@.cached.best_hash,
    {
        NodeStatus {
            listen_port: self.config.listen_port,
            peer_count,
            inbound_count,
            outbound_count,
            mempool_size,
            account_count: self.cached_account_count as usize,
            total_supply: self.cached_total_supply,
            chain_height: self.chain_height,
            difficulty: bits,
            difficulty_target: self.cached_difficulty,
            best_hash: self.cached_best_hash.clone(),
        }
    }

    pub(crate) fn mirror(&mut self)
        requires
            old(self).blockchain.wf(),
            old(self)@.chain.has_tip(),
        ensures
            final(self).wf(),
            final(self).blockchain == old(self).blockchain,
            final(self).config == old(self).config,
            final(self)@ == old(self)@.mirrored(),
    {
        self.chain_height = self.blockchain.height();
        self.cached_difficulty = self.blockchain.difficulty;
        let tip = self.blockchain.tip();
        self.cached_best_hash = hex_encode(&tip.hash);
        self.cached_account_count = self.ledger.account_count() as u64;
        self.cached_total_supply = self.ledger.total_supply();
    }

    pub(crate) fn offer(&mut self, block: &Block, checks: &BlockChecks) -> (taken: bool)
        requires
            old(self).blockchain.wf(),
            old(self)@.chain.has_tip(),
        ensures
            final(self).blockchain.follows(&old(self).blockchain),
            final(self).config == old(self).config,
            final(self)@.chain.has_tip(),
            (final(self)@, taken) == old(self)@.offered(block@, *checks),
    {
        proof {
            lemma_live_effect_sound::<L>(
                self@.chain,
                self@.ledger,
                block@,
                *checks,
                self@.params,
            );
        }
        let outcome = self.blockchain.apply_block(block, checks, &mut self.ledger);
        if outcome.is_ok() {
            self.mirror();
            true
        } else {
            false
        }
    }

    /// Validates and applies a block submitted from outside (such as a pool
    /// server). A block that is taken goes to all peers, and its transactions
    /// leave the mempool. The records that decide on the difficulty must be in
    /// memory.
    pub fn submit_mined_block(&mut self, block: &Block, checks: &BlockChecks, now: u64) -> (taken:
        bool)
        requires
            old(self).wf(),
            old(self)@.chain.holds_window(),
        ensures
            final(self).follows(old(self)),
            (final(self)@, taken) == old(self)@.submitted(block@, *checks, now),
    {
        if (block.index as u128) != (self.chain_height as u128) + 1 {
            return false;
        }
        let taken = self.offer(block, checks);
        if taken {
            self.broadcast_block(block, now);
        }
        taken
    }

    /// As `submit_mined_block`, where it is not known whether the records that decide
    /// on the difficulty are in memory. `None`, and no change, if they are not.
    pub fn try_submit_mined_block(&mut self, block: &Block, checks: &BlockChecks, now: u64) -> (
    taken: Option<bool>)
        requires
            old(self).wf(),
        ensures
            final(self).follows(old(self)),
            match taken {
                Some(t) => old(self)@.chain.holds_window() && (final(self)@, t) == old(
                    self,
                )@.submitted(block@, *checks, now),
                None => !old(self)@.chain.holds_window() && *final(self) == *old(self),
            },
    {
        if self.blockchain.holds_window() {
            Some(self.submit_mined_block(block, checks, now))
        } else {
            None
        }
    }

    /// Remembers a block that goes to all peers: such a block always counts as the
    /// best at its height.
    pub fn broadcast_block(&mut self, block: &Block, now: u64)
        requires
            old(self).wf(),
        ensures
            final(self).follows(old(self)),
            final(self)@ == old(self)@.broadcast(block@, now),
    {
        self.relay_lock.set(block.index, &block.hash, now);
    }

    /// Takes in a block record that was read from disk, up to the tip and unless it
    /// is in memory already. An index under which the disk has nothing counts as an
    /// empty record, from which no block can be read. Returns whether it did.
    pub fn load_block(&mut self, index: u64, bytes: Vec<u8>) -> (taken: bool)
        requires
            old(self).wf(),
            old(self).blockchain.pending().len() == 0,
        ensures
            final(self).wf(),
            final(self).config == old(self).config,
            final(self).blockchain.params == old(self).blockchain.params,
            final(self).blockchain.pending().len() == 0,
            taken == (!old(self)@.chain.loaded.contains(index) && index <= old(self)@.chain.height),
            final(self)@ == if taken {
                NodeModel { chain: old(self)@.chain.with_record(index, bytes@), ..old(self)@ }
            } else {
                old(self)@
            },
    {
        if self.blockchain.has_block(index) || index > self.blockchain.height() {
            return false;
        }
        self.blockchain.load_block(index, bytes);
        true
    }

    /// Drops a block record from memory; the disk keeps it. Genesis and the tip
    /// stay. Returns whether it did.
    pub fn forget_block(&mut self, index: u64) -> (dropped: bool)
        requires
            old(self).wf(),
            old(self).blockchain.pending().len() == 0,
        ensures
            final(self).wf(),
            final(self).config == old(self).config,
            final(self).blockchain.params == old(self).blockchain.params,
            final(self).blockchain.pending().len() == 0,
            dropped == (index != 0 && index != old(self)@.chain.height),
            final(self)@ == if dropped {
                NodeModel { chain: old(self)@.chain.without_record(index), ..old(self)@ }
            } else {
                old(self)@
            },
    {
        if index == 0 || index == self.blockchain.height() {
            return false;
        }
        self.blockchain.forget_block(index);
        true
    }

    /// Hands out the writes that have to reach the disk, oldest first.
    pub fn take_writes(&mut self) -> (writes: Vec<Write>)
        requires
            old(self).wf(),
        ensures
            final(self).wf(),
            final(self)@ == old(self)@,
            final(self).config == old(self).config,
            final(self).blockchain.pending().len() == 0,
            crate::records::write_models(writes@) == old(self).blockchain.pending(),
            final(self).blockchain.on_disk() == final(self).blockchain.records().image(),
    {
        self.blockchain.take_writes()
    }
}

} // verus!
