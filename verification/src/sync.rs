//! Who may drive the initial block download, which blocks to ask for, and which
//! of two competing blocks is passed on.

use vstd::prelude::*;

use crate::hash::hash_less;
use crate::peers::PeerAddr;

verus! {

/// A peer that drives the download loses its place once it has delivered nothing
/// for longer than this.
pub const IBD_SLOT_TIMEOUT: u64 = 30_000_000_000;

/// How long after the start only seeds may drive the download, unless one has
/// been seen.
pub const SEED_WAIT: u64 = 30_000_000_000;

/// How long a block that was passed on keeps competing blocks from being passed
/// on.
pub const RELAY_LOCK_DURATION: u64 = 2_000_000_000;

/// A request for blocks is answered with at most this many.
pub const MAX_GETBLOCKS_RANGE: u64 = 500;

/// A synced node gives up at most this many blocks for a longer branch.
pub const SYNCED_MAX_REORG: u64 = 10;

/// A peer whose branch leaves ours deeper than this is turned down, unless it is
/// far ahead.
pub const MAX_LOCATOR_REORG: u64 = 100;

/// The peer that drives the initial block download, and when it was last active.
/// There is at most one.
pub type Slot = Option<(PeerAddr, u64)>;

/// Whether a peer holds the slot.
pub open spec fn holds(slot: Slot, addr: PeerAddr) -> bool {
    slot matches Some((holder, _)) && holder == addr
}

/// Whether the holder of the slot, if there is one, has been idle for too long.
pub open spec fn timed_out(slot: Slot, now: u64) -> bool {
    slot matches Some((_, active)) && now - active > IBD_SLOT_TIMEOUT
}

/// The slot after a peer has asked for it, and whether the peer holds it then. A
/// free slot goes to a peer that may claim it.
pub open spec fn claimed(slot: Slot, addr: PeerAddr, may_claim: bool, now: u64) -> (Slot, bool) {
    match slot {
        None => if may_claim {
            (Some((addr, now)), true)
        } else {
            (slot, false)
        },
        Some((holder, _)) => (slot, holder == addr),
    }
}

/// As `claimed`; a peer may also take the place of one that is disconnected or
/// was idle for too long.
pub open spec fn taken_over(
    slot: Slot,
    addr: PeerAddr,
    may_claim: bool,
    connected: bool,
    now: u64,
) -> (Slot, bool) {
    if slot is Some && !holds(slot, addr) && (!connected || timed_out(slot, now)) {
        claimed(None, addr, may_claim, now)
    } else {
        claimed(slot, addr, may_claim, now)
    }
}

/// The slot once a peer has given up its place, if it had it.
pub open spec fn released(slot: Slot, addr: PeerAddr) -> Slot {
    if holds(slot, addr) {
        None
    } else {
        slot
    }
}

/// Whether a peer may claim a free slot: seeds always, others once a seed was
/// seen or the node has waited long enough.
pub open spec fn may_claim(is_seed: bool, seed_seen: bool, now: u64) -> bool {
    is_seed || seed_seen || now >= SEED_WAIT
}

/// Whether a peer holds the slot.
pub fn holds_slot(slot: &Slot, addr: PeerAddr) -> (held: bool)
    ensures
        held == holds(*slot, addr),
{
    match slot {
        Some((holder, _)) => *holder == addr,
        None => false,
    }
}

/// Whether the holder of the slot, if there is one, has been idle for too long.
pub fn slot_timed_out(slot: &Slot, now: u64) -> (idle: bool)
    ensures
        idle == timed_out(*slot, now),
{
    match slot {
        Some((_, active)) => now > *active && now - *active > IBD_SLOT_TIMEOUT,
        None => false,
    }
}

/// Claims the slot for a peer.
pub fn claim_slot(slot: &mut Slot, addr: PeerAddr, may_claim: bool, now: u64) -> (held: bool)
    ensures
        (*final(slot), held) == claimed(*old(slot), addr, may_claim, now),
{
    let holder = *slot;
    match holder {
        None => {
            if may_claim {
                *slot = Some((addr, now));
            }
            may_claim
        },
        Some((holder, _)) => holder == addr,
    }
}

/// Claims the slot for a peer, from a holder that is gone or idle if need be.
/// `connected` says whether the holder is connected.
pub fn take_over_slot(
    slot: &mut Slot,
    addr: PeerAddr,
    may_claim: bool,
    connected: bool,
    now: u64,
) -> (held: bool)
    ensures
        (*final(slot), held) == taken_over(*old(slot), addr, may_claim, connected, now),
{
    if slot.is_some() && !holds_slot(&*slot, addr) && (!connected || slot_timed_out(&*slot, now)) {
        *slot = None;
    }
    claim_slot(slot, addr, may_claim, now)
}

/// Gives up a peer's place, if it had it.
pub fn release_slot(slot: &mut Slot, addr: PeerAddr)
    ensures
        *final(slot) == released(*old(slot), addr),
{
    if holds_slot(&*slot, addr) {
        *slot = None;
    }
}

/// Frees the slot if its holder has been idle for too long.
pub fn release_stale_slot(slot: &mut Slot, now: u64) -> (freed: bool)
    ensures
        freed == timed_out(*old(slot), now),
        *final(slot) == if freed {
            None
        } else {
            *old(slot)
        },
{
    if slot_timed_out(&*slot, now) {
        *slot = None;
        true
    } else {
        false
    }
}

/// Whether to ask all peers for their height: nobody drives the download, it is
/// not over, and there is somebody to ask.
pub fn should_probe(slot: &Slot, sync_ready: bool, connected: usize) -> (probe: bool)
    ensures
        probe == (*slot is None && !sync_ready && connected > 0),
{
    slot.is_none() && !sync_ready && connected > 0
}

/// The last block that was passed on.
#[derive(Debug, Clone, Copy, PartialEq, Eq)]
pub struct RelayLock {
    pub height: u64,
    pub hash: [u8; 32],
    pub at: u64,
}

impl RelayLock {
    /// The state before anything was passed on.
    pub fn new(now: u64) -> (lock: Self)
        ensures
            lock.height == 0,
            forall|i: int| 0 <= i < 32 ==> lock.hash@[i] == 0xff,
            lock.at == now,
    {
        RelayLock { height: 0, hash: [0xff; 32], at: now }
    }

    /// Whether a block loses to the one that was passed on: it has the same
    /// height, its hash is not lower, and the lock still holds.
    pub open spec fn dominates(self, height: u64, hash: [u8; 32], now: u64) -> bool {
        &&& height == self.height
        &&& !crate::hash::bytes_less(hash@, self.hash@)
        &&& now - self.at < RELAY_LOCK_DURATION
    }

    /// The lock once a block has come up for being passed on, and whether it is.
    pub open spec fn relayed(self, height: u64, hash: [u8; 32], now: u64) -> (RelayLock, bool) {
        if self.dominates(height, hash, now) {
            (self, false)
        } else {
            (RelayLock { height, hash, at: now }, true)
        }
    }

    /// Decides whether a block is passed on, and remembers it if so.
    pub fn relay(&mut self, height: u64, hash: &[u8; 32], now: u64) -> (pass: bool)
        ensures
            (*final(self), pass) == old(self).relayed(height, *hash, now),
    {
        let held = now <= self.at || now - self.at < RELAY_LOCK_DURATION;
        if height == self.height && !hash_less(hash, &self.hash) && held {
            false
        } else {
            self.height = height;
            self.hash = *hash;
            self.at = now;
            true
        }
    }

    /// Remembers a block that is passed on whatever came before.
    pub fn set(&mut self, height: u64, hash: &[u8; 32], now: u64)
        ensures
            *final(self) == (RelayLock { height, hash: *hash, at: now }),
    {
        self.height = height;
        self.hash = *hash;
        self.at = now;
    }
}

/// The last height of a chunk that starts at `from` and goes no further than
/// `last`.
pub open spec fn chunk_end(from: u64, chunk: u64, last: u64) -> u64 {
    crate::model::min_int(from + chunk - 1, last as int) as u64
}

/// The last height to ask for, in a chunk that starts at `from`.
pub fn chunk_last(from: u64, chunk: u64, last: u64) -> (to: u64)
    requires
        from > 0,
    ensures
        to == chunk_end(from, chunk, last),
{
    let end: u128 = (from as u128) + (chunk as u128) - 1;
    if end < last as u128 {
        end as u64
    } else {
        last
    }
}

/// Where to start looking for the fork with a peer that offers a block which does
/// not extend our tip: ten blocks back, but not before the first mined block.
pub open spec fn fork_start(height: u64) -> u64 {
    if height > 10 {
        (height - 10) as u64
    } else {
        1
    }
}

/// How many blocks may be given up for a longer branch: any number before the
/// first block is final, a few after that.
pub open spec fn max_reorg(height: u64) -> u64 {
    if height < crate::params::FINALITY_DEPTH {
        height
    } else {
        SYNCED_MAX_REORG
    }
}

/// Whether a peer's branch that leaves ours at `ancestor` is turned down: it
/// would undo too many blocks, and the peer is not far ahead.
pub open spec fn refuses_ancestor(height: u64, ancestor: u64, peer_height: u64) -> bool {
    &&& crate::model::monus(height as int, ancestor as int) > MAX_LOCATOR_REORG
    &&& peer_height <= height + 20
}

/// Whether a node at `height` is close enough to a peer to call itself synced
/// when the peer has nothing more to send. A peer of unknown height is close.
pub open spec fn close_enough(height: u64, peer_height: Option<u64>) -> bool {
    match peer_height {
        Some(h) => h == 0 || height + 10 >= h,
        None => true,
    }
}

} // verus!
