//! Transactions on their way through the node, and the peers that others tell it
//! about.

use vstd::prelude::*;

use crate::block::{Block, BlockModel, Transaction, TxModel};
use crate::hash::{hash_eq, hex_decode, hex_encode};
use crate::ledger::ChainLedger;
use crate::node::{NodeModel, TaronNode};
use crate::params::TaronError;
use crate::peers::{new_peers, PeerAddr};
use crate::session::PeerSession;

verus! {

/// How far a transaction has come towards finality.
#[derive(Debug, Clone, Copy, PartialEq, Eq, Structural)]
pub enum TransactionStatus {
    /// Acknowledged by a quorum.
    Confirmed { acks: usize, finality_ms: u64 },
    /// Acknowledged, but not by a quorum.
    Pending { acks: usize, quorum: usize },
    Rejected,
}

/// A list once an entry has been noted: each entry stands in it once.
pub open spec fn noted<A>(list: Seq<A>, entry: A) -> Seq<A> {
    if list.contains(entry) {
        list
    } else {
        list.push(entry)
    }
}

/// A list once the first `n` of some entries have been noted.
pub open spec fn all_noted<A>(list: Seq<A>, entries: Seq<A>, n: int) -> Seq<A>
    decreases n,
{
    if n <= 0 {
        list
    } else {
        noted(all_noted(list, entries, n - 1), entries[n - 1])
    }
}

/// Noting entries keeps a list free of duplicates, and the list then holds what
/// it held and the entries, and nothing else.
pub proof fn law_noting_adds_each_once<A>(list: Seq<A>, entries: Seq<A>, n: int)
    requires
        0 <= n <= entries.len(),
        list.no_duplicates(),
    ensures
        all_noted(list, entries, n).no_duplicates(),
        forall|a: A| #[trigger]
            all_noted(list, entries, n).contains(a) <==> list.contains(a) || entries.take(
                n,
            ).contains(a),
    decreases n,
{
    if n > 0 {
        law_noting_adds_each_once(list, entries, n - 1);
        let before = all_noted(list, entries, n - 1);
        let entry = entries[n - 1];
        let after = noted(before, entry);
        let some = entries.take(n - 1);
        let more = entries.take(n);
        assert(more =~= some.push(entry));
        assert forall|a: A| #[trigger] after.contains(a) <==> list.contains(a)
            || more.contains(a) by {
            assert(after.contains(a) <==> before.contains(a) || a == entry) by {
                vstd::seq_lib::lemma_seq_contains_after_push(before, entry, a);
            }
            vstd::seq_lib::lemma_seq_contains_after_push(some, entry, a);
        }
    } else {
        assert(entries.take(0) =~= Seq::<A>::empty());
    }
}

impl<L: ChainLedger> NodeModel<L> {
    /// The node once a transaction of a peer has been carried out on its ledger,
    /// and whether it was. One that was is noted with the peer.
    pub open spec fn committed(self, session: PeerSession, tx: TxModel) -> (Self, bool) {
        let (ledger, ok) = L::paid(self.ledger, tx);
        (
            NodeModel {
                ledger,
                known: if ok {
                    noted(self.known, (session.addr, tx.hash))
                } else {
                    self.known
                },
                ..self
            },
            ok,
        )
    }

    /// The node once a peer has told it about other peers.
    pub open spec fn told_peers(self, addrs: Seq<PeerAddr>, connected: Seq<PeerAddr>) -> Self {
        let fresh = crate::peers::unconnected(addrs, connected);
        NodeModel {
            discovered: all_noted(self.discovered, fresh, fresh.len() as int),
            ..self
        }
    }
}

/// Noting a transaction that the ledger would carry out succeeds as long as the
/// ledger stays as it is.
pub proof fn law_checked_tx_commits<L: ChainLedger>(
    node: NodeModel<L>,
    session: PeerSession,
    tx: TxModel,
)
    requires
        L::paid(node.ledger, tx).1,
    ensures
        node.committed(session, tx).1,
        node.committed(session, tx).0.known.contains((session.addr, tx.hash)),
{
    let entry = (session.addr, tx.hash);
    if !node.known.contains(entry) {
        assert(node.known.push(entry)[node.known.len() as int] == entry);
    }
}

impl<L: ChainLedger> TaronNode<L> {
    /// Whether the ledger would carry a transaction out, and if not, why. Nothing
    /// changes.
    pub fn check_tx(&self, tx: &Transaction) -> (outcome: Result<(), TaronError>)
        ensures
            match outcome {
                Ok(_) => L::paid(self@.ledger, tx@).1,
                Err(error) => !L::paid(self@.ledger, tx@).1 && error == L::refusal(
                    self@.ledger,
                    tx@,
                ),
            },
    {
        let mut copy = self.ledger.duplicate();
        copy.apply_tx(tx)
    }

    /// Carries out a transaction that a peer sent and the mempool has taken, and
    /// notes that the peer has it. Returns whether the ledger agreed.
    pub fn commit_tx(&mut self, session: &PeerSession, tx: &Transaction) -> (ok: bool)
        requires
            old(self).wf(),
        ensures
            final(self).follows(old(self)),
            (final(self)@, ok) == old(self)@.committed(*session, tx@),
    {
        if self.ledger.apply_tx(tx).is_err() {
            return false;
        }
        self.note_known(session.addr, &tx.hash);
        true
    }

    fn note_known(&mut self, addr: PeerAddr, hash: &[u8; 32])
        requires
            old(self).wf(),
        ensures
            final(self).follows(old(self)),
            final(self)@ == (NodeModel {
                known: noted(old(self)@.known, (addr, *hash)),
                ..old(self)@
            }),
    {
        let mut i: usize = 0;
        while i < self.peer_known_txs.len()
            invariant
                i <= self.peer_known_txs.len(),
                *self == *old(self),
                self.wf(),
                forall|j: int| 0 <= j < i ==> self.peer_known_txs@[j] != (addr, *hash),
            decreases self.peer_known_txs.len() - i,
        {
            if self.peer_known_txs[i].0 == addr && hash_eq(&self.peer_known_txs[i].1, hash) {
                assert(self.peer_known_txs@[i as int] == (addr, *hash));
                return;
            }
            i = i + 1;
        }
        self.peer_known_txs.push((addr, *hash));
    }

    fn note_discovered(&mut self, addr: PeerAddr)
        requires
            old(self).wf(),
        ensures
            final(self).follows(old(self)),
            final(self)@ == (NodeModel {
                discovered: noted(old(self)@.discovered, addr),
                ..old(self)@
            }),
    {
        let mut i: usize = 0;
        while i < self.discovered_peers.len()
            invariant
                i <= self.discovered_peers.len(),
                *self == *old(self),
                self.wf(),
                forall|j: int| 0 <= j < i ==> self.discovered_peers@[j] != addr,
            decreases self.discovered_peers.len() - i,
        {
            if self.discovered_peers[i] == addr {
                assert(self.discovered_peers@[i as int] == addr);
                return;
            }
            i = i + 1;
        }
        self.discovered_peers.push(addr);
    }

    /// Remembers the peers that another one told us about, except those that share
    /// an IP address with a connected peer.
    pub fn hear_peers(&mut self, addrs: &[PeerAddr], connected: &[PeerAddr])
        requires
            old(self).wf(),
        ensures
            final(self).follows(old(self)),
            final(self)@ == old(self)@.told_peers(addrs@, connected@),
    {
        let fresh = new_peers(addrs, connected);
        let ghost before = self@.discovered;
        let mut i: usize = 0;
        while i < fresh.len()
            invariant
                i <= fresh.len(),
                self.follows(old(self)),
                before == old(self)@.discovered,
                self@ == (NodeModel {
                    discovered: all_noted(before, fresh@, i as int),
                    ..old(self)@
                }),
            decreases fresh.len() - i,
        {
            self.note_discovered(fresh[i]);
            i = i + 1;
        }
    }

    /// Hands out the discovered peers and forgets them.
    pub fn drain_discovered(&mut self) -> (addrs: Vec<PeerAddr>)
        requires
            old(self).wf(),
        ensures
            final(self).follows(old(self)),
            addrs@ == old(self)@.discovered,
            final(self)@ == (NodeModel { discovered: Seq::empty(), ..old(self)@ }),
    {
        let mut addrs: Vec<PeerAddr> = Vec::new();
        std::mem::swap(&mut addrs, &mut self.discovered_peers);
        addrs
    }
}

/// The hexadecimal texts of the transaction hashes of a block.
pub open spec fn tx_hash_texts(block: BlockModel) -> Seq<Seq<char>> {
    block.transactions.map_values(|tx: TxModel| crate::hash::hex_text(tx.hash@))
}

impl Block {
    /// The keys under which the mempool holds this block's transactions.
    pub fn tx_hashes(&self) -> (texts: Vec<String>)
        ensures
            crate::peers::text_models(texts@) == tx_hash_texts(self@),
    {
        let mut texts: Vec<String> = Vec::new();
        let ghost all = tx_hash_texts(self@);
        let mut i: usize = 0;
        while i < self.transactions.len()
            invariant
                i <= self.transactions.len(),
                all == tx_hash_texts(self@),
                texts.len() == i,
                forall|j: int| 0 <= j < i ==> (#[trigger] texts@[j])@ == all[j],
            decreases self.transactions.len() - i,
        {
            assert(self@.transactions[i as int] == self.transactions@[i as int]@);
            let text = hex_encode(&self.transactions[i].hash);
            texts.push(text);
            i = i + 1;
        }
        assert(crate::peers::text_models(texts@) =~= all);
        texts
    }
}

/// The transaction hash that a text names; all zeros where it names none.
pub fn tx_hash_of(text: &str) -> (hash: [u8; 32])
    ensures
        match crate::hash::hex_bytes(text@) {
            Some(bytes) => if bytes.len() == 32 {
                hash@ == bytes
            } else {
                forall|i: int| 0 <= i < 32 ==> hash@[i] == 0
            },
            None => forall|i: int| 0 <= i < 32 ==> hash@[i] == 0,
        },
{
    let mut hash: [u8; 32] = [0u8; 32];
    if let Some(bytes) = hex_decode(text) {
        if bytes.len() == 32 {
            let mut i: usize = 0;
            while i < 32
                invariant
                    i <= 32,
                    bytes.len() == 32,
                    forall|j: int| 0 <= j < i ==> hash@[j] == bytes@[j],
                decreases 32 - i,
            {
                hash[i] = bytes[i];
                i = i + 1;
            }
            assert(hash@ =~= bytes@);
        }
    }
    hash
}

/// What a peer is told about a transaction: how many acknowledgements it has, and
/// whether it is final.
pub fn tx_standing(status: Option<TransactionStatus>) -> (standing: (usize, bool))
    ensures
        standing == match status {
            Some(TransactionStatus::Confirmed { acks, .. }) => (acks, true),
            Some(TransactionStatus::Pending { acks, .. }) => (acks, false),
            _ => (0usize, false),
        },
{
    match status {
        Some(TransactionStatus::Confirmed { acks, .. }) => (acks, true),
        Some(TransactionStatus::Pending { acks, .. }) => (acks, false),
        _ => (0, false),
    }
}

} // verus!
