//! Which peers are remembered, dialled and dropped, and what their transactions do.

use vstd::prelude::*;

use crate::block::{BlockModel, TxModel};
use crate::ledger::ChainLedger;
use crate::node::NodeModel;
use crate::peers::{Ip, PeerAddr, STALE_PEER_AFTER};
use crate::session::{PeerSession, IDLE_TIMEOUT};

verus! {

/// What a filtered list holds: what the list holds and the filter keeps.
proof fn lemma_filter_holds<A>(list: Seq<A>, keep: spec_fn(A) -> bool, a: A)
    ensures
        list.filter(keep).contains(a) <==> list.contains(a) && keep(a),
{
    if list.contains(a) && keep(a) {
        let i = choose|i: int| 0 <= i < list.len() && list[i] == a;
        list.lemma_filter_contains(keep, i);
    }
    if list.filter(keep).contains(a) {
        let i = choose|i: int| 0 <= i < list.filter(keep).len() && list.filter(keep)[i] == a;
        list.lemma_filter_pred(keep, i);
        list.lemma_filter_contains_rev(keep, a);
    }
}

/// Of the addresses that a peer tells about, those are new that share their IP address
/// with no connected peer, in the order in which they came.
pub proof fn law_which_peers_are_new(
    addrs: Seq<PeerAddr>,
    more: Seq<PeerAddr>,
    connected: Seq<PeerAddr>,
    addr: PeerAddr,
)
    ensures
        crate::peers::unconnected(addrs, connected).contains(addr) <==> addrs.contains(addr)
            && forall|i: int| 0 <= i < connected.len() ==> (#[trigger] connected[i]).ip != addr.ip,
        crate::peers::unconnected(addrs + more, connected) == crate::peers::unconnected(
            addrs,
            connected,
        ) + crate::peers::unconnected(more, connected),
{
    let keep = |a: PeerAddr| !crate::peers::has_ip(connected, a.ip);
    lemma_filter_holds(addrs, keep, addr);
    Seq::filter_distributes_over_add(addrs, more, keep);
}

/// A node dials every address but its own: one of its IP addresses with the port it
/// listens on. The order stays.
pub proof fn law_a_node_does_not_dial_itself(
    addrs: Seq<PeerAddr>,
    more: Seq<PeerAddr>,
    own_ips: Seq<Ip>,
    listen_port: u16,
    addr: PeerAddr,
)
    ensures
        crate::peers::foreign(addrs, own_ips, listen_port).contains(addr) <==> addrs.contains(addr)
            && !(own_ips.contains(addr.ip) && addr.port == listen_port),
        crate::peers::foreign(addrs + more, own_ips, listen_port) == crate::peers::foreign(
            addrs,
            own_ips,
            listen_port,
        ) + crate::peers::foreign(more, own_ips, listen_port),
{
    let keep = |a: PeerAddr| !crate::peers::is_self(a, own_ips, listen_port);
    lemma_filter_holds(addrs, keep, addr);
    Seq::filter_distributes_over_add(addrs, more, keep);
}

/// The peers that are dropped are those that were last heard longer ago than is
/// allowed.
pub proof fn law_which_peers_are_dropped(peers: Seq<(PeerAddr, u64)>, now: u64, addr: PeerAddr)
    ensures
        crate::peers::stale_among(peers, now).contains(addr) <==> exists|i: int|
            0 <= i < peers.len() && (#[trigger] peers[i]).0 == addr && now > peers[i].1
                + STALE_PEER_AFTER,
{
    let keep = |p: (PeerAddr, u64)| crate::peers::stale(p.1, now);
    let gone = peers.filter(keep);
    let named = crate::peers::stale_among(peers, now);
    if named.contains(addr) {
        let k = choose|k: int| 0 <= k < named.len() && named[k] == addr;
        assert(gone[k].0 == addr);
        assert(gone.contains(gone[k]));
        lemma_filter_holds(peers, keep, gone[k]);
        let i = choose|i: int| 0 <= i < peers.len() && peers[i] == gone[k];
        assert(peers[i].0 == addr);
    }
    if exists|i: int|
        0 <= i < peers.len() && (#[trigger] peers[i]).0 == addr && now > peers[i].1
            + STALE_PEER_AFTER {
        let i = choose|i: int|
            0 <= i < peers.len() && (#[trigger] peers[i]).0 == addr && now > peers[i].1
                + STALE_PEER_AFTER;
        lemma_filter_holds(peers, keep, peers[i]);
        assert(peers.contains(peers[i]));
        let k = choose|k: int| 0 <= k < gone.len() && gone[k] == peers[i];
        assert(named[k] == addr);
    }
}

/// Of the transactions that a peer offers, those are asked for that the mempool does
/// not hold.
pub proof fn law_which_transactions_are_asked_for(
    offered: Seq<Seq<char>>,
    pooled: Seq<Seq<char>>,
    text: Seq<char>,
)
    ensures
        crate::peers::texts_missing(offered, pooled).contains(text) <==> offered.contains(text)
            && !pooled.contains(text),
{
    lemma_filter_holds(offered, |t: Seq<char>| !pooled.contains(t), text);
}

/// A node remembers the peers that it is told about and that share their IP address
/// with no connected one, each once, beside those it remembers already; nothing else
/// changes.
pub proof fn law_which_peers_are_remembered<L: ChainLedger>(
    node: NodeModel<L>,
    addrs: Seq<PeerAddr>,
    connected: Seq<PeerAddr>,
    addr: PeerAddr,
)
    requires
        node.discovered.no_duplicates(),
    ensures
        ({
            let after = node.told_peers(addrs, connected);
            &&& after.discovered.no_duplicates()
            &&& after.discovered.contains(addr) <==> node.discovered.contains(addr) || (
            addrs.contains(addr) && forall|i: int|
                0 <= i < connected.len() ==> (#[trigger] connected[i]).ip != addr.ip)
            &&& after == (NodeModel { discovered: after.discovered, ..node })
        }),
{
    let fresh = crate::peers::unconnected(addrs, connected);
    law_which_peers_are_new(addrs, Seq::empty(), connected, addr);
    crate::transactions::law_noting_adds_each_once(node.discovered, fresh, fresh.len() as int);
    assert(fresh.take(fresh.len() as int) =~= fresh);
    assert(node.told_peers(addrs, connected).discovered.contains(addr)
        <==> node.discovered.contains(addr) || fresh.contains(addr));
}

/// A transaction of a peer is carried out on the ledger exactly if the ledger agrees;
/// then it is noted that the peer has it, beside what was noted before. The chain and
/// the download do not notice either way.
pub proof fn law_what_a_transaction_leads_to<L: ChainLedger>(
    node: NodeModel<L>,
    session: PeerSession,
    tx: TxModel,
)
    ensures
        ({
            let (after, ok) = node.committed(session, tx);
            &&& ok == L::paid(node.ledger, tx).1
            &&& after.ledger == L::paid(node.ledger, tx).0
            &&& !ok ==> after.known == node.known
            &&& ok ==> after.known.contains((session.addr, tx.hash))
            &&& ok ==> forall|e: (PeerAddr, [u8; 32])|
                e != (session.addr, tx.hash) ==> (#[trigger] after.known.contains(e)
                    <==> node.known.contains(e))
            &&& after == (NodeModel { ledger: after.ledger, known: after.known, ..node })
        }),
{
    let entry = (session.addr, tx.hash);
    let after = node.committed(session, tx).0;
    if L::paid(node.ledger, tx).1 {
        crate::transactions::law_checked_tx_commits(node, session, tx);
        assert forall|e: (PeerAddr, [u8; 32])| e != entry implies (
        #[trigger] after.known.contains(e) <==> node.known.contains(e)) by {
            vstd::seq_lib::lemma_seq_contains_after_push(node.known, entry, e);
        }
    }
}

/// Which addresses of version 4 no other network knows, by their four numbers: those
/// that begin with 127 or 10, with 172 and a number from 16 to 31, or with 192 and 168,
/// and the one that is all zeros. Any other is looked up unless it is in the cache.
pub proof fn law_which_addresses_are_local(
    a: u8,
    b: u8,
    c: u8,
    d: u8,
    cache: Map<Ip, Seq<char>>,
)
    ensures
        ({
            let ip = Ip::V4(
                (a * 0x100_0000 + b * 0x1_0000 + c * 0x100 + d) as u32,
            );
            let local = a == 127 || a == 10 || (a == 172 && 16 <= b <= 31) || (a == 192 && b
                == 168) || (a == 0 && b == 0 && c == 0 && d == 0);
            &&& ip.local() == local
            &&& crate::geo::asks(cache, ip) <==> !local && !cache.dom().contains(ip)
        }),
{
}

/// A chunk of blocks to ask for starts where it is told to, holds no more blocks than
/// fit, and ends with the last block or with a full chunk.
pub proof fn law_a_chunk_is_full_or_reaches_the_end(from: u64, chunk: u64, last: u64)
    requires
        0 < from <= last,
        0 < chunk,
    ensures
        ({
            let to = crate::sync::chunk_end(from, chunk, last);
            &&& from <= to <= last
            &&& to - from < chunk
            &&& to == last || to - from + 1 == chunk
        }),
{
}

/// A peer is disconnected once nothing came from it for longer than the limit, and not
/// before.
pub proof fn law_when_a_peer_counts_as_silent(session: PeerSession, heard: u64, silence: u64)
    requires
        heard + silence <= u64::MAX,
    ensures
        (PeerSession { last_recv: heard, ..session }).idle((heard + silence) as u64) <==> silence
            > IDLE_TIMEOUT,
{
}

/// The keys under which the mempool holds a block's transactions are texts from which
/// their hashes can be read again, in their order.
pub proof fn law_transactions_are_found_by_their_hashes(block: BlockModel, i: int)
    requires
        0 <= i < block.transactions.len(),
    ensures
        crate::transactions::tx_hash_texts(block).len() == block.transactions.len(),
        crate::hash::hex_bytes(crate::transactions::tx_hash_texts(block)[i]) == Some(
            block.transactions[i].hash@,
        ),
{
    crate::hash::law_hex_round_trip(block.transactions[i].hash@);
}

} // verus!
