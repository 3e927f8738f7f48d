//! Peer addresses, and which of them to remember, to dial, and to drop.

use vstd::prelude::*;

verus! {

/// Nanoseconds in a second. Moments are nanoseconds since the node started.
pub const SECOND: u64 = 1_000_000_000;

/// A peer that was silent for longer than this is dropped.
pub const STALE_PEER_AFTER: u64 = 600_000_000_000;

/// An IP address.
#[derive(Debug, Clone, Copy, PartialEq, Eq, Structural)]
pub enum Ip {
    V4(u32),
    V6(u128),
}

impl Ip {
    /// Whether this is an address of the machine itself: 127.0.0.0/8 or ::1.
    pub open spec fn loopback(self) -> bool {
        match self {
            Ip::V4(bits) => bits / 0x100_0000 == 127,
            Ip::V6(bits) => bits == 1,
        }
    }

    /// Whether this is the address that stands for none: 0.0.0.0 or ::.
    pub open spec fn unspecified(self) -> bool {
        match self {
            Ip::V4(bits) => bits == 0,
            Ip::V6(bits) => bits == 0,
        }
    }

    /// Whether this is an address within a private network: 10.0.0.0/8,
    /// 172.16.0.0/12, 192.168.0.0/16 or fc00::/7.
    pub open spec fn private(self) -> bool {
        match self {
            Ip::V4(bits) => bits / 0x100_0000 == 10 || bits / 0x10_0000 == 0xac1 || bits / 0x1_0000
                == 0xc0a8,
            Ip::V6(bits) => bits / 0x200_0000_0000_0000_0000_0000_0000_0000 == 0x7e,
        }
    }

    /// Whether no other network knows this address.
    pub open spec fn local(self) -> bool {
        self.loopback() || self.unspecified() || self.private()
    }

    /// Whether no other network knows this address: it is one of the machine itself,
    /// stands for none, or lies within a private network.
    pub fn is_local(&self) -> (yes: bool)
        ensures
            yes == self.local(),
    {
        self.is_loopback() || self.is_unspecified() || self.is_private()
    }

    /// Whether this is an address within a private network.
    pub fn is_private(&self) -> (yes: bool)
        ensures
            yes == self.private(),
    {
        match *self {
            Ip::V4(bits) => bits / 0x100_0000 == 10 || bits / 0x10_0000 == 0xac1 || bits / 0x1_0000
                == 0xc0a8,
            Ip::V6(bits) => bits / 0x200_0000_0000_0000_0000_0000_0000_0000 == 0x7e,
        }
    }

    /// Whether this is an address of the machine itself.
    pub fn is_loopback(&self) -> (yes: bool)
        ensures
            yes == self.loopback(),
    {
        match *self {
            Ip::V4(bits) => bits / 0x100_0000 == 127,
            Ip::V6(bits) => bits == 1,
        }
    }

    /// Whether this is the address that stands for none.
    pub fn is_unspecified(&self) -> (yes: bool)
        ensures
            yes == self.unspecified(),
    {
        match *self {
            Ip::V4(bits) => bits == 0,
            Ip::V6(bits) => bits == 0,
        }
    }
}

/// A peer's address: an IP address and a port, and for version 6 the flow and
/// the scope, which are zero otherwise.
#[derive(Debug, Clone, Copy, PartialEq, Eq, Structural)]
pub struct PeerAddr {
    pub ip: Ip,
    pub port: u16,
    pub flow: u32,
    pub scope: u32,
}

/// Whether one of some addresses has an IP address.
pub open spec fn has_ip(addrs: Seq<PeerAddr>, ip: Ip) -> bool {
    exists|i: int| 0 <= i < addrs.len() && (#[trigger] addrs[i]).ip == ip
}

/// Whether an address is this node's own listening socket.
pub open spec fn is_self(addr: PeerAddr, own_ips: Seq<Ip>, listen_port: u16) -> bool {
    own_ips.contains(addr.ip) && addr.port == listen_port
}

/// The addresses that share no IP address with one of `connected`.
pub open spec fn unconnected(addrs: Seq<PeerAddr>, connected: Seq<PeerAddr>) -> Seq<PeerAddr> {
    addrs.filter(|a: PeerAddr| !has_ip(connected, a.ip))
}

/// The addresses that are not this node's own listening socket.
pub open spec fn foreign(
    addrs: Seq<PeerAddr>,
    own_ips: Seq<Ip>,
    listen_port: u16,
) -> Seq<PeerAddr> {
    addrs.filter(|a: PeerAddr| !is_self(a, own_ips, listen_port))
}

/// Whether a peer that was last heard at `last_seen` counts as gone.
pub open spec fn stale(last_seen: u64, now: u64) -> bool {
    now - last_seen > STALE_PEER_AFTER
}

proof fn lemma_filter_step<A>(s: Seq<A>, n: int, keep: spec_fn(A) -> bool)
    requires
        0 <= n < s.len(),
    ensures
        s.take(n + 1).filter(keep) == if keep(s[n]) {
            s.take(n).filter(keep).push(s[n])
        } else {
            s.take(n).filter(keep)
        },
{
    reveal(Seq::filter);
    assert(s.take(n + 1).drop_last() =~= s.take(n));
}

proof fn lemma_filter_ends<A>(s: Seq<A>, keep: spec_fn(A) -> bool)
    ensures
        s.take(0).filter(keep) == Seq::<A>::empty(),
        s.take(s.len() as int) == s,
{
    reveal(Seq::filter);
    assert(s.take(s.len() as int) =~= s);
}

/// Whether a list holds an IP address.
pub fn contains_ip(ips: &[Ip], ip: Ip) -> (found: bool)
    ensures
        found == ips@.contains(ip),
{
    let mut i: usize = 0;
    while i < ips.len()
        invariant
            i <= ips.len(),
            forall|j: int| 0 <= j < i ==> ips@[j] != ip,
        decreases ips.len() - i,
    {
        if ips[i] == ip {
            assert(ips@[i as int] == ip);
            return true;
        }
        i = i + 1;
    }
    false
}

/// Whether one of some addresses has an IP address.
pub fn any_with_ip(addrs: &[PeerAddr], ip: Ip) -> (found: bool)
    ensures
        found == has_ip(addrs@, ip),
{
    let mut i: usize = 0;
    while i < addrs.len()
        invariant
            i <= addrs.len(),
            forall|j: int| 0 <= j < i ==> (#[trigger] addrs@[j]).ip != ip,
        decreases addrs.len() - i,
    {
        if addrs[i].ip == ip {
            assert(addrs@[i as int].ip == ip);
            return true;
        }
        i = i + 1;
    }
    false
}

/// Whether an address is this node's own listening socket.
pub fn is_own_address(addr: PeerAddr, own_ips: &[Ip], listen_port: u16) -> (own: bool)
    ensures
        own == is_self(addr, own_ips@, listen_port),
{
    contains_ip(own_ips, addr.ip) && addr.port == listen_port
}

/// The addresses a peer told us about that belong to no connected peer.
pub fn new_peers(addrs: &[PeerAddr], connected: &[PeerAddr]) -> (fresh: Vec<PeerAddr>)
    ensures
        fresh@ == unconnected(addrs@, connected@),
{
    let mut fresh: Vec<PeerAddr> = Vec::new();
    let ghost keep = |a: PeerAddr| !has_ip(connected@, a.ip);
    proof {
        lemma_filter_ends(addrs@, keep);
    }
    let mut i: usize = 0;
    while i < addrs.len()
        invariant
            i <= addrs.len(),
            keep == (|a: PeerAddr| !has_ip(connected@, a.ip)),
            fresh@ == addrs@.take(i as int).filter(keep),
        decreases addrs.len() - i,
    {
        proof {
            lemma_filter_step(addrs@, i as int, keep);
        }
        if !any_with_ip(connected, addrs[i].ip) {
            fresh.push(addrs[i]);
        }
        i = i + 1;
    }
    fresh
}

/// The addresses without this node itself.
pub fn without_self(seeds: &[PeerAddr], own_ips: &[Ip], listen_port: u16) -> (others: Vec<
    PeerAddr,
>)
    ensures
        others@ == foreign(seeds@, own_ips@, listen_port),
{
    let mut others: Vec<PeerAddr> = Vec::new();
    let ghost keep = |a: PeerAddr| !is_self(a, own_ips@, listen_port);
    proof {
        lemma_filter_ends(seeds@, keep);
    }
    let mut i: usize = 0;
    while i < seeds.len()
        invariant
            i <= seeds.len(),
            keep == (|a: PeerAddr| !is_self(a, own_ips@, listen_port)),
            others@ == seeds@.take(i as int).filter(keep),
        decreases seeds.len() - i,
    {
        proof {
            lemma_filter_step(seeds@, i as int, keep);
        }
        if !is_own_address(seeds[i], own_ips, listen_port) {
            others.push(seeds[i]);
        }
        i = i + 1;
    }
    others
}

/// The addresses to try when there is room for more outbound peers: the seeds,
/// then the discovered peers, without those that are connected already and
/// without this node itself.
pub fn outbound_candidates(
    seeds: &[PeerAddr],
    discovered: &[PeerAddr],
    connected: &[PeerAddr],
    own_ips: &[Ip],
    listen_port: u16,
) -> (candidates: Vec<PeerAddr>)
    ensures
        candidates@ == foreign(unconnected(seeds@, connected@), own_ips@, listen_port) + foreign(
            unconnected(discovered@, connected@),
            own_ips@,
            listen_port,
        ),
{
    let from_seeds = new_peers(seeds, connected);
    let from_discovery = new_peers(discovered, connected);
    let mut candidates = without_self(from_seeds.as_slice(), own_ips, listen_port);
    let mut rest = without_self(from_discovery.as_slice(), own_ips, listen_port);
    candidates.append(&mut rest);
    candidates
}

/// Addresses and when each was last heard, as the peer table lists them; the
/// addresses that count as gone.
pub open spec fn stale_among(peers: Seq<(PeerAddr, u64)>, now: u64) -> Seq<PeerAddr> {
    peers.filter(|p: (PeerAddr, u64)| stale(p.1, now)).map_values(|p: (PeerAddr, u64)| p.0)
}

/// The peers to drop because they were silent for too long.
pub fn stale_peers(peers: &[(PeerAddr, u64)], now: u64) -> (gone: Vec<PeerAddr>)
    ensures
        gone@ == stale_among(peers@, now),
{
    let mut gone: Vec<PeerAddr> = Vec::new();
    let ghost keep = |p: (PeerAddr, u64)| stale(p.1, now);
    let ghost addr = |p: (PeerAddr, u64)| p.0;
    proof {
        lemma_filter_ends(peers@, keep);
    }
    assert(gone@ =~= peers@.take(0).filter(keep).map_values(addr));
    let mut i: usize = 0;
    while i < peers.len()
        invariant
            i <= peers.len(),
            keep == (|p: (PeerAddr, u64)| stale(p.1, now)),
            addr == (|p: (PeerAddr, u64)| p.0),
            gone@ == peers@.take(i as int).filter(keep).map_values(addr),
        decreases peers.len() - i,
    {
        proof {
            lemma_filter_step(peers@, i as int, keep);
        }
        let ghost before = peers@.take(i as int).filter(keep);
        if now > peers[i].1 && now - peers[i].1 > STALE_PEER_AFTER {
            gone.push(peers[i].0);
            assert(gone@ =~= before.push(peers@[i as int]).map_values(addr));
        }
        i = i + 1;
    }
    gone
}

/// Whether a fresh outbound connection turned out to lead back to this node: both
/// ends have the same IP address, and the port is our own.
pub fn is_self_connection(
    local: Option<Ip>,
    remote: Option<Ip>,
    port: u16,
    our_port: u16,
) -> (own: bool)
    ensures
        own == (local == remote && port == our_port),
{
    let same = match (local, remote) {
        (Some(a), Some(b)) => a == b,
        (None, None) => true,
        _ => false,
    };
    same && port == our_port
}

/// What to do about an anchor, a peer that should always be connected.
#[derive(Debug, Clone, Copy, PartialEq, Eq, Structural)]
pub enum AnchorPlan {
    /// Nothing: it is this node itself, or connected already.
    Skip,
    Dial,
    /// Dial it once the oldest outbound peer that is no anchor has made room.
    EvictThenDial,
}

/// What to do about an anchor, given whether it is connected and whether there is
/// room for another outbound peer.
pub fn anchor_plan(
    anchor: PeerAddr,
    own_ips: &[Ip],
    listen_port: u16,
    connected: bool,
    room: bool,
) -> (plan: AnchorPlan)
    ensures
        plan == if is_self(anchor, own_ips@, listen_port) || connected {
            AnchorPlan::Skip
        } else if room {
            AnchorPlan::Dial
        } else {
            AnchorPlan::EvictThenDial
        },
{
    if is_own_address(anchor, own_ips, listen_port) || connected {
        AnchorPlan::Skip
    } else if room {
        AnchorPlan::Dial
    } else {
        AnchorPlan::EvictThenDial
    }
}

/// The texts of a list that are not in another one.
pub open spec fn texts_missing(texts: Seq<Seq<char>>, known: Seq<Seq<char>>) -> Seq<Seq<char>> {
    texts.filter(|t: Seq<char>| !known.contains(t))
}

/// The contents of a list of texts.
pub open spec fn text_models(texts: Seq<String>) -> Seq<Seq<char>> {
    texts.map_values(|t: String| t@)
}

fn contains_text(texts: &[String], text: &String) -> (found: bool)
    ensures
        found == text_models(texts@).contains(text@),
{
    let mut i: usize = 0;
    while i < texts.len()
        invariant
            i <= texts.len(),
            forall|j: int| 0 <= j < i ==> text_models(texts@)[j] != text@,
        decreases texts.len() - i,
    {
        if texts[i] == *text {
            assert(text_models(texts@)[i as int] == text@);
            return true;
        }
        i = i + 1;
    }
    false
}

/// The transaction hashes that a peer offers and the mempool does not hold.
pub fn missing_hashes(offered: &[String], pooled: &[String]) -> (missing: Vec<String>)
    ensures
        text_models(missing@) == texts_missing(text_models(offered@), text_models(pooled@)),
{
    let mut missing: Vec<String> = Vec::new();
    let ghost keep = |t: Seq<char>| !text_models(pooled@).contains(t);
    let ghost all = text_models(offered@);
    proof {
        lemma_filter_ends(all, keep);
    }
    assert(text_models(missing@) =~= all.take(0).filter(keep));
    let mut i: usize = 0;
    while i < offered.len()
        invariant
            i <= offered.len(),
            all == text_models(offered@),
            keep == (|t: Seq<char>| !text_models(pooled@).contains(t)),
            text_models(missing@) == all.take(i as int).filter(keep),
        decreases offered.len() - i,
    {
        proof {
            lemma_filter_step(all, i as int, keep);
        }
        let ghost before = missing@;
        assert(all[i as int] == offered@[i as int]@);
        if !contains_text(pooled, &offered[i]) {
            let text = offered[i].clone();
            missing.push(text);
            assert(text_models(missing@) =~= text_models(before).push(all[i as int]));
        }
        i = i + 1;
    }
    missing
}

} // verus!
