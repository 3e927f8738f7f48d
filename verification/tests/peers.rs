//! Peer bookkeeping, the download slot, transactions, and country codes.

use taron::block::{Block, Transaction};
use taron::geo::{lookup_url, Country, GeoCache};
use taron::hash::{hash_eq, hash_less, meets_target};
use taron::ledger::{ChainLedger, Ledger};
use taron::node::{NodeConfig, Opening, TaronNode};
use taron::params::{ChainParams, TaronError};
use taron::peers::{
    anchor_plan, any_with_ip, is_own_address, is_self_connection, missing_hashes, new_peers,
    outbound_candidates, stale_peers, without_self, AnchorPlan, Ip, PeerAddr, SECOND,
};
use taron::records::Records;
use taron::sync::{
    chunk_last, claim_slot, release_slot, release_stale_slot, should_probe, take_over_slot,
    RelayLock, Slot,
};
use taron::transactions::{tx_hash_of, tx_standing, TransactionStatus};

fn at(n: u32, port: u16) -> PeerAddr {
    PeerAddr { ip: Ip::V4(n), port, flow: 0, scope: 0 }
}

fn node() -> TaronNode<Ledger> {
    let genesis = Block {
        index: 0,
        prev_hash: [0; 32],
        timestamp: 0,
        miner: [0; 32],
        nonce: 0,
        hash: [0xaa; 32],
        reward: 0,
        transactions: vec![],
        difficulty_target: 0,
    };
    let opening = Opening {
        db: Records::new(),
        params: ChainParams { testnet_target: 1 << 48, testnet_reward: 10, checkpoints: vec![] },
        genesis,
        legacy: vec![],
        legacy_target: 0,
    };
    TaronNode::new(NodeConfig::default(), opening, Ledger::new(), 50)
}

fn transfer(sender: u8, recipient: u8, amount: u64, sequence: u64) -> Transaction {
    Transaction {
        hash: [sender ^ 0x80; 32],
        sender: [sender; 32],
        recipient: [recipient; 32],
        amount,
        sequence,
        proof_bytes: vec![1],
    }
}

#[test]
fn own_addresses_are_not_dialled() {
    let own = [Ip::V4(0x7f00_0001), Ip::V6(1)];
    assert!(is_own_address(at(0x7f00_0001, 8333), &own, 8333));
    assert!(!is_own_address(at(0x7f00_0001, 8334), &own, 8333));
    let seeds = [at(0x7f00_0001, 8333), at(5, 8333), at(0x7f00_0001, 9)];
    assert_eq!(without_self(&seeds, &own, 8333), vec![at(5, 8333), at(0x7f00_0001, 9)]);
}

#[test]
fn known_ips_are_not_new() {
    let connected = [at(1, 1), at(2, 2)];
    assert!(any_with_ip(&connected, Ip::V4(2)));
    assert_eq!(new_peers(&[at(1, 9), at(3, 3), at(2, 2)], &connected), vec![at(3, 3)]);
}

#[test]
fn candidates_are_seeds_then_discoveries() {
    let own = [Ip::V4(9)];
    let found = outbound_candidates(
        &[at(1, 1), at(2, 2)],
        &[at(9, 7), at(4, 4), at(1, 3)],
        &[at(1, 50)],
        &own,
        7,
    );
    assert_eq!(found, vec![at(2, 2), at(4, 4)]);
}

#[test]
fn stale_peers_are_found() {
    let peers = [(at(1, 1), 0), (at(2, 2), 100 * SECOND), (at(3, 3), 900 * SECOND)];
    assert_eq!(stale_peers(&peers, 600 * SECOND), vec![]);
    assert_eq!(stale_peers(&peers, 600 * SECOND + 1), vec![at(1, 1)]);
    assert_eq!(stale_peers(&peers, 701 * SECOND), vec![at(1, 1), at(2, 2)]);
}

#[test]
fn self_connections_are_detected() {
    let ip = Some(Ip::V4(7));
    assert!(is_self_connection(ip, ip, 8333, 8333));
    assert!(!is_self_connection(ip, ip, 8334, 8333));
    assert!(!is_self_connection(ip, Some(Ip::V4(8)), 8333, 8333));
    assert!(is_self_connection(None, None, 8333, 8333));
    assert!(!is_self_connection(ip, None, 8333, 8333));
}

#[test]
fn anchors_are_dialled_when_missing() {
    let own = [Ip::V4(1)];
    assert_eq!(anchor_plan(at(1, 5), &own, 5, false, true), AnchorPlan::Skip);
    assert_eq!(anchor_plan(at(2, 5), &own, 5, true, true), AnchorPlan::Skip);
    assert_eq!(anchor_plan(at(2, 5), &own, 5, false, true), AnchorPlan::Dial);
    assert_eq!(anchor_plan(at(2, 5), &own, 5, false, false), AnchorPlan::EvictThenDial);
}

#[test]
fn only_missing_hashes_are_asked_for() {
    let text = |s: &str| s.to_string();
    let offered = [text("a"), text("b"), text("c"), text("a")];
    assert_eq!(missing_hashes(&offered, &[text("b")]), vec![text("a"), text("c"), text("a")]);
}

#[test]
fn the_slot_has_one_holder() {
    let mut slot: Slot = None;
    assert!(!claim_slot(&mut slot, at(1, 1), false, 5));
    assert_eq!(slot, None);
    assert!(claim_slot(&mut slot, at(1, 1), true, 5));
    assert!(!claim_slot(&mut slot, at(2, 2), true, 6));
    assert!(claim_slot(&mut slot, at(1, 1), false, 7));
    assert_eq!(slot, Some((at(1, 1), 5)));
    assert!(!take_over_slot(&mut slot, at(2, 2), true, true, 6));
    assert!(take_over_slot(&mut slot, at(2, 2), true, false, 6));
    assert_eq!(slot, Some((at(2, 2), 6)));
    assert!(!release_stale_slot(&mut slot, 6 + 30 * SECOND));
    release_slot(&mut slot, at(1, 1));
    assert_eq!(slot, Some((at(2, 2), 6)));
    assert!(release_stale_slot(&mut slot, 7 + 30 * SECOND));
    assert_eq!(slot, None);
    assert!(should_probe(&slot, false, 1));
    assert!(!should_probe(&slot, true, 1));
    assert!(!should_probe(&slot, false, 0));
}

#[test]
fn the_relay_lock_holds_for_two_seconds() {
    let mut lock = RelayLock::new(0);
    assert!(lock.relay(5, &[7; 32], 10));
    assert!(!lock.relay(5, &[7; 32], 10 + SECOND));
    assert!(!lock.relay(5, &[8; 32], 10 + SECOND));
    assert!(lock.relay(5, &[6; 32], 10 + SECOND));
    assert_eq!(lock.at, 10 + SECOND);
    assert!(lock.relay(5, &[9; 32], 10 + 3 * SECOND));
    assert!(lock.relay(4, &[9; 32], 10 + 3 * SECOND));
    assert!(lock.relay(6, &[9; 32], 10 + 3 * SECOND));
    lock.set(1, &[0; 32], 3);
    assert_eq!((lock.height, lock.hash, lock.at), (1, [0; 32], 3));
}

#[test]
fn chunks_end_at_the_last_block() {
    assert_eq!(chunk_last(1, 50, 200), 50);
    assert_eq!(chunk_last(1, 50, 20), 20);
    assert_eq!(chunk_last(u64::MAX, u64::MAX, u64::MAX), u64::MAX);
}

#[test]
fn hashes_are_ordered_by_bytes() {
    let mut a = [5u8; 32];
    let b = [5u8; 32];
    assert!(hash_eq(&a, &b) && !hash_less(&a, &b));
    a[31] = 6;
    assert!(hash_less(&b, &a) && !hash_less(&a, &b));
    a[0] = 4;
    assert!(hash_less(&a, &b) && !hash_less(&b, &a));
    assert!(meets_target(&[0; 32], 1));
    assert!(!meets_target(&[0; 32], 0));
}

#[test]
fn transaction_hashes_are_read_from_text() {
    assert_eq!(tx_hash_of(&"0Fa9".repeat(16)), {
        let mut expected = [0u8; 32];
        for i in 0..16 {
            expected[2 * i] = 0x0f;
            expected[2 * i + 1] = 0xa9;
        }
        expected
    });
    assert_eq!(tx_hash_of("abcd"), [0; 32]);
    assert_eq!(tx_hash_of(&"zz".repeat(32)), [0; 32]);
    assert_eq!(tx_hash_of(&"1".repeat(63)), [0; 32]);
}

#[test]
fn the_standing_of_a_transaction() {
    let confirmed = TransactionStatus::Confirmed { acks: 3, finality_ms: 20 };
    let pending = TransactionStatus::Pending { acks: 2, quorum: 3 };
    assert_eq!(tx_standing(Some(confirmed)), (3, true));
    assert_eq!(tx_standing(Some(pending)), (2, false));
    assert_eq!(tx_standing(Some(TransactionStatus::Rejected)), (0, false));
    assert_eq!(tx_standing(None), (0, false));
}

#[test]
fn transactions_are_checked_before_they_are_carried_out() {
    let mut node = node();
    let session = node.meet(at(1, 1), &[], 0);
    let tx = transfer(1, 2, 4, 1);
    assert_eq!(node.check_tx(&tx), Err(TaronError::InsufficientBalance));
    assert!(!node.commit_tx(&session, &tx));
    assert!(node.peer_known_txs.is_empty());
    node.ledger.apply_coinbase(&[1; 32], 10);
    assert_eq!(node.check_tx(&transfer(1, 2, 4, 2)), Err(TaronError::InvalidSequence));
    assert_eq!(node.check_tx(&tx), Ok(()));
    assert_eq!(node.ledger.balance(&[2; 32]), 0);
    assert!(node.commit_tx(&session, &tx));
    assert_eq!(node.ledger.balance(&[2; 32]), 4);
    assert_eq!(node.peer_known_txs, vec![(at(1, 1), tx.hash)]);
    assert!(!node.commit_tx(&session, &tx));
    assert!(node.commit_tx(&session, &transfer(1, 2, 4, 2)));
    assert_eq!(node.peer_known_txs.len(), 1);
}

#[test]
fn a_transfer_to_oneself_keeps_the_balance() {
    let mut ledger = Ledger::new();
    ledger.apply_coinbase(&[1; 32], 10);
    assert_eq!(ledger.apply_tx(&transfer(1, 1, 10, 1)), Ok(()));
    assert_eq!(ledger.balance(&[1; 32]), 10);
    let copy = ledger.duplicate();
    ledger.revert_tx(&transfer(1, 1, 10, 1));
    assert_eq!(ledger.account(&[1; 32]).sequence, 0);
    assert_eq!(ledger.balance(&[1; 32]), 10);
    assert_eq!(copy.account(&[1; 32]).sequence, 1);
}

#[test]
fn discovered_peers_are_kept_once() {
    let mut node = node();
    node.hear_peers(&[at(1, 1), at(2, 2), at(1, 1), at(3, 3)], &[at(3, 9)]);
    node.hear_peers(&[at(2, 2), at(4, 4)], &[]);
    assert_eq!(node.drain_discovered(), vec![at(1, 1), at(2, 2), at(4, 4)]);
    assert!(node.drain_discovered().is_empty());
}

#[test]
fn countries_are_looked_up_once() {
    let mut cache = GeoCache::new();
    let ip = Ip::V4(0x0808_0808);
    assert!(matches!(cache.country(ip), Country::Unknown));
    assert_eq!(cache.record_body(ip, Some(br#"{"countryCode":"US"}"#.to_vec())), "US");
    assert!(matches!(cache.country(ip), Country::Known(code) if code == "US"));
    assert!(matches!(cache.country(Ip::V4(0x7f00_0001)), Country::Local));
    assert!(matches!(cache.country(Ip::V4(0)), Country::Local));
    assert!(matches!(cache.country(Ip::V6(1)), Country::Local));
    assert!(matches!(cache.country(Ip::V6(0)), Country::Local));
    assert!(matches!(cache.country(Ip::V6(0x0808_0808)), Country::Unknown));
}

#[test]
fn private_addresses_are_not_looked_up() {
    let cache = GeoCache::new();
    let local = [
        0x0a00_0000, 0x0aff_ffff, 0xac10_0000, 0xac1f_ffff, 0xc0a8_0000, 0xc0a8_0101, 0xc0a8_ffff,
    ];
    for bits in local {
        assert!(matches!(cache.country(Ip::V4(bits)), Country::Local));
    }
    let public = [0x09ff_ffff, 0x0b00_0000, 0xac0f_ffff, 0xac20_0000, 0xc0a7_ffff, 0xc0a9_0000];
    for bits in public {
        assert!(matches!(cache.country(Ip::V4(bits)), Country::Unknown));
    }
    assert!(matches!(cache.country(Ip::V6(0xfc00u128 << 112)), Country::Local));
    assert!(matches!(cache.country(Ip::V6((0xfe00u128 << 112) - 1)), Country::Local));
    assert!(matches!(cache.country(Ip::V6((0xfc00u128 << 112) - 1)), Country::Unknown));
    assert!(matches!(cache.country(Ip::V6(0xfe00u128 << 112)), Country::Unknown));
}

#[test]
fn a_failed_lookup_is_an_empty_code() {
    let mut cache = GeoCache::new();
    assert_eq!(cache.record_body(Ip::V4(1), None), "");
    assert_eq!(cache.record_body(Ip::V4(2), Some(b"no json".to_vec())), "");
    assert_eq!(cache.record_body(Ip::V4(3), Some(br#"{"countryCode":7}"#.to_vec())), "");
    assert_eq!(cache.record_body(Ip::V4(4), Some(br#"["countryCode"]"#.to_vec())), "");
    assert_eq!(cache.record(Ip::V6(5), Some("DE".to_string())), "DE");
    assert!(matches!(cache.country(Ip::V4(1)), Country::Known(code) if code.is_empty()));
    assert!(matches!(cache.country(Ip::V6(5)), Country::Known(code) if code == "DE"));
}

#[test]
fn the_lookup_address_names_the_ip() {
    assert_eq!(lookup_url("8.8.8.8"), "http://ip-api.com/json/8.8.8.8?fields=countryCode");
}
