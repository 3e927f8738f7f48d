//! The node: submissions, announcements, and the initial download.

use taron::apply::{BlockChecks, TxCheck};
use taron::block::{Block, Transaction};
use taron::ledger::{ChainLedger, Ledger};
use taron::node::{NodeConfig, Opening, TaronNode, DEFAULT_PORT};
use taron::params::ChainParams;
use taron::peers::{Ip, PeerAddr, SECOND};
use taron::records::{Meta, Records, Write};
use taron::session::{
    wrong_genesis, Announced, BlockStep, LocatorStep, PeerSession, SyncStep, Tick,
};

const TARGET: u64 = 1 << 48;
const REWARD: u64 = 5_000_000;
const CHUNK: u64 = 50;
const LATER: u64 = 100 * SECOND;

fn genesis() -> Block {
    Block {
        index: 0,
        prev_hash: [0; 32],
        timestamp: 1_700_000_000_000,
        miner: [0; 32],
        nonce: 0,
        hash: [0xaa; 32],
        reward: 0,
        transactions: vec![],
        difficulty_target: 0,
    }
}

fn opening() -> Opening {
    Opening {
        db: Records::new(),
        params: ChainParams { testnet_target: TARGET, testnet_reward: REWARD, checkpoints: vec![] },
        genesis: genesis(),
        legacy: vec![],
        legacy_target: 0,
    }
}

fn node() -> TaronNode<Ledger> {
    TaronNode::new(NodeConfig::default(), opening(), Ledger::new(), CHUNK)
}

fn addr(n: u32) -> PeerAddr {
    PeerAddr { ip: Ip::V4(0x0a00_0000 + n), port: 8333, flow: 0, scope: 0 }
}

fn passing() -> BlockChecks {
    BlockChecks { header_ok: true, txs: vec![] }
}

fn block_on(parent: &Block, salt: u8) -> Block {
    let mut hash = [0u8; 32];
    hash[8..16].copy_from_slice(&(parent.index + 1).to_be_bytes());
    hash[16] = salt;
    Block {
        index: parent.index + 1,
        prev_hash: parent.hash,
        timestamp: parent.timestamp + 30_000,
        miner: [salt; 32],
        nonce: 0,
        hash,
        reward: REWARD,
        transactions: vec![],
        difficulty_target: TARGET,
    }
}

fn branch(parent: &Block, n: usize, salt: u8) -> Vec<Block> {
    let mut blocks: Vec<Block> = vec![];
    for _ in 0..n {
        let next = block_on(blocks.last().unwrap_or(parent), salt);
        blocks.push(next);
    }
    blocks
}

fn grow(node: &mut TaronNode<Ledger>, n: usize) {
    for _ in 0..n {
        let block = block_on(&node.blockchain.tip(), 50);
        assert!(node.submit_mined_block(&block, &passing(), 0));
    }
}

#[test]
fn test_node_config_default() {
    let config = NodeConfig::default();
    assert_eq!(config.listen_port, 8333);
    assert!(config.seed_nodes.is_empty());
    assert!(config.enable_discovery);
    assert!(config.data_dir.is_none());
    assert_eq!(DEFAULT_PORT, 8333);
}

#[test]
fn test_node_status() {
    let node = node();
    let status = node.status(0, 0, 0, 0, 16);
    assert_eq!(status.peer_count, 0);
    assert_eq!(status.mempool_size, 0);
    assert_eq!(status.chain_height, 0);
    assert_eq!(status.listen_port, 8333);
    assert_eq!(status.account_count, 0);
    assert_eq!(status.total_supply, 0);
    assert_eq!(status.difficulty, 16);
    assert_eq!(status.difficulty_target, TARGET);
    assert_eq!(status.best_hash, "aa".repeat(32));
}

#[test]
fn a_node_starts_idle() {
    let node = TaronNode::new_testnet(NodeConfig::default(), opening(), Ledger::new(), CHUNK);
    assert!(!node.sync_ready);
    assert!(!node.seed_seen);
    assert_eq!(node.ibd_peer, None);
    assert_eq!(node.relay_lock.height, 0);
    assert_eq!(node.relay_lock.hash, [0xff; 32]);
    assert_eq!(node.ibd_chunk_size, CHUNK);
}

#[test]
fn unusable_records_do_not_open() {
    let mut no_tip = opening();
    no_tip.db.load_meta(Meta::Height, 5u64.to_le_bytes().to_vec());
    assert!(TaronNode::open(NodeConfig::default(), no_tip, Ledger::new(), CHUNK).is_none());

    let mut unreadable = opening();
    unreadable.db.load_meta(Meta::Height, 0u64.to_le_bytes().to_vec());
    unreadable.db.load_block(0, vec![1, 2, 3]);
    assert!(TaronNode::open(NodeConfig::default(), unreadable, Ledger::new(), CHUNK).is_none());

    let opened = TaronNode::open(NodeConfig::default(), opening(), Ledger::new(), CHUNK).unwrap();
    assert_eq!(opened.chain_height, 0);
}

#[test]
fn a_node_starts_on_an_open_chain() {
    let chain = opening().open_chain().unwrap();
    let mut ledger = Ledger::new();
    ledger.apply_coinbase(&[7; 32], 12);
    let node = TaronNode::start(NodeConfig::default(), chain, ledger, CHUNK);
    assert_eq!(node.chain_height, 0);
    assert_eq!(node.cached_difficulty, TARGET);
    assert_eq!(node.cached_account_count, 1);
    assert_eq!(node.cached_total_supply, 12);
    assert_eq!(node.ledger.balance(&[7; 32]), 12);
    assert_eq!(node.ibd_chunk_size, CHUNK);

    let mut no_tip = opening();
    no_tip.db.load_meta(Meta::Height, 5u64.to_le_bytes().to_vec());
    assert!(no_tip.open_chain().is_none());
}

#[test]
fn a_submitted_block_becomes_the_tip() {
    let mut node = node();
    let block = block_on(&genesis(), 1);
    assert!(node.submit_mined_block(&block, &passing(), 7));
    assert_eq!(node.chain_height, 1);
    assert_eq!(node.cached_difficulty, TARGET);
    assert_eq!(node.cached_account_count, 1);
    assert_eq!(node.cached_total_supply, REWARD);
    let expected: String = block.hash.iter().map(|b| format!("{:02x}", b)).collect();
    assert_eq!(node.cached_best_hash, expected);
    assert_eq!((node.relay_lock.height, node.relay_lock.hash, node.relay_lock.at), (1, block.hash, 7));
}

#[test]
fn a_stale_submission_is_turned_down() {
    let mut node = node();
    grow(&mut node, 2);
    let stale = block_on(&genesis(), 1);
    assert!(!node.submit_mined_block(&stale, &passing(), 0));
    let mut bad = block_on(&node.blockchain.tip(), 1);
    bad.reward = 1;
    assert!(!node.submit_mined_block(&bad, &passing(), 0));
    assert_eq!(node.chain_height, 2);
}

#[test]
fn an_announced_next_block_is_taken_and_passed_on() {
    let mut node = node();
    let mut session = node.meet(addr(1), &[], LATER);
    let block = block_on(&genesis(), 5);
    assert_eq!(node.announce(&mut session, 1, LATER), Announced::Process);
    let step = node.process_block(&mut session, &block, &passing(), &passing(), LATER);
    assert!(matches!(step, BlockStep::Relay));
    assert_eq!(node.chain_height, 1);
}

#[test]
fn a_worse_block_at_a_locked_height_is_not_passed_on() {
    let mut node = node();
    let mut session = node.meet(addr(1), &[], LATER);
    let better = block_on(&genesis(), 5);
    let worse = block_on(&genesis(), 6);
    node.broadcast_block(&better, LATER);
    let step = node.process_block(&mut session, &worse, &passing(), &passing(), LATER + SECOND);
    assert!(matches!(step, BlockStep::Return));
    assert_eq!(node.chain_height, 1);
    assert_eq!(node.relay_lock.hash, better.hash);
}

#[test]
fn the_lower_hash_takes_the_tip() {
    let mut node = node();
    let mut session = node.meet(addr(1), &[], LATER);
    let first = block_on(&genesis(), 5);
    let lower = block_on(&genesis(), 4);
    let higher = block_on(&genesis(), 6);
    assert!(node.submit_mined_block(&first, &passing(), 0));

    assert_eq!(node.announce(&mut session, 1, LATER), Announced::Process);
    let step = node.process_block(&mut session, &higher, &passing(), &passing(), LATER);
    assert!(matches!(step, BlockStep::Ignore));
    assert_eq!(node.blockchain.tip(), first);

    match node.process_block(&mut session, &lower, &passing(), &passing(), LATER) {
        BlockStep::Replaced(old) => assert_eq!(old, first),
        _ => panic!("the tip should have been replaced"),
    }
    assert_eq!(node.blockchain.tip(), lower);
    assert_eq!(node.chain_height, 1);
    assert_eq!(node.ledger.balance(&[4; 32]), REWARD);
    assert_eq!(node.ledger.balance(&[5; 32]), 0);
    assert_eq!(node.relay_lock.hash, lower.hash);
}

#[test]
fn only_the_holder_of_the_slot_reorganises() {
    let mut node = node();
    let mut holder = node.meet(addr(1), &[], LATER);
    let mut other = node.meet(addr(2), &[], LATER);
    let first = block_on(&genesis(), 5);
    let lower = block_on(&genesis(), 4);
    assert!(node.submit_mined_block(&first, &passing(), 0));
    assert!(node.hear_height(&mut holder, 9, true, LATER));
    let step = node.process_block(&mut other, &lower, &passing(), &passing(), LATER);
    assert!(matches!(step, BlockStep::Ignore));
    assert_eq!(node.blockchain.tip(), first);
    let mut foreign = block_on(&first, 1);
    foreign.prev_hash = [3; 32];
    let step = node.process_block(&mut other, &foreign, &passing(), &passing(), LATER);
    assert!(matches!(step, BlockStep::Ignore));
    let step = node.process_block(&mut holder, &lower, &passing(), &passing(), LATER);
    assert!(matches!(step, BlockStep::Replaced(_)));
}

#[test]
fn a_failed_competition_puts_the_tip_back() {
    let mut node = node();
    let mut session = node.meet(addr(1), &[], LATER);
    let first = block_on(&genesis(), 5);
    assert!(node.submit_mined_block(&first, &passing(), 0));
    let lower = block_on(&genesis(), 4);
    // The checks of its transactions do not match: valid as a header only.
    let unpaid = BlockChecks {
        header_ok: true,
        txs: vec![TxCheck { structure_ok: true, signature_ok: true }],
    };
    let step = node.process_block(&mut session, &lower, &unpaid, &passing(), LATER);
    assert!(matches!(step, BlockStep::Ignore));
    assert_eq!(node.blockchain.tip(), first);
    assert_eq!(node.ledger.balance(&[5; 32]), REWARD);
    assert_eq!(node.cached_total_supply, REWARD);
}

#[test]
fn a_competitor_that_cannot_pay_earns_nothing() {
    let mut node = node();
    let mut session = node.meet(addr(1), &[], LATER);
    let first = block_on(&genesis(), 5);
    assert!(node.submit_mined_block(&first, &passing(), 0));
    let mut lower = block_on(&genesis(), 4);
    lower.transactions.push(Transaction {
        hash: [1; 32],
        sender: [8; 32],
        recipient: [9; 32],
        amount: 1,
        sequence: 1,
        proof_bytes: vec![],
    });
    let checks = BlockChecks {
        header_ok: true,
        txs: vec![TxCheck { structure_ok: true, signature_ok: true }],
    };
    let step = node.process_block(&mut session, &lower, &checks, &passing(), LATER);
    assert!(matches!(step, BlockStep::Ignore));
    assert_eq!(node.blockchain.tip(), first);
    assert_eq!(node.ledger.balance(&[4; 32]), 0);
    assert_eq!(node.ledger.balance(&[5; 32]), REWARD);
    assert_eq!(node.ledger.total_supply(), REWARD);
}

#[test]
fn a_block_on_a_fork_asks_for_the_blocks_before_it() {
    let mut node = node();
    let mut session = node.meet(addr(1), &[], LATER);
    grow(&mut node, 12);
    let mut foreign = block_on(&node.blockchain.tip(), 1);
    foreign.prev_hash = [3; 32];
    match node.process_block(&mut session, &foreign, &passing(), &passing(), LATER) {
        BlockStep::Request { from, to } => assert_eq!((from, to), (2, 13)),
        _ => panic!("blocks should have been asked for"),
    }
    let old = block_on(&genesis(), 9);
    let step = node.process_block(&mut session, &old, &passing(), &passing(), LATER);
    assert!(matches!(step, BlockStep::Ignore));
}

#[test]
fn a_block_far_ahead_starts_the_download() {
    let mut node = node();
    let mut first = node.meet(addr(1), &[], LATER);
    let mut second = node.meet(addr(2), &[], LATER);
    assert_eq!(node.announce(&mut first, 10, LATER), Announced::AskLocator);
    assert_eq!(first.peer_height, Some(10));
    assert_eq!(node.ibd_peer, Some((addr(1), LATER)));
    // Another peer has to wait; the first one only updates its height.
    assert_eq!(node.announce(&mut second, 11, LATER), Announced::Ignore);
    assert_eq!(second.peer_height, None);
    assert_eq!(node.announce(&mut first, 12, LATER), Announced::Ignore);
    assert_eq!(first.peer_height, Some(12));
    assert_eq!(node.announce(&mut first, 11, LATER), Announced::Ignore);
    assert_eq!(first.peer_height, Some(12));
    // Far ahead, but offered all the same.
    let mut ahead = block_on(&genesis(), 1);
    ahead.index = 100;
    match node.process_block(&mut first, &ahead, &passing(), &passing(), LATER) {
        BlockStep::Request { from, to } => assert_eq!((from, to), (1, 50)),
        _ => panic!("blocks should have been asked for"),
    }
    assert_eq!(first.peer_height, Some(100));
}

#[test]
fn stale_announcements_are_ignored() {
    let mut node = node();
    grow(&mut node, 3);
    let mut session = node.meet(addr(1), &[], LATER);
    assert_eq!(node.announce(&mut session, 2, LATER), Announced::Ignore);
    assert_eq!(node.announce(&mut session, 3, LATER), Announced::Process);
    assert_eq!(node.announce(&mut session, 4, LATER), Announced::Process);
}

#[test]
fn only_seeds_may_drive_the_download_at_first() {
    let mut node = node();
    let seeds = [addr(9)];
    let mut miner = node.meet(addr(1), &seeds, 0);
    assert!(!miner.is_seed);
    assert_eq!(node.announce(&mut miner, 10, 29 * SECOND), Announced::Ignore);
    assert!(!node.hear_height(&mut miner, 10, true, 29 * SECOND));
    assert_eq!(node.ibd_peer, None);
    assert_eq!(node.announce(&mut miner, 10, 30 * SECOND), Announced::AskLocator);

    let mut node = self::node();
    let mut seed = node.meet(addr(9), &seeds, 0);
    assert!(seed.is_seed && node.seed_seen);
    assert_eq!(node.announce(&mut seed, 10, 0), Announced::AskLocator);
}

#[test]
fn heights_start_or_finish_the_download() {
    let mut node = node();
    let mut first = node.meet(addr(1), &[], LATER);
    let mut second = node.meet(addr(2), &[], LATER);
    assert!(node.hear_height(&mut first, 5, true, LATER));
    assert!(node.hear_height(&mut first, 6, true, LATER));
    assert_eq!(node.ibd_peer, Some((addr(1), LATER)));
    assert!(!node.hear_height(&mut second, 5, true, LATER + 30 * SECOND));
    assert!(node.hear_height(&mut second, 5, true, LATER + 30 * SECOND + 1));
    assert_eq!(node.ibd_peer, Some((addr(2), LATER + 30 * SECOND + 1)));
    assert!(node.hear_height(&mut first, 5, false, LATER + 31 * SECOND));
    assert!(!node.sync_ready);
    assert!(!node.hear_height(&mut first, 0, true, LATER));
    assert!(node.sync_ready);
    node.part(&second);
    assert_eq!(node.ibd_peer, Some((addr(1), LATER + 31 * SECOND)));
    node.part(&first);
    assert_eq!(node.ibd_peer, None);
}

#[test]
fn a_locator_is_sent_once_per_download() {
    let mut node = node();
    grow(&mut node, 3);
    let mut session = node.meet(addr(1), &[], LATER);
    let locator = node.answer_locator(&mut session).unwrap();
    let heights: Vec<u64> = locator.iter().map(|e| e.0).collect();
    assert_eq!(heights, vec![3, 2, 1, 0]);
    assert!(node.answer_locator(&mut session).is_none());
    assert_eq!(node.answer_blocks(&mut session, 1, 2).len(), 2);
    assert!(node.answer_locator(&mut session).is_none());
    assert_eq!(node.answer_blocks(&mut session, 1, 3).len(), 3);
    assert!(node.answer_locator(&mut session).is_some());
}

#[test]
fn an_answer_holds_a_bounded_number_of_blocks() {
    let mut node = node();
    grow(&mut node, 510);
    let mut session = node.meet(addr(1), &[], LATER);
    session.locator_sent = true;
    let blocks = node.answer_blocks(&mut session, 2, u64::MAX);
    assert_eq!(blocks.len(), 500);
    assert_eq!(blocks[499].index, 501);
    assert_eq!(node.answer_blocks(&mut session, 2, 502).len(), 500);
    assert_eq!(node.answer_blocks(&mut session, 2, 501).len(), 500);
    assert_eq!(node.answer_blocks(&mut session, 2, 500).len(), 499);
    assert!(session.locator_sent);
    assert!(node.answer_blocks(&mut session, u64::MAX, u64::MAX).is_empty());
    assert!(!session.locator_sent);
}

#[test]
fn a_locator_leads_to_the_first_missing_block() {
    let mut node = node();
    grow(&mut node, 4);
    let theirs = node.blockchain.generate_block_locator();
    let mut session = node.meet(addr(1), &[], LATER);
    assert_eq!(node.take_locator(&session, &theirs), LocatorStep::Ignore);
    assert!(node.hear_height(&mut session, 60, true, LATER));
    assert_eq!(node.take_locator(&session, &theirs), LocatorStep::Request { from: 5, to: 54 });
    session.peer_height = Some(20);
    assert_eq!(node.take_locator(&session, &theirs[2..]), LocatorStep::Request { from: 3, to: 20 });
    session.peer_height = None;
    assert_eq!(node.take_locator(&session, &theirs), LocatorStep::Ignore);
    session.peer_height = Some(20);
    let foreign = vec![(0u64, "00".repeat(32))];
    assert_eq!(node.take_locator(&session, &foreign), LocatorStep::Disconnect);
    assert_eq!(node.ibd_peer, None);
}

#[test]
fn a_deep_fork_is_turned_down_unless_the_peer_is_far_ahead() {
    let mut node = node();
    grow(&mut node, 120);
    let mut session = node.meet(addr(1), &[], LATER);
    let genesis_only = vec![(0u64, "aa".repeat(32))];
    assert!(node.hear_height(&mut session, 140, true, LATER));
    assert_eq!(node.take_locator(&session, &genesis_only), LocatorStep::Ignore);
    assert_eq!(node.ibd_peer, None);
    assert!(node.hear_height(&mut session, 141, true, LATER));
    assert_eq!(
        node.take_locator(&session, &genesis_only),
        LocatorStep::Request { from: 1, to: 50 }
    );
}

#[test]
fn a_batch_is_applied_and_the_download_goes_on() {
    let mut node = node();
    let mut session = node.meet(addr(1), &[], LATER);
    assert!(node.hear_height(&mut session, 100, true, LATER));
    let blocks = branch(&genesis(), 30, 3);
    let step = node.try_take_blocks(&session, &blocks, LATER + SECOND).unwrap();
    assert_eq!(step, SyncStep::Request { from: 31, to: 80 });
    assert_eq!(node.chain_height, 30);
    assert_eq!(node.ibd_peer, Some((addr(1), LATER + SECOND)));
    assert_eq!(node.relay_lock.height, 30);
    assert_eq!(node.cached_total_supply, 30 * REWARD);

    session.peer_height = Some(31);
    node.blockchain.target_block_ms = 60_000;
    let last = branch(&blocks[29], 1, 3);
    assert_eq!(node.take_blocks(&session, &last, LATER), SyncStep::Idle);
    assert!(node.sync_ready);
    assert_eq!(node.ibd_peer, None);
    assert_eq!(node.blockchain.target_block_ms, 30_000);
}

#[test]
fn a_batch_of_a_peer_of_unknown_height_asks_for_it() {
    let mut node = node();
    let session = node.meet(addr(1), &[], LATER);
    let blocks = branch(&genesis(), 2, 3);
    assert_eq!(node.take_blocks(&session, &blocks, LATER), SyncStep::AskHeight);
    assert_eq!(node.ibd_peer, Some((addr(1), LATER)));
}

#[test]
fn batches_of_other_peers_are_ignored() {
    let mut node = node();
    let mut first = node.meet(addr(1), &[], LATER);
    let second = node.meet(addr(2), &[], LATER);
    assert!(node.hear_height(&mut first, 5, true, LATER));
    let blocks = branch(&genesis(), 2, 3);
    assert_eq!(node.take_blocks(&second, &blocks, LATER), SyncStep::Ignore);
    assert_eq!(node.take_blocks(&second, &[], LATER), SyncStep::Ignore);
    assert_eq!(node.chain_height, 0);
}

#[test]
fn an_empty_batch_ends_the_download() {
    let mut node = node();
    let mut session = node.meet(addr(1), &[], LATER);
    assert!(node.hear_height(&mut session, 11, true, LATER));
    assert_eq!(node.take_blocks(&session, &[], LATER), SyncStep::Idle);
    assert_eq!(node.ibd_peer, None);
    assert!(!node.sync_ready);
    session.peer_height = Some(10);
    assert_eq!(node.take_blocks(&session, &[], LATER), SyncStep::Idle);
    assert!(node.sync_ready);
}

#[test]
fn a_longer_branch_replaces_recent_blocks() {
    let mut node = node();
    let session = node.meet(addr(1), &[], LATER);
    grow(&mut node, 5);
    let fork = node.blockchain.block_at(3).unwrap();
    let blocks = branch(&fork, 4, 7);
    node.take_blocks(&session, &blocks, LATER);
    assert_eq!(node.chain_height, 7);
    assert_eq!(node.blockchain.block_at(4).unwrap().miner, [7; 32]);
    assert_eq!(node.ledger.balance(&[50; 32]), 3 * REWARD);
    assert_eq!(node.ledger.balance(&[7; 32]), 4 * REWARD);
}

#[test]
fn a_branch_that_is_not_longer_changes_nothing() {
    let mut node = node();
    let session = node.meet(addr(1), &[], LATER);
    grow(&mut node, 5);
    let fork = node.blockchain.block_at(3).unwrap();
    let tip = node.blockchain.tip();
    assert_eq!(node.take_blocks(&session, &branch(&fork, 2, 7), LATER), SyncStep::Idle);
    assert_eq!(node.blockchain.tip(), tip);
}

#[test]
fn a_synced_node_gives_up_few_blocks() {
    let mut node = node();
    let session = node.meet(addr(1), &[], LATER);
    grow(&mut node, 120);
    let deep = node.blockchain.block_at(109).unwrap();
    assert_eq!(node.take_blocks(&session, &branch(&deep, 20, 7), LATER), SyncStep::Idle);
    assert_eq!(node.chain_height, 120);
    let recent = node.blockchain.block_at(110).unwrap();
    node.take_blocks(&session, &branch(&recent, 20, 7), LATER);
    assert_eq!(node.chain_height, 130);
    assert_eq!(node.blockchain.block_at(111).unwrap().miner, [7; 32]);
}

#[test]
fn a_branch_that_overlaps_with_ours_is_taken_from_the_fork_on() {
    let mut node = node();
    let session = node.meet(addr(1), &[], LATER);
    grow(&mut node, 120);
    let mut blocks = node.blockchain.blocks_range(105, 118);
    let fork = node.blockchain.block_at(118).unwrap();
    blocks.extend(branch(&fork, 4, 7));
    node.take_blocks(&session, &blocks, LATER);
    assert_eq!(node.chain_height, 122);
    assert_eq!(node.blockchain.block_at(118).unwrap(), fork);
    assert_eq!(node.ledger.balance(&[7; 32]), 4 * REWARD);
}

#[test]
fn a_young_chain_starts_over_for_a_foreign_batch_that_is_well_ahead() {
    let mut node = node();
    let mut session = node.meet(addr(1), &[], LATER);
    grow(&mut node, 5);
    session.peer_height = Some(40);
    let mut foreign = block_on(&genesis(), 7);
    foreign.prev_hash = [9; 32];
    foreign.index = 15;
    assert_eq!(node.take_blocks(&session, &[foreign.clone()], LATER), SyncStep::Idle);
    assert_eq!(node.chain_height, 5);
    foreign.index = 16;
    let step = node.take_blocks(&session, &[foreign], LATER);
    assert_eq!(step, SyncStep::Request { from: 1, to: 40 });
    assert_eq!(node.chain_height, 0);
    assert_eq!(node.cached_difficulty, TARGET);
    assert_eq!(node.cached_total_supply, 0);
}

#[test]
fn a_batch_waits_for_the_recent_blocks() {
    let mut node = node();
    let session = node.meet(addr(1), &[], LATER);
    grow(&mut node, 5);
    let mut stored = std::collections::HashMap::new();
    for write in node.take_writes() {
        if let Write::Put { key, value } = write {
            stored.insert(key, value);
        }
    }
    assert!(!node.forget_block(0) && !node.forget_block(5));
    assert!(node.forget_block(2));
    // Blocks that follow the tip need no other record.
    assert!(node.try_take_blocks(&session, &branch(&node.blockchain.tip(), 1, 3), LATER).is_some());
    assert_eq!(node.chain_height, 6);
    // A longer branch does: nothing is taken back as long as one is away.
    let fork = branch(&node.blockchain.block_at(4).unwrap(), 3, 4);
    let tip = node.blockchain.tip();
    assert!(node.try_take_blocks(&session, &fork, LATER).is_none());
    assert_eq!(node.blockchain.tip(), tip);
    assert_eq!(node.chain_height, 6);
    node.take_writes();
    let bytes = stored[&taron::records::block_key(2).to_vec()].clone();
    assert!(!node.load_block(1, bytes.clone()));
    assert!(!node.load_block(7, bytes.clone()));
    assert!(node.load_block(2, bytes.clone()));
    assert!(!node.load_block(2, bytes));
    assert!(node.try_take_blocks(&session, &fork, LATER).is_some());
    assert_eq!(node.blockchain.tip(), fork[2]);
}

#[test]
fn a_block_that_the_disk_lacks_does_not_stop_a_reorganisation_above_it() {
    let mut node = node();
    let session = node.meet(addr(1), &[], LATER);
    grow(&mut node, 6);
    node.take_writes();
    assert!(node.forget_block(2));
    assert!(node.load_block(2, vec![]));
    let fork = branch(&node.blockchain.block_at(4).unwrap(), 3, 4);
    assert!(node.try_take_blocks(&session, &fork, LATER).is_some());
    assert_eq!(node.blockchain.tip(), fork[2]);
    // One that would have to be taken back does.
    node.take_writes();
    assert!(node.forget_block(6));
    assert!(node.load_block(6, vec![]));
    let deeper = branch(&node.blockchain.block_at(5).unwrap(), 4, 9);
    assert!(node.try_take_blocks(&session, &deeper, LATER).is_none());
    assert_eq!(node.blockchain.tip(), fork[2]);
}

#[test]
fn a_live_block_waits_for_the_difficulty_window() {
    let mut node = node();
    let mut session = node.meet(addr(1), &[], LATER);
    grow(&mut node, 70);
    node.take_writes();
    let next = block_on(&node.blockchain.tip(), 50);
    assert!(node.forget_block(8));
    assert!(node.blockchain.holds_window());
    assert!(node.forget_block(9));
    assert!(!node.blockchain.holds_window());
    assert_eq!(node.try_submit_mined_block(&next, &passing(), 0), None);
    let step = node.try_process_block(&mut session, &next, &passing(), &passing(), LATER);
    assert!(step.is_none());
    assert_eq!(node.chain_height, 70);
    assert!(node.load_block(9, vec![]));
    assert_eq!(node.try_submit_mined_block(&next, &passing(), 0), Some(true));
    assert_eq!(node.chain_height, 71);
    let after = block_on(&next, 50);
    let step = node.try_process_block(&mut session, &after, &passing(), &passing(), LATER);
    assert!(matches!(step, Some(BlockStep::Relay)));
}

#[test]
fn any_target_block_time_on_record_opens() {
    for target_ms in [0, 1, u64::MAX] {
        let mut odd = opening();
        odd.db.load_meta(Meta::Height, 0u64.to_le_bytes().to_vec());
        odd.db.load_meta(Meta::TargetTime, u64::to_le_bytes(target_ms).to_vec());
        odd.db.load_block(0, taron::codec::encode_block(&genesis()));
        let mut node = TaronNode::open(NodeConfig::default(), odd, Ledger::new(), CHUNK).unwrap();
        assert_eq!(node.blockchain.target_block_ms, target_ms);
        let session = node.meet(addr(1), &[], LATER);
        let blocks = branch(&genesis(), 12, 3);
        assert!(node.try_take_blocks(&session, &blocks, LATER).is_some());
        assert_eq!(node.chain_height, 12);
    }
}

#[test]
fn a_window_cannot_be_settled_with_no_target_block_time() {
    let mut odd = opening();
    odd.db.load_meta(Meta::Height, 0u64.to_le_bytes().to_vec());
    odd.db.load_meta(Meta::TargetTime, 0u64.to_le_bytes().to_vec());
    odd.db.load_block(0, taron::codec::encode_block(&genesis()));
    let mut node = TaronNode::open(NodeConfig::default(), odd, Ledger::new(), CHUNK).unwrap();
    let session = node.meet(addr(1), &[], LATER);
    let mut blocks = branch(&genesis(), 12, 3);
    for block in &mut blocks {
        block.difficulty_target = 0;
    }
    // The tenth block ends the window.
    assert!(node.try_take_blocks(&session, &blocks, LATER).is_none());
    assert_eq!(node.chain_height, 9);
    assert_eq!(node.blockchain.tip(), blocks[8]);
}

#[test]
fn configuration_and_status_can_be_copied() {
    let node = node();
    assert_eq!(node.config.clone().listen_port, 8333);
    let status = node.status(1, 2, 3, 4, 16);
    assert_eq!(status.clone().best_hash, status.best_hash);
}

#[test]
fn silent_peers_are_disconnected() {
    let mut session = PeerSession {
        addr: addr(1),
        is_seed: false,
        peer_height: None,
        last_recv: 0,
        locator_sent: false,
    };
    assert_eq!(session.tick(120 * SECOND), Tick::Ping);
    assert_eq!(session.tick(120 * SECOND + 1), Tick::Disconnect);
    session.hear(100 * SECOND);
    assert_eq!(session.tick(120 * SECOND + 1), Tick::Ping);
}

#[test]
fn peers_of_another_genesis_are_recognised() {
    let ours = "aa".repeat(32);
    assert!(!wrong_genesis(&String::new(), &ours));
    assert!(!wrong_genesis(&ours.clone(), &ours));
    assert!(wrong_genesis(&"bb".repeat(32), &ours));
}

#[test]
fn the_ledger_counts_accounts() {
    let mut node = node();
    grow(&mut node, 2);
    assert_eq!(node.ledger.account_count(), 1);
    assert_eq!(node.status(1, 1, 0, 0, 0).account_count, 1);
}

#[test]
fn a_node_reopens_where_it_stopped() {
    let mut node = node();
    let session = node.meet(addr(1), &[], LATER);
    grow(&mut node, 8);
    let mut blocks = node.blockchain.blocks_range(3, 6);
    blocks.extend(branch(&node.blockchain.block_at(6).unwrap(), 5, 7));
    node.take_blocks(&session, &blocks, LATER);
    assert_eq!(node.chain_height, 11);

    let mut disk = std::collections::BTreeMap::new();
    for write in node.take_writes() {
        match write {
            Write::Put { key, value } => disk.insert(key, value),
            Write::Delete { key } => disk.remove(&key),
        };
    }
    let mut again = opening();
    for meta in [Meta::Height, Meta::Difficulty, Meta::TargetTime, Meta::Chainwork] {
        again.db.load_meta(meta, disk[&taron::records::meta_key(meta)].clone());
    }
    for (key, value) in &disk {
        if key.starts_with(b"b:") {
            let index = u64::from_le_bytes(key[2..].try_into().unwrap());
            again.db.load_block(index, value.clone());
        }
    }
    let reopened = TaronNode::open(NodeConfig::default(), again, Ledger::new(), CHUNK).unwrap();
    assert_eq!(reopened.chain_height, 11);
    assert_eq!(reopened.cached_best_hash, node.cached_best_hash);
    assert_eq!(reopened.cached_difficulty, node.cached_difficulty);
    assert_eq!(reopened.blockchain.chainwork, node.blockchain.chainwork);
    assert_eq!(reopened.blockchain.blocks_range(0, 11), node.blockchain.blocks_range(0, 11));
    // Each block names the one before it.
    for pair in reopened.blockchain.blocks_range(0, 11).windows(2) {
        assert_eq!(pair[1].prev_hash, pair[0].hash);
    }
}

#[test]
fn the_best_hash_is_the_text_of_the_tip_hash() {
    let mut node = node();
    grow(&mut node, 1);
    let tip = node.blockchain.tip();
    assert_eq!(taron::transactions::tx_hash_of(&node.cached_best_hash), tip.hash);
}

#[test]
fn genesis_survives_every_batch() {
    let mut node = node();
    let session = node.meet(addr(1), &[], LATER);
    grow(&mut node, 3);
    let mut other_genesis = genesis();
    other_genesis.hash = [1; 32];
    let mut blocks = vec![other_genesis.clone()];
    blocks.extend(branch(&other_genesis, 20, 7));
    node.take_blocks(&session, &blocks, LATER);
    assert_eq!(node.blockchain.block_at(0).unwrap(), genesis());
}
