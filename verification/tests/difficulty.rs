//! The difficulty rules and the target block time.

use taron::apply::BlockChecks;
use taron::block::Block;
use taron::blockchain::{block_work, Blockchain};
use taron::ledger::{ChainLedger, Ledger};
use taron::params::{ChainParams, DAA_WINDOW, LWMA_WINDOW};
use taron::records::Records;

const TARGET: u64 = 1 << 48;
const REWARD: u64 = 5_000_000;

fn fresh_chain() -> Blockchain {
    let params = ChainParams { testnet_target: TARGET, testnet_reward: REWARD, checkpoints: vec![] };
    let genesis = Block {
        index: 0,
        prev_hash: [0; 32],
        timestamp: 1_700_000_000_000,
        miner: [0; 32],
        nonce: 0,
        hash: [0xaa; 32],
        reward: 0,
        transactions: vec![],
        difficulty_target: 0,
    };
    Blockchain::load_or_create(Records::new(), params, &genesis, &[], 0)
}

fn block_after(chain: &Blockchain, gap_ms: u64, difficulty_target: u64) -> Block {
    let tip = chain.tip();
    let mut hash = [0u8; 32];
    hash[8..16].copy_from_slice(&(tip.index + 1).to_be_bytes());
    Block {
        index: tip.index + 1,
        prev_hash: tip.hash,
        timestamp: tip.timestamp + gap_ms,
        miner: [9; 32],
        nonce: 0,
        hash,
        reward: REWARD,
        transactions: vec![],
        difficulty_target,
    }
}

fn live(chain: &mut Blockchain, gap_ms: u64) {
    let mut ledger = Ledger::new();
    let block = block_after(chain, gap_ms, chain.difficulty);
    let checks = BlockChecks { header_ok: true, txs: vec![] };
    chain.apply_block(&block, &checks, &mut ledger).unwrap();
}

fn historical(chain: &mut Blockchain, gap_ms: u64, difficulty_target: u64) {
    let mut ledger = Ledger::new();
    let block = block_after(chain, gap_ms, difficulty_target);
    chain.apply_block_ibd(&block, &mut ledger).unwrap();
}

#[test]
fn test_daa_adjusts_difficulty() {
    let mut chain = fresh_chain();
    let mut ledger = Ledger::new();
    let initial_diff = chain.difficulty;

    // Ten blocks with very fast timestamps (1ms apart).
    for _ in 0..DAA_WINDOW {
        let mut block = block_after(&chain, 1, initial_diff);
        block.difficulty_target = initial_diff;
        chain.apply_block_ibd(&block, &mut ledger).unwrap();
    }
    assert_eq!(chain.height() % DAA_WINDOW, 0);
    assert_eq!(chain.difficulty, initial_diff);
    chain.difficulty = chain.compute_next_difficulty();

    // A lower target is more work per block.
    assert!(
        block_work(chain.difficulty) > block_work(initial_diff),
        "difficulty should increase for fast blocks"
    );
    assert_eq!(chain.difficulty, initial_diff / 4);
}

#[test]
fn old_blocks_without_a_target_adjust_every_window() {
    let mut chain = fresh_chain();
    for _ in 0..9 {
        historical(&mut chain, 60_000, 0);
    }
    assert_eq!(chain.difficulty, TARGET);
    historical(&mut chain, 60_000, 0);
    // Twice the expected time: twice the target.
    assert_eq!(chain.difficulty, 2 * TARGET);
    for _ in 0..10 {
        historical(&mut chain, 15_000, 0);
    }
    assert_eq!(chain.difficulty, TARGET);
    for _ in 0..10 {
        historical(&mut chain, 3_000_000, 0);
    }
    assert_eq!(chain.difficulty, 4 * TARGET);
    for _ in 0..10 {
        historical(&mut chain, 0, 0);
    }
    assert_eq!(chain.difficulty, TARGET);
}

#[test]
fn the_next_difficulty_of_a_short_chain_is_the_initial_one() {
    let mut chain = fresh_chain();
    historical(&mut chain, 1, 77);
    assert_eq!(chain.difficulty, 77);
    assert_eq!(chain.compute_next_difficulty(), TARGET);
    assert_eq!(fresh_chain().compute_lwma(), TARGET);
}

#[test]
fn lwma_keeps_a_steady_target() {
    let mut chain = fresh_chain();
    for _ in 0..LWMA_WINDOW + 1 {
        // Blocks in the target time of the moment keep the difficulty.
        let gap = chain.target_block_ms;
        live(&mut chain, gap);
    }
    assert_eq!(chain.compute_lwma(), chain.difficulty);
}

#[test]
fn lwma_of_two_blocks() {
    let mut chain = fresh_chain();
    historical(&mut chain, 15_000, 1_000);
    historical(&mut chain, 60_000, 3_000);
    // Average target 2000; weighted times 15000 + 2 * 60000 against 30000 * 3.
    assert_eq!(chain.compute_lwma(), 2_000 * 135_000 / 90_000);
}

#[test]
fn solve_times_are_clamped() {
    let mut chain = fresh_chain();
    historical(&mut chain, 0, 1_000_000);
    historical(&mut chain, 100_000_000, 1_000_000);
    // One millisecond and six times the target time.
    assert_eq!(chain.compute_lwma(), 1_000_000 * (1 + 2 * 180_000) / 90_000);
}

#[test]
fn live_blocks_adjust_from_the_window_on() {
    let mut chain = fresh_chain();
    for _ in 0..LWMA_WINDOW - 1 {
        live(&mut chain, 5_000);
    }
    assert_eq!(chain.difficulty, TARGET);
    live(&mut chain, 5_000);
    // A fifth of the target time, which has come down to 25 seconds.
    assert_eq!(chain.difficulty, TARGET / 5);
    assert_eq!(chain.difficulty, chain.compute_lwma());
}

#[test]
fn the_average_is_exact_beyond_128_bits() {
    let mut chain = fresh_chain();
    // Solve times of a quarter of the target time, with nearly the easiest target.
    let gap = 1u64 << 57;
    for _ in 0..LWMA_WINDOW {
        historical(&mut chain, gap, (1 << 56) - 5);
    }
    chain.target_block_ms = 4 * gap;
    assert_eq!(chain.compute_lwma(), ((1 << 56) - 5) / 4);
    chain.target_block_ms = gap;
    assert_eq!(chain.compute_lwma(), (1 << 56) - 5);
    chain.target_block_ms = 0;
    assert_eq!(chain.compute_lwma(), (1 << 56) - 5);
}

#[test]
fn recalibration_agrees_with_live_mining() {
    let mut chain = fresh_chain();
    for i in 0..LWMA_WINDOW + 5 {
        live(&mut chain, 20_000 + 1_000 * (i % 7));
    }
    let difficulty = chain.difficulty;
    chain.recalibrate_difficulty_after_ibd();
    assert_eq!(chain.difficulty, difficulty);
}

#[test]
fn a_downloaded_chain_recalibrates_to_the_mined_difficulty() {
    let mut mined = fresh_chain();
    let mut downloaded = fresh_chain();
    let mut ledger = Ledger::new();
    for i in 0..LWMA_WINDOW + 1 {
        // A fifth of the blocks is fast, so the target block time stays.
        live(&mut mined, if i % 5 == 0 { 2_000 } else { 20_000 });
        downloaded.apply_block_ibd(&mined.tip(), &mut ledger).unwrap();
    }
    assert_eq!(mined.target_block_ms, 30_000);
    assert_ne!(mined.difficulty, downloaded.difficulty);
    let work = downloaded.chainwork;
    downloaded.recalibrate_difficulty_after_ibd();
    assert_eq!(downloaded.difficulty, mined.difficulty);
    assert_eq!(downloaded.height(), mined.height());
    assert_eq!(downloaded.chainwork, work);
    assert_eq!(downloaded.chainwork, mined.chainwork);
    let high = mined.height();
    assert_eq!(downloaded.blocks_range(0, high), mined.blocks_range(0, high));
}

#[test]
fn recalibration_of_a_short_chain_gives_the_initial_values() {
    let mut chain = fresh_chain();
    historical(&mut chain, 1, 77);
    chain.recalibrate_difficulty_after_ibd();
    assert_eq!(chain.difficulty, TARGET);
    assert_eq!(chain.target_block_ms, 30_000);
}

#[test]
fn fast_blocks_slow_the_cadence_down() {
    let mut chain = fresh_chain();
    for _ in 0..50 {
        live(&mut chain, 1_000);
    }
    assert_eq!(chain.target_block_ms, 35_000);
    chain.recalibrate_abc();
    assert_eq!(chain.target_block_ms, 30_000);
}

#[test]
fn slow_blocks_speed_the_cadence_up() {
    let mut chain = fresh_chain();
    for _ in 0..50 {
        live(&mut chain, 30_000);
    }
    assert_eq!(chain.target_block_ms, 25_000);
}

#[test]
fn a_fifth_of_fast_blocks_keeps_the_cadence() {
    let mut chain = fresh_chain();
    for i in 0..50 {
        live(&mut chain, if i < 10 { 4_999 } else { 5_000 });
    }
    assert_eq!(chain.target_block_ms, 30_000);
    let mut chain = fresh_chain();
    for i in 0..50 {
        live(&mut chain, if i < 11 { 4_999 } else { 5_000 });
    }
    assert_eq!(chain.target_block_ms, 35_000);
}

#[test]
fn the_cadence_of_a_short_chain_stays() {
    let mut chain = fresh_chain();
    for _ in 0..49 {
        live(&mut chain, 1);
    }
    assert_eq!(chain.compute_adaptive_cadence(), 30_000);
}

#[test]
fn ledger_supply_follows_the_rewards() {
    let mut ledger = Ledger::new();
    ledger.apply_coinbase(&[1; 32], u64::MAX);
    ledger.apply_coinbase(&[1; 32], 5);
    assert_eq!(ledger.total_supply(), u64::MAX);
    assert_eq!(ledger.balance(&[1; 32]), u64::MAX);
    ledger.revert_coinbase(&[1; 32], u64::MAX);
    assert_eq!(ledger.total_supply(), 0);
}
