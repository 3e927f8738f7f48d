//! The chain: appending, taking back, reading, and opening again.

use std::collections::BTreeMap;

use taron::apply::{BlockChecks, TxCheck};
use taron::block::{Block, Transaction};
use taron::blockchain::{block_work, Blockchain};
use taron::codec::{decode_block, encode_block};
use taron::ledger::{ChainLedger, Ledger};
use taron::load::{lacks_chainwork, legacy_difficulty_bits, recorded_height};
use taron::params::{ChainParams, Checkpoint, TaronError, BASE_TARGET_BLOCK_MS};
use taron::records::{block_key, meta_key, Meta, Records, Write};

const TARGET: u64 = 1 << 48;
const REWARD: u64 = 5_000_000;

fn params() -> ChainParams {
    ChainParams { testnet_target: TARGET, testnet_reward: REWARD, checkpoints: vec![] }
}

fn genesis() -> Block {
    Block {
        index: 0,
        prev_hash: [0; 32],
        timestamp: 1_700_000_000_000,
        miner: [0; 32],
        nonce: 0,
        hash: [0xaa; 32],
        reward: 0,
        transactions: vec![],
        difficulty_target: 0,
    }
}

/// A hash that meets every target used here, different for each index and salt.
fn hash_of(index: u64, salt: u8) -> [u8; 32] {
    let mut hash = [0u8; 32];
    hash[8..16].copy_from_slice(&index.to_be_bytes());
    hash[16] = salt;
    hash
}

fn next_block(chain: &Blockchain, miner: [u8; 32], reward: u64) -> Block {
    let tip = chain.tip();
    Block {
        index: tip.index + 1,
        prev_hash: tip.hash,
        timestamp: tip.timestamp + 30_000,
        miner,
        nonce: 0,
        hash: hash_of(tip.index + 1, 1),
        reward,
        transactions: vec![],
        difficulty_target: chain.difficulty,
    }
}

fn passing(block: &Block) -> BlockChecks {
    BlockChecks {
        header_ok: true,
        txs: block
            .transactions
            .iter()
            .map(|_| TxCheck { structure_ok: true, signature_ok: true })
            .collect(),
    }
}

fn fresh_chain() -> Blockchain {
    Blockchain::load_or_create(Records::new(), params(), &genesis(), &[], 0)
}

fn extend(chain: &mut Blockchain, ledger: &mut Ledger, miner: [u8; 32], n: usize) {
    for _ in 0..n {
        let block = next_block(chain, miner, REWARD);
        let checks = passing(&block);
        chain.apply_block(&block, &checks, ledger).unwrap();
    }
}

type Disk = BTreeMap<Vec<u8>, Vec<u8>>;

fn flush(chain: &mut Blockchain, disk: &mut Disk) {
    for write in chain.take_writes() {
        match write {
            Write::Put { key, value } => {
                disk.insert(key, value);
            }
            Write::Delete { key } => {
                disk.remove(&key);
            }
        }
    }
}

fn read(disk: &Disk) -> Records {
    let mut records = Records::new();
    for meta in [Meta::Height, Meta::Difficulty, Meta::TargetTime, Meta::Chainwork] {
        if let Some(value) = disk.get(&meta_key(meta)) {
            records.load_meta(meta, value.clone());
        }
    }
    for (key, value) in disk {
        if key.starts_with(b"b:") {
            let index = u64::from_le_bytes(key[2..].try_into().unwrap());
            records.load_block(index, value.clone());
        }
    }
    records
}

#[test]
fn block_key_layout() {
    assert_eq!(block_key(0x0102_0304_0506_0708), [98, 58, 8, 7, 6, 5, 4, 3, 2, 1]);
}

#[test]
fn meta_key_layout() {
    assert_eq!(meta_key(Meta::Height), b"meta:h".to_vec());
    assert_eq!(meta_key(Meta::Difficulty), b"meta:d".to_vec());
    assert_eq!(meta_key(Meta::TargetTime), b"meta:t".to_vec());
    assert_eq!(meta_key(Meta::Chainwork), b"meta:cw".to_vec());
}

#[test]
fn block_work_of_some_targets() {
    assert_eq!(block_work(0), 1);
    assert_eq!(block_work(1), u64::MAX as u128);
    assert_eq!(block_work(1 << 56), 255);
    assert_eq!(block_work(u64::MAX), 1);
}

#[test]
fn test_new_blockchain_has_genesis() {
    let chain = fresh_chain();
    assert_eq!(chain.height(), 0);
    assert_eq!(chain.tip().index, 0);
    assert_eq!(chain.total_blocks(), 1);
}

#[test]
fn fresh_chain_starts_with_the_initial_values() {
    let chain = fresh_chain();
    assert_eq!(chain.difficulty, TARGET);
    assert_eq!(chain.target_block_ms, 30_000);
    assert_eq!(chain.chainwork, 0);
    assert!(chain.has_tip());
    assert!(chain.holds(0, 0) && chain.holds_window() && chain.holds_recent());
    assert!(!chain.holds(0, 1));
}

#[test]
fn test_apply_valid_block() {
    let mut chain = fresh_chain();
    let mut ledger = Ledger::new();
    let miner = [1u8; 32];

    let block = next_block(&chain, miner, REWARD);
    chain.apply_block(&block, &passing(&block), &mut ledger).unwrap();

    assert_eq!(chain.height(), 1);
    assert_eq!(ledger.balance(&miner), REWARD);
    assert_eq!(chain.tip(), block);
    assert_eq!(chain.chainwork, block_work(TARGET));
    assert_eq!(ledger.total_supply(), REWARD);
    assert_eq!(ledger.account(&miner).last_active, block.timestamp);
}

#[test]
fn test_apply_invalid_block_rejected() {
    let mut chain = fresh_chain();
    let mut ledger = Ledger::new();
    let miner = [1u8; 32];

    let mut block = next_block(&chain, miner, REWARD);
    block.prev_hash = [99u8; 32];

    let result = chain.apply_block(&block, &passing(&block), &mut ledger);
    assert!(matches!(result, Err(TaronError::InvalidBlock)));
    assert_eq!(chain.height(), 0);
    assert_eq!(ledger.account_count(), 0);
}

#[test]
fn every_rule_of_a_live_block_is_enforced() {
    let mut chain = fresh_chain();
    let mut ledger = Ledger::new();
    let good = next_block(&chain, [1; 32], REWARD);
    let checks = passing(&good);

    let mut wrong_index = good.clone();
    wrong_index.index = 2;
    let mut too_easy = good.clone();
    too_easy.hash = [0xff; 32];
    let mut at_target = good.clone();
    at_target.hash[..8].copy_from_slice(&TARGET.to_be_bytes());
    let mut greedy = good.clone();
    greedy.reward = REWARD + 1;
    for bad in [&wrong_index, &too_easy, &at_target, &greedy] {
        let result = chain.apply_block(bad, &checks, &mut ledger);
        assert_eq!(result, Err(TaronError::InvalidBlock));
    }
    let unchecked = BlockChecks { header_ok: false, txs: vec![] };
    assert!(chain.apply_block(&good, &unchecked, &mut ledger).is_err());

    let mut below_target = good.clone();
    below_target.hash[..8].copy_from_slice(&(TARGET - 1).to_be_bytes());
    assert!(chain.apply_block(&below_target, &checks, &mut ledger).is_ok());
}

#[test]
fn test_multiple_blocks() {
    let mut chain = fresh_chain();
    let mut ledger = Ledger::new();
    let miner = [7u8; 32];
    extend(&mut chain, &mut ledger, miner, 5);
    assert_eq!(chain.height(), 5);
    assert_eq!(ledger.balance(&miner), REWARD * 5);
}

#[test]
fn test_save_load_roundtrip() {
    let mut chain = fresh_chain();
    let mut ledger = Ledger::new();
    let miner = [3u8; 32];
    let mut disk = Disk::new();

    let block = next_block(&chain, miner, REWARD);
    chain.apply_block(&block, &passing(&block), &mut ledger).unwrap();
    flush(&mut chain, &mut disk);

    let loaded = Blockchain::load_or_create(read(&disk), params(), &genesis(), &[], 0);
    assert_eq!(loaded.height(), 1);
    assert_eq!(loaded.tip().miner, miner);
    assert_eq!(loaded.difficulty, chain.difficulty);
    assert_eq!(loaded.target_block_ms, chain.target_block_ms);
    assert_eq!(loaded.chainwork, chain.chainwork);
    assert_eq!(loaded.tip(), block);
}

#[test]
fn a_stored_block_is_the_encoding_of_its_fields() {
    let mut chain = fresh_chain();
    let mut ledger = Ledger::new();
    let mut disk = Disk::new();
    extend(&mut chain, &mut ledger, [4; 32], 1);
    flush(&mut chain, &mut disk);

    let b = chain.tip();
    assert_eq!(disk.get(&block_key(1).to_vec()), Some(&encode_block(&b)));
    let no_txs: Vec<([u8; 32], [u8; 32], [u8; 32], u64, u64, Vec<u8>)> = vec![];
    let expected = bincode::serialize(&(
        b.index,
        b.prev_hash,
        b.timestamp,
        b.miner,
        b.nonce,
        b.hash,
        b.reward,
        no_txs,
        b.difficulty_target,
    ))
    .unwrap();
    assert_eq!(disk.get(&block_key(1).to_vec()), Some(&expected));
    assert_eq!(expected.len(), 8 + 32 + 8 + 32 + 8 + 32 + 8 + 8 + 8);
    assert_eq!(disk.get(&meta_key(Meta::Height)), Some(&1u64.to_le_bytes().to_vec()));
}

#[test]
fn an_encoding_lists_the_fields_in_order() {
    let mut block = genesis();
    block.index = 0x0102;
    block.nonce = 3;
    block.reward = 4;
    block.difficulty_target = 5;
    block.transactions.push(Transaction {
        hash: [1; 32],
        sender: [2; 32],
        recipient: [3; 32],
        amount: 6,
        sequence: 7,
        proof_bytes: vec![8, 9],
    });
    let mut expected: Vec<u8> = vec![];
    expected.extend(0x0102u64.to_le_bytes());
    expected.extend([0; 32]);
    expected.extend(1_700_000_000_000u64.to_le_bytes());
    expected.extend([0; 32]);
    expected.extend(3u64.to_le_bytes());
    expected.extend([0xaa; 32]);
    expected.extend(4u64.to_le_bytes());
    expected.extend(1u64.to_le_bytes());
    expected.extend([1; 32]);
    expected.extend([2; 32]);
    expected.extend([3; 32]);
    expected.extend(6u64.to_le_bytes());
    expected.extend(7u64.to_le_bytes());
    expected.extend(2u64.to_le_bytes());
    expected.extend([8, 9]);
    expected.extend(5u64.to_le_bytes());
    assert_eq!(encode_block(&block), expected);
    assert_eq!(decode_block(&expected), Some(block.clone()));

    expected.push(77);
    assert_eq!(decode_block(&expected), Some(block));
    expected.truncate(expected.len() - 2);
    assert_eq!(decode_block(&expected), None);
    assert_eq!(decode_block(&[]), None);
    // A count that the bytes cannot hold.
    expected[128..136].copy_from_slice(&u64::MAX.to_le_bytes());
    assert_eq!(decode_block(&expected), None);
}

#[test]
fn an_unreadable_record_is_no_block() {
    let mut records = Records::new();
    records.load_meta(Meta::Height, 0u64.to_le_bytes().to_vec());
    records.load_block(0, vec![1, 2, 3]);
    let chain = Blockchain::load_or_create(records, params(), &genesis(), &[], 0);
    assert!(chain.block_at(0).is_none());
    assert!(!chain.has_tip());
}

#[test]
fn transactions_survive_storage() {
    let mut chain = fresh_chain();
    let mut ledger = Ledger::new();
    extend(&mut chain, &mut ledger, [1; 32], 1);
    let mut block = next_block(&chain, [2; 32], REWARD);
    block.transactions.push(Transaction {
        hash: [0x11; 32],
        sender: [1; 32],
        recipient: [9; 32],
        amount: 1_000_000,
        sequence: 1,
        proof_bytes: vec![7, 8, 9],
    });
    chain.apply_block(&block, &passing(&block), &mut ledger).unwrap();
    assert_eq!(chain.block_at(2), Some(block.clone()));
    assert_eq!(ledger.balance(&[1; 32]), REWARD - 1_000_000);
    assert_eq!(ledger.balance(&[9; 32]), 1_000_000);
    assert_eq!(block.tx_hashes(), vec!["11".repeat(32)]);
}

#[test]
fn a_failing_transaction_refuses_the_block() {
    let mut chain = fresh_chain();
    let mut ledger = Ledger::new();
    let mut block = next_block(&chain, [2; 32], REWARD);
    block.transactions.push(Transaction {
        hash: [0x11; 32],
        sender: [1; 32],
        recipient: [9; 32],
        amount: 1,
        sequence: 1,
        proof_bytes: vec![],
    });
    let unsigned =
        BlockChecks { header_ok: true, txs: vec![TxCheck { structure_ok: true, signature_ok: false }] };
    assert!(chain.apply_block(&block, &unsigned, &mut ledger).is_err());
    assert_eq!(ledger.account_count(), 0);
    let malformed =
        BlockChecks { header_ok: true, txs: vec![TxCheck { structure_ok: false, signature_ok: true }] };
    assert!(chain.apply_block(&block, &malformed, &mut ledger).is_err());
    assert!(chain.apply_block(&block, &passing(&block), &mut ledger).is_err());
    assert_eq!(chain.apply_block(&block, &passing(&block), &mut ledger), Err(TaronError::InvalidBlock));
    assert_eq!(chain.height(), 0);
    assert_eq!(chain.chainwork, 0);
    // Nobody was paid: not the miner, and not by the transactions before it.
    assert_eq!(ledger.account_count(), 0);
    assert_eq!(ledger.total_supply(), 0);
}

#[test]
fn a_failing_last_transaction_takes_back_the_ones_before_it() {
    let mut chain = fresh_chain();
    let mut ledger = Ledger::new();
    extend(&mut chain, &mut ledger, [1; 32], 1);
    let mut block = next_block(&chain, [2; 32], REWARD);
    for (sequence, amount) in [(1, 1_000), (2, REWARD)] {
        block.transactions.push(Transaction {
            hash: [sequence as u8; 32],
            sender: [1; 32],
            recipient: [9; 32],
            amount,
            sequence,
            proof_bytes: vec![],
        });
    }
    assert!(chain.apply_block(&block, &passing(&block), &mut ledger).is_err());
    assert!(chain.apply_block_ibd(&block, &mut ledger).is_err());
    assert_eq!(chain.height(), 1);
    assert_eq!(ledger.balance(&[1; 32]), REWARD);
    assert_eq!(ledger.account(&[1; 32]).sequence, 0);
    assert_eq!(ledger.balance(&[2; 32]), 0);
    assert_eq!(ledger.balance(&[9; 32]), 0);
    assert_eq!(ledger.total_supply(), REWARD);
    block.transactions.pop();
    assert!(chain.apply_block(&block, &passing(&block), &mut ledger).is_ok());
    assert_eq!(ledger.balance(&[9; 32]), 1_000);
}

#[test]
fn test_blocks_range() {
    let mut chain = fresh_chain();
    let mut ledger = Ledger::new();
    extend(&mut chain, &mut ledger, [5u8; 32], 5);

    let range = chain.blocks_range(2, 4);
    assert_eq!(range.len(), 3);
    assert_eq!(range[0].index, 2);
    assert_eq!(range[2].index, 4);
    assert_eq!(chain.blocks_range(4, 100).len(), 2);
    assert!(chain.blocks_range(6, 9).is_empty());
}

#[test]
fn pages_go_from_the_tip_down() {
    let mut chain = fresh_chain();
    let mut ledger = Ledger::new();
    assert!(chain.blocks_paginated(1, 10).is_empty());
    assert_eq!(chain.blocks_paginated(0, 10).len(), 1);
    extend(&mut chain, &mut ledger, [5u8; 32], 5);
    let page: Vec<u64> = chain.blocks_paginated(1, 3).iter().map(|b| b.index).collect();
    assert_eq!(page, vec![4, 3, 2]);
    let last: Vec<u64> = chain.blocks_paginated(4, 10).iter().map(|b| b.index).collect();
    assert_eq!(last, vec![1, 0]);
    let genesis_only: Vec<u64> = chain.blocks_paginated(5, 10).iter().map(|b| b.index).collect();
    assert_eq!(genesis_only, vec![0]);
    assert!(chain.blocks_paginated(6, 10).is_empty());
    assert!(chain.blocks_paginated(usize::MAX, 10).is_empty());
    assert!(chain.blocks_paginated(0, 0).is_empty());
}

#[test]
fn test_blocks_by_miner() {
    let mut chain = fresh_chain();
    let mut ledger = Ledger::new();
    let miner_a = [1u8; 32];
    let miner_b = [2u8; 32];
    extend(&mut chain, &mut ledger, miner_a, 3);
    extend(&mut chain, &mut ledger, miner_b, 2);
    assert_eq!(chain.blocks_by_miner(&miner_a).len(), 3);
    assert_eq!(chain.blocks_by_miner(&miner_b).len(), 2);
}

#[test]
fn reverting_the_tip_undoes_it() {
    let mut chain = fresh_chain();
    let mut ledger = Ledger::new();
    extend(&mut chain, &mut ledger, [1; 32], 2);
    let work = chain.chainwork;
    let mut block = next_block(&chain, [2; 32], REWARD);
    block.transactions.push(Transaction {
        hash: [0x22; 32],
        sender: [1; 32],
        recipient: [3; 32],
        amount: 77,
        sequence: 1,
        proof_bytes: vec![],
    });
    chain.apply_block(&block, &passing(&block), &mut ledger).unwrap();
    let reverted = chain.revert_tip(&mut ledger).unwrap();

    assert_eq!(reverted, block);
    assert_eq!(chain.height(), 2);
    assert_eq!(chain.chainwork, work);
    assert_eq!(chain.difficulty, TARGET);
    assert!(chain.block_at(3).is_none());
    assert_eq!(ledger.balance(&[1; 32]), 2 * REWARD);
    assert_eq!(ledger.account(&[1; 32]).sequence, 0);
    assert_eq!(ledger.balance(&[2; 32]), 0);
    assert_eq!(ledger.balance(&[3; 32]), 0);
    assert_eq!(ledger.total_supply(), 2 * REWARD);
}

#[test]
fn genesis_is_never_reverted() {
    let mut chain = fresh_chain();
    let mut ledger = Ledger::new();
    assert_eq!(chain.revert_tip(&mut ledger).err(), Some(TaronError::InvalidBlock));
    assert_eq!(chain.height(), 0);
}

#[test]
fn reverting_to_a_height_returns_the_blocks_newest_first() {
    let mut chain = fresh_chain();
    let mut ledger = Ledger::new();
    extend(&mut chain, &mut ledger, [1; 32], 6);
    let reverted = chain.revert_to_height(2, &mut ledger).unwrap();
    let indices: Vec<u64> = reverted.iter().map(|b| b.index).collect();
    assert_eq!(indices, vec![6, 5, 4, 3]);
    assert_eq!(chain.height(), 2);
    assert_eq!(ledger.balance(&[1; 32]), 2 * REWARD);
    chain.revert_to_height(0, &mut ledger).unwrap();
    assert_eq!(chain.height(), 0);
    assert_eq!(chain.difficulty, TARGET);
}

#[test]
fn final_blocks_are_not_reverted() {
    let mut chain = fresh_chain();
    let mut ledger = Ledger::new();
    extend(&mut chain, &mut ledger, [1; 32], 102);
    assert!(chain.revert_to_height(1, &mut ledger).is_err());
    assert!(chain.revert_to_height(0, &mut ledger).is_err());
    assert_eq!(chain.height(), 102);
    assert!(chain.revert_to_height(2, &mut ledger).is_ok());
    assert_eq!(chain.height(), 2);
}

#[test]
fn checkpoints_are_enforced() {
    let mut params = params();
    params.checkpoints.push(Checkpoint {
        height: 2,
        hash: hash_of(2, 1).iter().map(|b| format!("{:02x}", b)).collect(),
        target: 12345,
    });
    let mut chain = Blockchain::load_or_create(Records::new(), params, &genesis(), &[], 0);
    let mut ledger = Ledger::new();
    extend(&mut chain, &mut ledger, [1; 32], 1);
    let mut other = next_block(&chain, [1; 32], REWARD);
    other.hash = hash_of(2, 9);
    assert!(chain.apply_block(&other, &passing(&other), &mut ledger).is_err());
    assert!(chain.apply_block_ibd(&other, &mut ledger).is_err());
    assert_eq!(chain.difficulty, TARGET);
    let mut right = next_block(&chain, [1; 32], REWARD);
    right.difficulty_target = 0;
    assert!(chain.apply_block_ibd(&right, &mut ledger).is_ok());
    // The checkpoint restored its difficulty.
    assert_eq!(chain.difficulty, 12345);
    let mut third = next_block(&chain, [1; 32], REWARD);
    third.hash = [0; 32];
    chain.apply_block_ibd(&third, &mut ledger).unwrap();
    assert!(chain.revert_to_height(1, &mut ledger).is_err());
    assert!(chain.revert_to_height(0, &mut ledger).is_err());
    assert!(chain.revert_to_height(2, &mut ledger).is_ok());
}

#[test]
fn historical_blocks_bring_their_own_target() {
    let mut chain = fresh_chain();
    let mut ledger = Ledger::new();
    let mut block = next_block(&chain, [1; 32], 2 * REWARD);
    block.difficulty_target = 999;
    block.hash = [0xee; 32];
    chain.apply_block_ibd(&block, &mut ledger).unwrap();
    assert_eq!(chain.difficulty, 999);
    assert_eq!(ledger.balance(&[1; 32]), 2 * REWARD);

    let greedy = next_block(&chain, [1; 32], 2 * REWARD + 1);
    assert!(chain.apply_block_ibd(&greedy, &mut ledger).is_err());
    let mut unlinked = next_block(&chain, [1; 32], REWARD);
    unlinked.prev_hash = [1; 32];
    assert!(chain.apply_block_ibd(&unlinked, &mut ledger).is_err());
    assert_eq!(chain.height(), 1);

    let mut too_easy = next_block(&chain, [1; 32], REWARD);
    too_easy.difficulty_target = (1 << 56) + 1;
    let work = chain.chainwork;
    assert_eq!(chain.apply_block_ibd(&too_easy, &mut ledger), Err(TaronError::InvalidBlock));
    assert_eq!(chain.height(), 1);
    assert_eq!(chain.tip(), block);
    assert!(chain.block_at(2).is_none());
    assert_eq!(chain.difficulty, 999);
    assert_eq!(chain.chainwork, work);
    assert_eq!(ledger.balance(&[1; 32]), 2 * REWARD);
    too_easy.difficulty_target = 1 << 56;
    assert!(chain.apply_block_ibd(&too_easy, &mut ledger).is_ok());
    assert_eq!(chain.difficulty, 1 << 56);
}

#[test]
fn historical_blocks_skip_the_sequence_check() {
    let mut chain = fresh_chain();
    let mut ledger = Ledger::new();
    extend(&mut chain, &mut ledger, [1; 32], 1);
    let mut block = next_block(&chain, [2; 32], REWARD);
    block.transactions.push(Transaction {
        hash: [5; 32],
        sender: [1; 32],
        recipient: [3; 32],
        amount: 10,
        sequence: 42,
        proof_bytes: vec![],
    });
    chain.apply_block_ibd(&block, &mut ledger).unwrap();
    assert_eq!(ledger.account(&[1; 32]).sequence, 42);
    assert_eq!(ledger.balance(&[3; 32]), 10);
}

#[test]
fn a_height_of_zero_resets_the_difficulty_on_opening() {
    let mut records = read(&{
        let mut disk = Disk::new();
        flush(&mut fresh_chain(), &mut disk);
        disk
    });
    records.load_meta(Meta::Difficulty, 7u64.to_le_bytes().to_vec());
    let chain = Blockchain::load_or_create(records, params(), &genesis(), &[], 0);
    assert_eq!(chain.difficulty, TARGET);
}

#[test]
fn a_legacy_difficulty_record_is_recognised() {
    let mut records = Records::new();
    assert_eq!(legacy_difficulty_bits(&records), None);
    // Without mined blocks the record does not count, whatever its length.
    records.load_meta(Meta::Difficulty, vec![24]);
    assert_eq!(legacy_difficulty_bits(&records), None);
    records.load_meta(Meta::Height, 0u64.to_le_bytes().to_vec());
    assert_eq!(legacy_difficulty_bits(&records), None);
    records.load_meta(Meta::Height, 3u64.to_le_bytes().to_vec());
    records.load_meta(Meta::Difficulty, 24u32.to_le_bytes().to_vec());
    assert_eq!(legacy_difficulty_bits(&records), Some(24));
    records.load_meta(Meta::Difficulty, 24u64.to_le_bytes().to_vec());
    assert_eq!(legacy_difficulty_bits(&records), None);
}

#[test]
fn a_missing_chainwork_is_worked_out() {
    let mut chain = fresh_chain();
    let mut ledger = Ledger::new();
    let mut disk = Disk::new();
    extend(&mut chain, &mut ledger, [1; 32], 3);
    flush(&mut chain, &mut disk);
    disk.remove(&meta_key(Meta::Chainwork));
    assert_eq!(recorded_height(&read(&disk)), Some(3));
    assert!(lacks_chainwork(&read(&disk)));
    disk.insert(meta_key(Meta::Difficulty), 20u32.to_le_bytes().to_vec());
    let loaded = Blockchain::load_or_create(read(&disk), params(), &genesis(), &[], 4321);
    assert_eq!(loaded.chainwork, 4 * block_work(TARGET));
    assert_eq!(loaded.difficulty, 4321);
}

#[test]
fn a_refused_checkpoint_block_keeps_the_difficulty() {
    let hash = format!("{:032x}01{}", 1, "0".repeat(30));
    let checkpoint = Checkpoint { height: 1, hash, target: 12345 };
    let params = ChainParams { testnet_target: TARGET, testnet_reward: REWARD, checkpoints: vec![checkpoint] };
    let mut chain = Blockchain::load_or_create(Records::new(), params, &genesis(), &[], 0);
    let mut ledger = Ledger::new();
    let mut greedy = next_block(&chain, [1; 32], 2 * REWARD + 1);
    greedy.difficulty_target = 0;
    assert!(chain.apply_block_ibd(&greedy, &mut ledger).is_err());
    assert_eq!(chain.difficulty, TARGET);
    assert_eq!(ledger.account_count(), 0);
    let mut modest = greedy;
    modest.reward = REWARD;
    assert!(chain.apply_block_ibd(&modest, &mut ledger).is_ok());
    assert_eq!(chain.difficulty, 12345);
}

#[test]
fn work_is_the_sum_over_the_mined_blocks() {
    let mut chain = fresh_chain();
    let mut ledger = Ledger::new();
    assert_eq!(chain.chainwork, 0);
    extend(&mut chain, &mut ledger, [1; 32], 2);
    for target in [1u64, 1 << 56, 777] {
        let mut block = next_block(&chain, [2; 32], REWARD);
        block.difficulty_target = target;
        chain.apply_block_ibd(&block, &mut ledger).unwrap();
    }
    let sum = |chain: &Blockchain| -> u128 {
        (1..=chain.height()).map(|i| block_work(chain.block_at(i).unwrap().difficulty_target)).sum()
    };
    assert_eq!(chain.chainwork, 2 * 65535 + u64::MAX as u128 + 255 + block_work(777));
    assert_eq!(chain.chainwork, sum(&chain));
    chain.revert_tip(&mut ledger).unwrap();
    assert_eq!(chain.chainwork, sum(&chain));
    chain.revert_to_height(1, &mut ledger).unwrap();
    assert_eq!(chain.chainwork, 65535);
}

#[test]
fn a_chain_reopens_after_every_operation() {
    let mut chain = fresh_chain();
    let mut ledger = Ledger::new();
    let mut disk = Disk::new();
    for step in 0..12 {
        match step {
            0..=3 => extend(&mut chain, &mut ledger, [1; 32], 20),
            4 | 5 => {
                let mut block = next_block(&chain, [2; 32], REWARD);
                block.difficulty_target = 999 + step;
                chain.apply_block_ibd(&block, &mut ledger).unwrap();
            }
            6 => {
                let mut refused = next_block(&chain, [2; 32], REWARD);
                refused.difficulty_target = u64::MAX;
                assert!(chain.apply_block_ibd(&refused, &mut ledger).is_err());
            }
            7 => {
                chain.revert_tip(&mut ledger).unwrap();
            }
            8 => chain.recalibrate_difficulty_after_ibd(),
            9 => chain.recalibrate_abc(),
            10 => {
                chain.revert_to_height(70, &mut ledger).unwrap();
            }
            _ => extend(&mut chain, &mut ledger, [3; 32], 1),
        }
        flush(&mut chain, &mut disk);
        let opened = Blockchain::load_or_create(read(&disk), params(), &genesis(), &[], 0);
        assert_eq!(opened.height(), chain.height());
        assert_eq!(opened.difficulty, chain.difficulty);
        assert_eq!(opened.target_block_ms, chain.target_block_ms);
        assert_eq!(opened.chainwork, chain.chainwork);
        assert_eq!(
            opened.blocks_range(0, opened.height()),
            chain.blocks_range(0, chain.height())
        );
    }
}

#[test]
fn a_legacy_chain_is_migrated() {
    let mut chain = fresh_chain();
    let mut ledger = Ledger::new();
    extend(&mut chain, &mut ledger, [1; 32], 4);
    let legacy = chain.blocks_range(0, 4);
    let mut migrated = Blockchain::load_or_create(Records::new(), params(), &genesis(), &legacy, 0);
    assert_eq!(migrated.height(), 4);
    assert_eq!(migrated.tip(), chain.tip());
    assert_eq!(migrated.difficulty, TARGET);
    assert_eq!(migrated.target_block_ms, BASE_TARGET_BLOCK_MS);
    let mut disk = Disk::new();
    flush(&mut migrated, &mut disk);
    assert_eq!(Blockchain::load_or_create(read(&disk), params(), &genesis(), &[], 0).height(), 4);
}

#[test]
fn records_are_loaded_and_forgotten_on_demand() {
    let mut chain = fresh_chain();
    let mut ledger = Ledger::new();
    let mut disk = Disk::new();
    extend(&mut chain, &mut ledger, [1; 32], 3);
    flush(&mut chain, &mut disk);
    chain.forget_block(1);
    assert!(!chain.has_block(1));
    assert!(chain.block_at(1).is_none());
    assert!(!chain.holds_recent() && !chain.holds(1, 2) && chain.holds(2, 3));
    assert_eq!(chain.locator_gap(), Some(1));
    chain.load_block(1, vec![]);
    // The record is there, and no block can be read from it.
    assert!(chain.holds_recent());
    assert_eq!(chain.locator_gap(), None);
    assert!(chain.block_at(1).is_none());
    chain.load_block(1, disk[&block_key(1).to_vec()].clone());
    assert_eq!(chain.block_at(1).unwrap().index, 1);
    assert!(chain.holds_recent());
    chain.save("chain.db");
    assert!(chain.take_writes().is_empty());
}

#[test]
fn a_locator_names_the_records_it_lacks() {
    let mut chain = fresh_chain();
    let mut ledger = Ledger::new();
    extend(&mut chain, &mut ledger, [1; 32], 20);
    flush(&mut chain, &mut Disk::new());
    assert_eq!(chain.locator_gap(), None);
    // Not on the way from the tip to genesis.
    chain.forget_block(17);
    assert_eq!(chain.locator_gap(), None);
    chain.forget_block(0);
    assert_eq!(chain.locator_gap(), Some(0));
    chain.forget_block(16);
    assert_eq!(chain.locator_gap(), Some(16));
}

#[test]
fn a_locator_spreads_out_towards_genesis() {
    let mut chain = fresh_chain();
    let mut ledger = Ledger::new();
    extend(&mut chain, &mut ledger, [1; 32], 100);
    let locator = chain.generate_block_locator();
    let heights: Vec<u64> = locator.iter().map(|e| e.0).collect();
    assert_eq!(heights, vec![100, 99, 98, 96, 92, 84, 68, 36, 0]);
    assert_eq!(locator[8].1, "aa".repeat(32));
    assert_eq!(chain.find_common_ancestor_from_locator(&locator), Some(100));
    assert_eq!(chain.find_common_ancestor_from_locator(&locator[5..]), Some(84));
    assert_eq!(chain.find_common_ancestor_from_locator(&[(500, "aa".repeat(32))]), None);
    assert_eq!(chain.find_common_ancestor_from_locator(&[]), None);
    let mut upwards = locator.clone();
    upwards.reverse();
    assert_eq!(chain.find_common_ancestor_from_locator(&upwards), Some(100));
    assert_eq!(fresh_chain().generate_block_locator().len(), 1);
}

#[test]
fn the_fork_point_is_the_last_shared_block() {
    let mut chain = fresh_chain();
    let mut ledger = Ledger::new();
    extend(&mut chain, &mut ledger, [1; 32], 5);
    let mut fork = chain.block_at(4).unwrap();
    fork.hash = hash_of(4, 77);
    assert_eq!(chain.find_fork_point(&[fork.clone()]), Some(3));
    fork.prev_hash = [1; 32];
    assert_eq!(chain.find_fork_point(&[fork.clone()]), None);
    assert_eq!(chain.find_fork_point(&[fork, genesis()]), Some(0));
    assert_eq!(chain.find_fork_point(&[]), None);
    let mut foreign = genesis();
    foreign.hash = [1; 32];
    assert_eq!(chain.find_fork_point(&[foreign]), None);

    // Blocks that both chains have come before the first one that differs.
    let mut incoming = chain.blocks_range(2, 4);
    let mut other = chain.tip();
    other.hash = hash_of(5, 88);
    incoming.push(other);
    assert_eq!(chain.find_fork_point(&incoming), Some(4));
    assert_eq!(chain.find_fork_point(&chain.blocks_range(2, 3)), Some(3));
}

#[test]
fn there_is_no_block_above_the_tip() {
    let mut disk = Disk::new();
    let mut chain = fresh_chain();
    let mut ledger = Ledger::new();
    extend(&mut chain, &mut ledger, [1; 32], 2);
    flush(&mut chain, &mut disk);
    disk.insert(meta_key(Meta::Height), 1u64.to_le_bytes().to_vec());
    let shorter = Blockchain::load_or_create(read(&disk), params(), &genesis(), &[], 0);
    assert!(shorter.has_block(2));
    assert_eq!(shorter.block_at(2), None);
    assert!(shorter.has_tip());
}

#[test]
fn a_fresh_database_holds_no_chain() {
    let records = Records::new();
    assert_eq!(recorded_height(&records), None);
    assert!(!lacks_chainwork(&records));
    assert!(records.indices().is_empty());
}
