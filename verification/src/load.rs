//! Opening a chain: from its records, from a legacy list of blocks, or fresh.

use vstd::bytes::{u128_from_le_bytes, u32_from_le_bytes, u64_from_le_bytes};
use vstd::prelude::*;

use crate::block::{Block, BlockModel};
use crate::blockchain::{block_work, Blockchain};
use crate::codec::encode_block;
use crate::model::ChainModel;
use crate::params::{ChainParams, ParamsModel, BASE_TARGET_BLOCK_MS};
use crate::records::{Meta, Records, RecordsModel};

verus! {

/// A metadata value of eight bytes as a little-endian integer; `default` where
/// it is missing or of another length.
pub open spec fn meta_u64(meta: Map<Meta, Seq<u8>>, key: Meta, default: u64) -> u64 {
    if meta.dom().contains(key) && meta[key].len() == 8 {
        vstd::bytes::spec_u64_from_le_bytes(meta[key])
    } else {
        default
    }
}

/// The cumulative work on record; zero where there is none of the right length.
pub open spec fn meta_work(meta: Map<Meta, Seq<u8>>) -> u128 {
    if meta.dom().contains(Meta::Chainwork) && meta[Meta::Chainwork].len() == 16 {
        vstd::bytes::spec_u128_from_le_bytes(meta[Meta::Chainwork])
    } else {
        0
    }
}

/// The difficulty on record: a target of eight bytes, or a bit count from older
/// versions, for which `legacy_target` stands.
pub open spec fn meta_difficulty(
    meta: Map<Meta, Seq<u8>>,
    params: ParamsModel,
    legacy_target: u64,
) -> u64 {
    if !meta.dom().contains(Meta::Difficulty) {
        params.testnet_target
    } else {
        meta_u64(meta, Meta::Difficulty, legacy_target)
    }
}

/// Sum of the work of the readable blocks up to `high`.
pub open spec fn total_work(stored: Map<u64, BlockModel>, fallback: u64, high: int) -> int
    decreases high + 1,
{
    if high < 0 {
        0
    } else {
        total_work(stored, fallback, high - 1) + if stored.dom().contains(high as u64) {
            crate::model::work_of(crate::model::target_of(stored[high as u64], fallback)) as int
        } else {
            0
        }
    }
}

/// The chain that existing records describe.
pub open spec fn resumed(
    records: RecordsModel,
    params: ParamsModel,
    legacy_target: u64,
) -> ChainModel {
    let height = meta_u64(records.meta, Meta::Height, 0);
    let c = ChainModel {
        stored: crate::blockchain::readable(records.blocks),
        loaded: records.blocks.dom(),
        meta: records.meta,
        height,
        difficulty: meta_difficulty(records.meta, params, legacy_target),
        target_block_ms: meta_u64(records.meta, Meta::TargetTime, BASE_TARGET_BLOCK_MS),
        chainwork: meta_work(records.meta),
    };
    if height == 0 {
        c.with_difficulty(params.testnet_target)
    } else if c.chainwork == 0 {
        c.with_chainwork(total_work(c.stored, params.testnet_target, height as int) as u128)
    } else {
        c
    }
}

/// A chain without blocks.
pub open spec fn blank(records: RecordsModel, params: ParamsModel) -> ChainModel {
    ChainModel {
        stored: crate::blockchain::readable(records.blocks),
        loaded: records.blocks.dom(),
        meta: records.meta,
        height: 0,
        difficulty: params.testnet_target,
        target_block_ms: BASE_TARGET_BLOCK_MS,
        chainwork: 0,
    }
}

/// A chain that holds genesis alone.
pub open spec fn fresh(
    records: RecordsModel,
    params: ParamsModel,
    genesis: BlockModel,
) -> ChainModel {
    let c = blank(records, params);
    ChainModel {
        stored: c.stored.insert(0, genesis),
        loaded: c.loaded.insert(0),
        ..c
    }.with_height(0).with_difficulty(
        params.testnet_target,
    ).with_target_time(BASE_TARGET_BLOCK_MS).with_chainwork(0)
}

/// A chain after the first `n` of a list of blocks have been stored.
pub open spec fn with_blocks(c: ChainModel, blocks: Seq<BlockModel>, n: int) -> ChainModel
    decreases n,
{
    if n <= 0 {
        c
    } else {
        with_blocks(c, blocks, n - 1).with_block(blocks[n - 1]).with_work(blocks[n - 1])
    }
}

/// The chain that a legacy list of blocks describes.
pub open spec fn migrated(
    records: RecordsModel,
    params: ParamsModel,
    legacy: Seq<BlockModel>,
) -> ChainModel {
    with_blocks(blank(records, params), legacy, legacy.len() as int).with_difficulty(
        crate::model::target_of(legacy.last(), params.testnet_target),
    ).with_target_time(BASE_TARGET_BLOCK_MS)
}

/// The chain that opens on given records: the one they describe if they hold a
/// height; otherwise the legacy blocks if there are any; otherwise genesis.
pub open spec fn opened(
    records: RecordsModel,
    params: ParamsModel,
    genesis: BlockModel,
    legacy: Seq<BlockModel>,
    legacy_target: u64,
) -> ChainModel {
    if records.meta.dom().contains(Meta::Height) {
        resumed(records, params, legacy_target)
    } else if legacy.len() > 0 {
        migrated(records, params, legacy)
    } else {
        fresh(records, params, genesis)
    }
}

/// The height on record, if there is a chain on record.
pub fn recorded_height(db: &Records) -> (height: Option<u64>)
    ensures
        height == if db@.meta.dom().contains(Meta::Height) {
            Some(meta_u64(db@.meta, Meta::Height, 0))
        } else {
            None
        },
{
    if db.meta(Meta::Height).is_some() {
        Some(read_u64(db, Meta::Height, 0))
    } else {
        None
    }
}

/// Whether the work of the chain on record has to be added up from its blocks, all
/// of which must be in memory for that.
pub fn lacks_chainwork(db: &Records) -> (lacks: bool)
    ensures
        lacks == (db@.meta.dom().contains(Meta::Height) && meta_u64(db@.meta, Meta::Height, 0) > 0
            && meta_work(db@.meta) == 0),
{
    db.meta(Meta::Height).is_some() && read_u64(db, Meta::Height, 0) > 0 && read_work(db) == 0
}

fn read_work(db: &Records) -> (work: u128)
    ensures
        work == meta_work(db@.meta),
{
    match db.meta(Meta::Chainwork) {
        Some(bytes) => {
            if bytes.len() == 16 {
                u128_from_le_bytes(bytes.as_slice())
            } else {
                0
            }
        },
        None => 0,
    }
}

fn read_u64(db: &Records, key: Meta, default: u64) -> (value: u64)
    ensures
        value == meta_u64(db@.meta, key, default),
{
    match db.meta(key) {
        Some(bytes) => {
            if bytes.len() == 8 {
                u64_from_le_bytes(bytes.as_slice())
            } else {
                default
            }
        },
        None => default,
    }
}

/// Whether a difficulty record that older versions wrote counts: it does where
/// blocks have been mined.
pub open spec fn legacy_difficulty(meta: Map<Meta, Seq<u8>>) -> bool {
    &&& meta.dom().contains(Meta::Height)
    &&& meta_u64(meta, Meta::Height, 0) > 0
    &&& meta.dom().contains(Meta::Difficulty)
    &&& meta[Meta::Difficulty].len() != 8
}

/// The bit count of a difficulty record that older versions wrote, if it counts.
/// The caller turns it into the target that stands for it.
pub fn legacy_difficulty_bits(db: &Records) -> (bits: Option<u32>)
    requires
        legacy_difficulty(db@.meta) ==> db@.meta[Meta::Difficulty].len() >= 4,
    ensures
        bits == if legacy_difficulty(db@.meta) {
            Some(
                vstd::bytes::spec_u32_from_le_bytes(db@.meta[Meta::Difficulty].subrange(0, 4)),
            )
        } else {
            None
        },
{
    if db.meta(Meta::Height).is_none() || read_u64(db, Meta::Height, 0) == 0 {
        return None;
    }
    match db.meta(Meta::Difficulty) {
        Some(bytes) => {
            if bytes.len() == 8 {
                None
            } else {
                let first = vstd::slice::slice_subrange(bytes.as_slice(), 0, 4);
                Some(u32_from_le_bytes(first))
            }
        },
        None => None,
    }
}

pub(crate) proof fn lemma_total_work_bounds(stored: Map<u64, BlockModel>, fallback: u64, high: int)
    requires
        -1 <= high <= u64::MAX,
    ensures
        0 <= total_work(stored, fallback, high) <= (high + 1) * u64::MAX,
    decreases high + 1,
{
    if high >= 0 {
        lemma_total_work_bounds(stored, fallback, high - 1);
        let target = crate::model::target_of(stored[high as u64], fallback);
        if target != 0 {
            assert(u64::MAX as int / target as int <= u64::MAX) by (nonlinear_arith)
                requires
                    target >= 1,
            ;
        }
        assert(crate::model::work_of(target) <= u64::MAX);
        assert(high * u64::MAX + u64::MAX == (high + 1) * u64::MAX) by (nonlinear_arith);
    }
}

impl Blockchain {
    fn sum_work(&self) -> (work: u128)
        ensures
            work == total_work(
                self@.stored,
                self.params.testnet_target,
                self.height as int,
            ),
    {
        let mut work: u128 = 0;
        let mut i: u64 = 0;
        loop
            invariant_except_break
                i <= self.height,
                work == total_work(self@.stored, self.params.testnet_target, i - 1),
            ensures
                work == total_work(self@.stored, self.params.testnet_target, self.height as int),
            decreases self.height - i,
        {
            proof {
                lemma_total_work_bounds(self@.stored, self.params.testnet_target, i as int);
                assert((i + 1) * u64::MAX <= u128::MAX) by (nonlinear_arith)
                    requires
                        0 <= i <= u64::MAX,
                ;
            }
            if let Some(block) = self.block_at(i) {
                work = work + block_work(
                    if block.difficulty_target != 0 {
                        block.difficulty_target
                    } else {
                        self.params.testnet_target
                    },
                );
            }
            if i == self.height {
                break;
            }
            i = i + 1;
        }
        work
    }

    /// Opens the chain on a database's records.
    ///
    /// Existing records are resumed; where they lack the cumulative work it is
    /// summed up from the blocks. Without records, a legacy list of blocks is
    /// taken over. Without that, the chain starts with genesis.
    pub fn load_or_create(
        db: Records,
        params: ChainParams,
        genesis: &Block,
        legacy: &[Block],
        legacy_target: u64,
    ) -> (chain: Self)
        requires
            db.wf(),
        ensures
            chain.wf(),
            chain.params == params,
            chain.on_disk() == db.on_disk(),
            chain@ == opened(
                db@,
                params@,
                genesis@,
                crate::block::block_models(legacy@),
                legacy_target,
            ),
    {
        if db.meta(Meta::Height).is_some() {
            return Self::resume(db, params, legacy_target);
        }
        let testnet_target: u64 = params.testnet_target;
        let ghost records = db@;
        let ghost disk = db.on_disk();
        let ghost network = params;
        let mut chain = Blockchain {
            db,
            height: 0,
            difficulty: testnet_target,
            target_block_ms: BASE_TARGET_BLOCK_MS,
            chainwork: 0,
            params,
        };
        if legacy.len() == 0 {
            let bytes = encode_block(genesis);
            chain.db.put_block(0, bytes);
            proof {
                crate::blockchain::lemma_readable_insert(records.blocks, 0, bytes@, genesis@);
            }
            chain.set_height(0);
            chain.set_difficulty(testnet_target);
            chain.set_target_time(BASE_TARGET_BLOCK_MS);
            chain.set_chainwork(0);
            return chain;
        }
        let mut i: usize = 0;
        while i < legacy.len()
            invariant
                i <= legacy.len(),
                chain.wf(),
                chain.params == network,
                chain.on_disk() == disk,
                chain@ == with_blocks(
                    blank(records, network@),
                    crate::block::block_models(legacy@),
                    i as int,
                ),
            decreases legacy.len() - i,
        {
            assert(crate::block::block_models(legacy@)[i as int] == legacy[i as int]@);
            chain.store_block(&legacy[i]);
            chain.add_work(&legacy[i]);
            i = i + 1;
        }
        let last = &legacy[legacy.len() - 1];
        assert(crate::block::block_models(legacy@).last() == last@);
        chain.set_difficulty(
            if last.difficulty_target != 0 {
                last.difficulty_target
            } else {
                testnet_target
            },
        );
        chain.set_target_time(BASE_TARGET_BLOCK_MS);
        chain
    }

    fn resume(db: Records, params: ChainParams, legacy_target: u64) -> (chain: Self)
        requires
            db.wf(),
        ensures
            chain.wf(),
            chain.params == params,
            chain.on_disk() == db.on_disk(),
            chain@ == resumed(db@, params@, legacy_target),
    {
        let height: u64 = read_u64(&db, Meta::Height, 0);
        let testnet_target: u64 = params.testnet_target;
        let difficulty: u64 = if db.meta(Meta::Difficulty).is_none() {
            testnet_target
        } else {
            read_u64(&db, Meta::Difficulty, legacy_target)
        };
        let target_block_ms: u64 = read_u64(&db, Meta::TargetTime, BASE_TARGET_BLOCK_MS);
        let chainwork: u128 = read_work(&db);
        let mut chain = Blockchain { db, height, difficulty, target_block_ms, chainwork, params };
        if height == 0 {
            chain.set_difficulty(testnet_target);
        } else if chainwork == 0 {
            let work: u128 = chain.sum_work();
            chain.set_chainwork(work);
        }
        chain
    }
}

} // verus!
