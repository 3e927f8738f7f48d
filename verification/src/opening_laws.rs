//! What a chain is when it opens.

use vstd::prelude::*;

use crate::block::BlockModel;
use crate::model::ChainModel;
use crate::params::{ParamsModel, BASE_TARGET_BLOCK_MS};
use crate::records::{Meta, RecordsModel};

verus! {

/// Without a height on record and without legacy blocks the chain starts with genesis:
/// its tip is genesis, the difficulty is the initial one, blocks take the base time,
/// there is no work yet, and all of this is on record.
pub proof fn law_a_chain_starts_with_genesis(
    records: RecordsModel,
    params: ParamsModel,
    genesis: BlockModel,
    legacy_target: u64,
)
    requires
        !records.meta.dom().contains(Meta::Height),
    ensures
        ({
            let c = crate::load::opened(records, params, genesis, Seq::empty(), legacy_target);
            &&& c.height == 0
            &&& c.stored.dom().contains(0)
            &&& c.stored[0] == genesis
            &&& c.difficulty == params.testnet_target
            &&& c.target_block_ms == BASE_TARGET_BLOCK_MS
            &&& c.chainwork == 0
            &&& c.persisted()
        }),
{
}

/// A chain on record is resumed where it stopped: with the height, the target block
/// time and the work on record, and with the blocks that can be read. The difficulty is
/// the one on record, a bit count of older versions standing for a target; without
/// one, or at genesis, it is the initial one. A missing target block time is the base
/// one.
pub proof fn law_a_chain_on_record_is_resumed(
    records: RecordsModel,
    params: ParamsModel,
    genesis: BlockModel,
    legacy: Seq<BlockModel>,
    legacy_target: u64,
    height: u64,
    work: u128,
)
    requires
        records.meta.dom().contains(Meta::Height),
        records.meta[Meta::Height] == vstd::bytes::spec_u64_to_le_bytes(height),
    ensures
        ({
            let c = crate::load::opened(records, params, genesis, legacy, legacy_target);
            let had = |m: Meta| records.meta.dom().contains(m);
            &&& c.height == height
            &&& c.stored == crate::blockchain::readable(records.blocks)
            &&& c.loaded == records.blocks.dom()
            &&& height == 0 || !had(Meta::Difficulty) ==> c.difficulty == params.testnet_target
            &&& forall|d: u64|
                height > 0 && had(Meta::Difficulty) && records.meta[Meta::Difficulty]
                    == #[trigger] vstd::bytes::spec_u64_to_le_bytes(d) ==> c.difficulty == d
            &&& height > 0 && had(Meta::Difficulty) && records.meta[Meta::Difficulty].len() != 8
                ==> c.difficulty == legacy_target
            &&& forall|t: u64|
                had(Meta::TargetTime) && records.meta[Meta::TargetTime]
                    == #[trigger] vstd::bytes::spec_u64_to_le_bytes(t) ==> c.target_block_ms == t
            &&& !had(Meta::TargetTime) || records.meta[Meta::TargetTime].len() != 8
                ==> c.target_block_ms == BASE_TARGET_BLOCK_MS
            &&& work > 0 && had(Meta::Chainwork) && records.meta[Meta::Chainwork]
                == vstd::bytes::spec_u128_to_le_bytes(work) ==> c.chainwork == work
        }),
{
    vstd::bytes::lemma_auto_spec_u64_to_from_le_bytes();
    vstd::bytes::lemma_auto_spec_u128_to_from_le_bytes();
}

/// A height on record that is not eight bytes long counts as zero.
pub proof fn law_an_odd_height_counts_as_zero(
    records: RecordsModel,
    params: ParamsModel,
    genesis: BlockModel,
    legacy: Seq<BlockModel>,
    legacy_target: u64,
)
    requires
        records.meta.dom().contains(Meta::Height),
        records.meta[Meta::Height].len() != 8,
    ensures
        ({
            let c = crate::load::opened(records, params, genesis, legacy, legacy_target);
            c.height == 0 && c.difficulty == params.testnet_target && c.stored
                == crate::blockchain::readable(records.blocks)
        }),
{
}

proof fn lemma_same_total(
    a: Map<u64, BlockModel>,
    b: Map<u64, BlockModel>,
    fallback: u64,
    high: int,
)
    requires
        high <= u64::MAX,
        forall|i: u64| #[trigger] a.dom().contains(i) <==> b.dom().contains(i),
        forall|i: u64| #[trigger]
            a.dom().contains(i) ==> b[i].difficulty_target == if a[i].difficulty_target == 0 {
                fallback
            } else {
                a[i].difficulty_target
            },
    ensures
        crate::load::total_work(a, fallback, high) == crate::load::total_work(b, fallback, high),
    decreases high + 1,
{
    if high >= 0 {
        lemma_same_total(a, b, fallback, high - 1);
        assert(a.dom().contains(high as u64) <==> b.dom().contains(high as u64));
    }
}

/// Where the work has to be added up, a block that records no target counts as one that
/// records the initial target.
pub proof fn law_a_block_without_a_target_counts_as_an_early_one(
    a: RecordsModel,
    b: RecordsModel,
    params: ParamsModel,
    genesis: BlockModel,
    legacy: Seq<BlockModel>,
    legacy_target: u64,
)
    requires
        a.meta == b.meta,
        a.meta.dom().contains(Meta::Height),
        !a.meta.dom().contains(Meta::Chainwork) || a.meta[Meta::Chainwork].len() != 16,
        ({
            let old = crate::blockchain::readable(a.blocks);
            let new = crate::blockchain::readable(b.blocks);
            &&& forall|i: u64| #[trigger] old.dom().contains(i) <==> new.dom().contains(i)
            &&& forall|i: u64| #[trigger]
                old.dom().contains(i) ==> new[i].difficulty_target
                    == if old[i].difficulty_target == 0 {
                    params.testnet_target
                } else {
                    old[i].difficulty_target
                }
        }),
    ensures
        crate::load::opened(a, params, genesis, legacy, legacy_target).chainwork
            == crate::load::opened(b, params, genesis, legacy, legacy_target).chainwork,
{
    lemma_same_total(
        crate::blockchain::readable(a.blocks),
        crate::blockchain::readable(b.blocks),
        params.testnet_target,
        crate::load::meta_u64(a.meta, Meta::Height, 0) as int,
    );
}

/// The target that stands for a difficulty record of older versions is what the chain
/// opens with where that record counts, and makes no difference where it does not.
pub proof fn law_when_an_old_difficulty_counts(
    records: RecordsModel,
    params: ParamsModel,
    genesis: BlockModel,
    legacy: Seq<BlockModel>,
    one: u64,
    other: u64,
)
    ensures
        crate::load::legacy_difficulty(records.meta) ==> crate::load::opened(
            records,
            params,
            genesis,
            legacy,
            one,
        ).difficulty == one,
        !crate::load::legacy_difficulty(records.meta) ==> crate::load::opened(
            records,
            params,
            genesis,
            legacy,
            one,
        ) == crate::load::opened(records, params, genesis, legacy, other),
{
}

/// A chain above genesis that has no work on record adds it up: that of genesis and
/// that of every mined block.
pub proof fn law_missing_work_is_added_up(
    records: RecordsModel,
    params: ParamsModel,
    genesis: BlockModel,
    legacy: Seq<BlockModel>,
    legacy_target: u64,
    height: u64,
)
    requires
        records.meta.dom().contains(Meta::Height),
        records.meta[Meta::Height] == vstd::bytes::spec_u64_to_le_bytes(height),
        height > 0,
        !records.meta.dom().contains(Meta::Chainwork) || records.meta[Meta::Chainwork].len() != 16,
        ({
            let stored = crate::blockchain::readable(records.blocks);
            &&& forall|i: u64| i <= height ==> #[trigger] stored.dom().contains(i)
            &&& forall|i: u64|
                0 < i <= height ==> (#[trigger] stored[i]).difficulty_target != 0
        }),
    ensures
        ({
            let c = crate::load::opened(records, params, genesis, legacy, legacy_target);
            let first = if c.stored[0].difficulty_target == 0 {
                params.testnet_target as int
            } else {
                c.stored[0].difficulty_target as int
            };
            let start = if first == 0 {
                1
            } else {
                u64::MAX as int / first
            };
            c.chainwork == start + crate::laws::work_up_to(c.stored, height as int)
        }),
{
    vstd::bytes::lemma_auto_spec_u64_to_from_le_bytes();
    let stored = crate::blockchain::readable(records.blocks);
    lemma_total_work(stored, params.testnet_target, height as int);
    crate::load::lemma_total_work_bounds(stored, params.testnet_target, height as int);
    assert((height + 1) * u64::MAX <= u128::MAX) by (nonlinear_arith)
        requires
            0 <= height <= u64::MAX,
    ;
}

proof fn lemma_total_work(stored: Map<u64, BlockModel>, fallback: u64, high: int)
    requires
        0 <= high <= u64::MAX,
        forall|i: u64| i <= high ==> #[trigger] stored.dom().contains(i),
        forall|i: u64| 0 < i <= high ==> (#[trigger] stored[i]).difficulty_target != 0,
    ensures
        crate::load::total_work(stored, fallback, high) == crate::model::work_of(
            crate::model::target_of(stored[0], fallback),
        ) + crate::laws::work_up_to(stored, high),
    decreases high,
{
    assert(stored.dom().contains(high as u64));
    if high > 0 {
        lemma_total_work(stored, fallback, high - 1);
        assert(stored[high as u64].difficulty_target != 0);
    } else {
        assert(crate::load::total_work(stored, fallback, -1) == 0);
    }
}

/// Legacy blocks are taken over where no height is on record: each is stored at its
/// index, the last one is the tip, the difficulty is the target that the last one
/// records, or the initial one, and blocks take the base time. The work grows with each
/// of them by its own.
pub proof fn law_legacy_blocks_are_taken_over(
    records: RecordsModel,
    params: ParamsModel,
    genesis: BlockModel,
    legacy: Seq<BlockModel>,
    legacy_target: u64,
)
    requires
        !records.meta.dom().contains(Meta::Height),
        0 < legacy.len() <= u64::MAX,
        forall|i: int| 0 <= i < legacy.len() ==> (#[trigger] legacy[i]).index == i,
    ensures
        ({
            let c = crate::load::opened(records, params, genesis, legacy, legacy_target);
            let last = legacy.last();
            &&& c.height == legacy.len() - 1
            &&& forall|i: u64| i < legacy.len() ==> #[trigger] c.stored.dom().contains(i)
            &&& forall|i: u64| i < legacy.len() ==> #[trigger] c.stored[i] == legacy[i as int]
            &&& c.difficulty == if last.difficulty_target == 0 {
                params.testnet_target
            } else {
                last.difficulty_target
            }
            &&& c.target_block_ms == BASE_TARGET_BLOCK_MS
            &&& legacy.len() == 1 ==> c.chainwork == if last.difficulty_target == 0
                && params.testnet_target == 0 {
                1
            } else if last.difficulty_target == 0 {
                u64::MAX as int / params.testnet_target as int
            } else {
                u64::MAX as int / last.difficulty_target as int
            }
            &&& legacy.len() > 1 && last.difficulty_target != 0 ==> c.chainwork
                == crate::load::opened(
                records,
                params,
                genesis,
                legacy.drop_last(),
                legacy_target,
            ).chainwork + u64::MAX as int / last.difficulty_target as int
        }),
{
    let n = legacy.len() as int;
    let start = crate::load::blank(records, params);
    let c = crate::load::opened(records, params, genesis, legacy, legacy_target);
    let all = crate::load::with_blocks(start, legacy, n);
    let last = legacy.last();
    lemma_with_blocks(start, legacy, n);
    assert(c.stored == all.stored && c.height == all.height && c.chainwork == all.chainwork);
    let before = crate::load::with_blocks(start, legacy, n - 1);
    crate::laws::lemma_work_bounds(crate::model::target_of(last, params.testnet_target));
    assert(all == before.with_block(last).with_work(last));
    if n > 1 {
        lemma_with_blocks(start, legacy, n - 1);
        lemma_with_blocks_prefix(start, legacy, legacy.drop_last(), n - 1);
        lemma_work_room(n);
        assert((n - 1) * u64::MAX + u64::MAX == n * u64::MAX) by (nonlinear_arith);
    } else {
        assert(before == start);
    }
}

proof fn lemma_work_room(n: int)
    requires
        0 <= n <= u64::MAX,
    ensures
        n * u64::MAX <= u128::MAX,
{
    assert(n * u64::MAX <= u128::MAX) by (nonlinear_arith)
        requires
            0 <= n <= u64::MAX,
    ;
}

proof fn lemma_with_blocks_prefix(
    c: ChainModel,
    a: Seq<BlockModel>,
    b: Seq<BlockModel>,
    n: int,
)
    requires
        n <= a.len(),
        n <= b.len(),
        forall|i: int| 0 <= i < n ==> a[i] == b[i],
    ensures
        crate::load::with_blocks(c, a, n) == crate::load::with_blocks(c, b, n),
    decreases n,
{
    if n > 0 {
        lemma_with_blocks_prefix(c, a, b, n - 1);
    }
}

proof fn lemma_with_blocks(start: ChainModel, legacy: Seq<BlockModel>, n: int)
    requires
        0 <= n <= legacy.len() <= u64::MAX,
        start.chainwork == 0,
        forall|i: int| 0 <= i < legacy.len() ==> (#[trigger] legacy[i]).index == i,
    ensures
        ({
            let c = crate::load::with_blocks(start, legacy, n);
            &&& n > 0 ==> c.height == n - 1
            &&& c.difficulty == start.difficulty
            &&& c.chainwork <= n * u64::MAX
            &&& forall|i: u64| i < n ==> #[trigger] c.stored.dom().contains(i)
            &&& forall|i: u64| i < n ==> #[trigger] c.stored[i] == legacy[i as int]
        }),
    decreases n,
{
    if n > 0 {
        lemma_with_blocks(start, legacy, n - 1);
        let before = crate::load::with_blocks(start, legacy, n - 1);
        let c = crate::load::with_blocks(start, legacy, n);
        let block = legacy[n - 1];
        assert(c.stored == before.stored.insert(block.index, block));
        assert(block.index == n - 1);
        crate::laws::lemma_work_bounds(crate::model::target_of(block, start.difficulty));
        assert((n - 1) * u64::MAX + u64::MAX == n * u64::MAX) by (nonlinear_arith);
        lemma_work_room(n);
        assert forall|i: u64| i < n implies #[trigger] c.stored.dom().contains(i) by {
            if i < n - 1 {
                assert(before.stored.dom().contains(i));
            }
        }
        assert forall|i: u64| i < n implies #[trigger] c.stored[i] == legacy[i as int] by {
            if i < n - 1 {
                assert(before.stored[i] == legacy[i as int]);
            }
        }
    }
}

} // verus!
