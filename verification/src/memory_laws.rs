//! Records that are not in memory: what a node decides from those that are is what it
//! would decide from all of them, as long as the ones it asks for are there.

use vstd::prelude::*;

use crate::block::BlockModel;
use crate::model::ChainModel;
use crate::params::{ParamsModel, ABC_WINDOW, FINALITY_DEPTH, LWMA_WINDOW};
use crate::queries::LocatorEntry;

verus! {

/// Whether `d` is the chain `c` with at least the same records in memory: what can be
/// read in `c` is in memory, and `d` has the same under each index that is in memory
/// in `c`.
pub open spec fn reads_more(c: ChainModel, d: ChainModel) -> bool {
    &&& d.height == c.height
    &&& d.difficulty == c.difficulty
    &&& d.target_block_ms == c.target_block_ms
    &&& d.chainwork == c.chainwork
    &&& forall|i: u64| #[trigger] c.stored.dom().contains(i) ==> c.loaded.contains(i)
    &&& forall|i: u64| #[trigger]
        c.loaded.contains(i) ==> (c.stored.dom().contains(i) <==> d.stored.dom().contains(i))
    &&& forall|i: u64| #[trigger]
        c.stored.dom().contains(i) && c.loaded.contains(i) ==> c.stored[i] == d.stored[i]
}

proof fn lemma_same_sums(
    a: Map<u64, BlockModel>,
    b: Map<u64, BlockModel>,
    start: int,
    t: int,
    fallback: u64,
    n: int,
)
    requires
        0 <= start,
        0 <= n,
        start + n <= u64::MAX,
        forall|i: u64| start <= i <= start + n ==> #[trigger] a[i] == b[i],
    ensures
        crate::model::weighted_time(a, start, t, n) == crate::model::weighted_time(b, start, t, n),
        crate::model::target_sum(a, start, fallback, n) == crate::model::target_sum(
            b,
            start,
            fallback,
            n,
        ),
    decreases n,
{
    if n > 0 {
        lemma_same_sums(a, b, start, t, fallback, n - 1);
        assert(a[(start + n) as u64] == b[(start + n) as u64]);
        assert(a[(start + n - 1) as u64] == b[(start + n - 1) as u64]);
    }
}

proof fn lemma_same_lwma(c: ChainModel, d: ChainModel, params: ParamsModel)
    requires
        reads_more(c, d),
        c.holds(crate::model::monus(c.height as int, LWMA_WINDOW as int), c.height as int),
    ensures
        c.lwma(params) == d.lwma(params),
{
    let n = crate::model::min_int(LWMA_WINDOW as int, c.height as int);
    let start = c.height - n;
    assert forall|i: u64| start <= i <= c.height implies c.stored.dom().contains(i)
        == d.stored.dom().contains(i) by {
        assert(c.loaded.contains(i));
    }
    assert(crate::model::present(c.stored, start, c.height as int) == crate::model::present(
        d.stored,
        start,
        c.height as int,
    ));
    if crate::model::present(c.stored, start, c.height as int) {
        assert forall|i: u64| start <= i <= start + n implies #[trigger] c.stored[i]
            == d.stored[i] by {
            assert(c.stored.dom().contains(i));
        }
        lemma_same_sums(
            c.stored,
            d.stored,
            start,
            c.target_block_ms as int,
            c.difficulty,
            n,
        );
    }
}

proof fn lemma_same_count(c: ChainModel, d: ChainModel, low: int, high: int)
    requires
        reads_more(c, d),
        1 <= low,
        high <= c.height,
        c.holds(low - 1, c.height as int),
    ensures
        crate::model::fast_count(c.stored, low, high) == crate::model::fast_count(
            d.stored,
            low,
            high,
        ),
    decreases high - low + 1,
{
    if high >= low {
        lemma_same_count(c, d, low, high - 1);
        assert(c.loaded.contains(high as u64));
        assert(c.loaded.contains((high - 1) as u64));
    }
}

/// The records around the tip that a node asks for decide on the difficulty and the
/// target block time, both once a block follows the tip and once the tip is taken back:
/// more records in memory make no difference.
pub proof fn law_the_window_in_memory_suffices(
    c: ChainModel,
    d: ChainModel,
    block: BlockModel,
    params: ParamsModel,
)
    requires
        reads_more(c, d),
        c.has_tip(),
        c.holds_window(),
        block.index == c.height + 1,
    ensures
        c.applied(block, params).difficulty == d.applied(block, params).difficulty,
        c.applied(block, params).target_block_ms == d.applied(block, params).target_block_ms,
        c.applied(block, params).chainwork == d.applied(block, params).chainwork,
        c.height > 0 ==> c.reverted(params).difficulty == d.reverted(params).difficulty,
        c.height > 0 ==> c.reverted(params).chainwork == d.reverted(params).chainwork,
{
    let a = c.with_block(block);
    let b = d.with_block(block);
    assert(reads_more(a, b));
    lemma_same_lwma(a, b, params);
    let a = a.retargeted(params).with_work(block);
    let b = b.retargeted(params).with_work(block);
    assert(reads_more(a, b));
    if a.height >= ABC_WINDOW {
        lemma_same_count(a, b, a.height - ABC_WINDOW + 1, a.height as int);
    }
    if c.height > 0 {
        assert(c.loaded.contains(c.height));
        lemma_same_revert(c, d, params);
    }
}

proof fn lemma_same_revert(c: ChainModel, d: ChainModel, params: ParamsModel)
    requires
        reads_more(c, d),
        c.has_tip(),
        c.height > 0,
        c.holds(crate::model::monus(c.height as int, LWMA_WINDOW + 1), c.height as int),
    ensures
        reads_more(c.reverted(params), d.reverted(params)),
{
    assert(c.tip() == d.tip());
    let a = ChainModel {
        stored: c.stored.remove(c.height),
        loaded: c.loaded.remove(c.height),
        ..c
    }.with_height((c.height - 1) as u64).without_work(c.tip());
    let b = ChainModel {
        stored: d.stored.remove(d.height),
        loaded: d.loaded.remove(d.height),
        ..d
    }.with_height((d.height - 1) as u64).without_work(d.tip());
    assert(reads_more(a, b));
    lemma_same_lwma(a, b, params);
}

proof fn lemma_same_going_back(c: ChainModel, d: ChainModel, target: u64, params: ParamsModel)
    requires
        reads_more(c, d),
        crate::model::present(c.stored, target + 1, c.height as int),
        c.holds(crate::model::monus(target as int, LWMA_WINDOW as int), c.height as int),
    ensures
        reads_more(c.reverted_above(target, params), d.reverted_above(target, params)),
    decreases c.height,
{
    if c.height > target {
        assert(c.stored.dom().contains(c.height));
        lemma_same_revert(c, d, params);
        lemma_same_going_back(c.reverted(params), d.reverted(params), target, params);
    }
}

/// The recent records that a node asks for decide on the outcome of going back to any
/// block that is not final: more records in memory make no difference.
pub proof fn law_the_recent_records_suffice(
    c: ChainModel,
    d: ChainModel,
    target: u64,
    params: ParamsModel,
)
    requires
        reads_more(c, d),
        c.holds_recent(),
        c.height <= target + FINALITY_DEPTH,
        crate::model::present(c.stored, target + 1, c.height as int),
    ensures
        ({
            let a = c.reverted_to(target, params);
            let b = d.reverted_to(target, params);
            &&& a.height == b.height
            &&& a.difficulty == b.difficulty
            &&& a.target_block_ms == b.target_block_ms
            &&& a.chainwork == b.chainwork
        }),
{
    lemma_same_going_back(c, d, target, params);
}

spec fn below(height: Option<u64>, low: int) -> bool {
    height matches Some(h) ==> h < low
}

proof fn lemma_same_fork(
    c: ChainModel,
    d: ChainModel,
    incoming: Seq<BlockModel>,
    low: int,
    n: int,
)
    requires
        reads_more(c, d),
        0 <= low,
        0 <= n <= incoming.len(),
        c.holds(low, c.height as int),
    ensures
        ({
            let x = c.fork_point_among(incoming, n);
            let y = d.fork_point_among(incoming, n);
            x == y || below(x, low) && below(y, low)
        }),
    decreases n,
{
    if n > 0 {
        lemma_same_fork(c, d, incoming, low, n - 1);
        let block = incoming[n - 1];
        if low <= block.index <= c.height {
            assert(c.loaded.contains(block.index));
        }
        if low <= block.index - 1 <= c.height {
            assert(c.loaded.contains((block.index - 1) as u64));
        }
        let p = c.meets(block);
        let q = d.meets(block);
        assert(p == q || below(p, low) && below(q, low));
    }
}

/// With the recent records in memory, a node finds the fork with a branch that leaves
/// the chain no deeper than the final blocks: more records in memory make no
/// difference.
pub proof fn law_a_recent_fork_is_found(
    c: ChainModel,
    d: ChainModel,
    incoming: Seq<BlockModel>,
    fork: u64,
)
    requires
        reads_more(c, d),
        c.holds_recent(),
        c.height <= fork + FINALITY_DEPTH,
    ensures
        c.fork_point(incoming) == Some(fork) <==> d.fork_point(incoming) == Some(fork),
{
    let low = crate::model::monus(c.height as int, FINALITY_DEPTH + LWMA_WINDOW);
    lemma_same_fork(c, d, incoming, low, incoming.len() as int);
}

proof fn lemma_same_ancestor(
    c: ChainModel,
    d: ChainModel,
    locator: Seq<LocatorEntry>,
    n: int,
)
    requires
        reads_more(c, d),
        c.holds_entries(locator),
        0 <= n <= locator.len(),
    ensures
        c.common_ancestor_among(locator, n) == d.common_ancestor_among(locator, n),
    decreases n,
{
    if n > 0 {
        lemma_same_ancestor(c, d, locator, n - 1);
        let entry = locator[n - 1];
        if entry.0 <= c.height {
            assert(c.loaded.contains(entry.0));
        }
        assert(c.shares(entry) == d.shares(entry));
    }
}

/// With the records in memory that a locator names, a node finds the common ancestor:
/// more records in memory make no difference.
pub proof fn law_the_named_records_suffice(
    c: ChainModel,
    d: ChainModel,
    locator: Seq<LocatorEntry>,
)
    requires
        reads_more(c, d),
        c.holds_entries(locator),
    ensures
        c.common_ancestor(locator) == d.common_ancestor(locator),
{
    lemma_same_ancestor(c, d, locator, locator.len() as int);
}

proof fn lemma_same_walk(
    c: ChainModel,
    d: ChainModel,
    h: u64,
    step: u64,
    found: Seq<LocatorEntry>,
)
    requires
        reads_more(c, d),
    ensures
        c.walk_gap(h, step, found.len() as int) is None ==> {
            &&& c.locator_walk(h, step, found) == d.locator_walk(h, step, found)
            &&& c.loaded.contains(0)
        },
        c.walk_gap(h, step, found.len() as int) matches Some(gap) ==> gap <= h
            && !c.loaded.contains(gap),
    decreases h,
{
    if c.loaded.contains(h) {
        let here = if c.stored.dom().contains(h) {
            found.push(c.entry(h))
        } else {
            found
        };
        if !(h == 0 || here.len() >= 32 || step == 0) {
            lemma_same_walk(
                c,
                d,
                crate::model::monus(h as int, step as int) as u64,
                if here.len() > 1 {
                    crate::model::min_int(2 * step, u64::MAX as int) as u64
                } else {
                    step
                },
                here,
            );
        }
    }
}

/// A block locator for which no record is missing is the one that all records give; a
/// record that is missing is one that is not in memory.
pub proof fn law_a_locator_without_a_gap_is_complete(c: ChainModel, d: ChainModel)
    requires
        reads_more(c, d),
    ensures
        c.locator_gap() is None ==> c.locator() == d.locator(),
        c.locator_gap() matches Some(gap) ==> gap <= c.height && !c.loaded.contains(gap),
{
    lemma_same_walk(c, d, c.height, 1, Seq::empty());
}

} // verus!
