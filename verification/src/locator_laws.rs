//! What block locators and lists of blocks promise.

use vstd::prelude::*;

use crate::block::BlockModel;
use crate::model::ChainModel;
use crate::queries::LocatorEntry;

verus! {

/// Whether the heights of a locator go down all the way.
pub open spec fn descending(locator: Seq<LocatorEntry>) -> bool {
    forall|i: int, j: int|
        0 <= i < j < locator.len() ==> (#[trigger] locator[i]).0 > (#[trigger] locator[j]).0
}

/// How far below the tip the `k`-th entry of a locator lies: 0, 1, 2, 4, 8, ...
pub open spec fn spacing(k: int) -> int
    decreases k,
{
    if k <= 0 {
        0
    } else if k == 1 {
        1
    } else {
        2 * spacing(k - 1)
    }
}

proof fn lemma_spacing(k: int)
    requires
        0 <= k <= 32,
    ensures
        k <= spacing(k) <= 0x8000_0000,
        k >= 1 ==> spacing(k + 1) == spacing(k) + spacing(k),
        k >= 1 ==> spacing(k) >= 1,
        k < 32 ==> 2 * spacing(k) <= 0x8000_0000,
{
    reveal_with_fuel(spacing, 34);
    assert(spacing(32) == 0x8000_0000);
    lemma_spacing_monotone(k, 32);
    if k < 32 {
        lemma_spacing_monotone(k + 1, 32);
    }
    lemma_spacing_at_least(k);
}

proof fn lemma_spacing_at_least(k: int)
    requires
        0 <= k,
    ensures
        spacing(k) >= k,
    decreases k,
{
    if k > 1 {
        lemma_spacing_at_least(k - 1);
    }
}

proof fn lemma_spacing_monotone(a: int, b: int)
    requires
        0 <= a <= b,
    ensures
        0 <= spacing(a) <= spacing(b),
    decreases b,
{
    lemma_spacing_at_least(a);
    if a < b {
        lemma_spacing_monotone(a, b - 1);
    }
}

proof fn lemma_walk(c: ChainModel, h: u64, step: u64, found: Seq<LocatorEntry>)
    requires
        h <= c.height,
        step >= 1,
        found.len() < 32,
        descending(found),
        found.len() > 0 ==> found.last().0 > h,
        forall|i: int| 0 <= i < found.len() ==> c.shares(#[trigger] found[i]),
    ensures
        descending(c.locator_walk(h, step, found)),
        c.locator_walk(h, step, found).len() <= 32,
        c.locator_walk(h, step, found).len() >= found.len(),
        forall|i: int|
            0 <= i < found.len() ==> c.locator_walk(h, step, found)[i] == #[trigger] found[i],
        forall|i: int|
            0 <= i < c.locator_walk(h, step, found).len() ==> c.shares(
                #[trigger] c.locator_walk(h, step, found)[i],
            ),
        c.stored.dom().contains(h) ==> c.locator_walk(h, step, found).len() > found.len()
            && c.locator_walk(h, step, found)[found.len() as int] == c.entry(h),
    decreases h,
{
    let here = if c.stored.dom().contains(h) {
        found.push(c.entry(h))
    } else {
        found
    };
    assert(descending(here)) by {
        if c.stored.dom().contains(h) {
            assert forall|i: int, j: int| 0 <= i < j < here.len() implies (#[trigger] here[i]).0
                > (#[trigger] here[j]).0 by {
                if j == found.len() {
                    assert(here[i] == found[i]);
                    if i < found.len() - 1 {
                        assert(found[i].0 > found[found.len() - 1].0);
                    }
                } else {
                    assert(here[i] == found[i] && here[j] == found[j]);
                }
            }
        }
    }
    assert forall|i: int| 0 <= i < here.len() implies c.shares(#[trigger] here[i]) by {
        if i < found.len() {
            assert(here[i] == found[i]);
        }
    }
    if h == 0 || here.len() >= 32 {
    } else {
        let next_h = crate::model::monus(h as int, step as int) as u64;
        let next_step = if here.len() > 1 {
            crate::model::min_int(2 * step, u64::MAX as int) as u64
        } else {
            step
        };
        lemma_walk(c, next_h, next_step, here);
        let all = c.locator_walk(h, step, found);
        assert forall|i: int| 0 <= i < found.len() implies all[i] == #[trigger] found[i] by {
            assert(here[i] == found[i]);
            assert(all[i] == here[i]);
        }
        if c.stored.dom().contains(h) {
            assert(all[found.len() as int] == here[found.len() as int]);
        }
    }
}

/// Every entry of a locator names a block of the chain, the heights go down all
/// the way, and there are at most thirty-three entries. If genesis can be read it
/// is the last entry, and if the tip can be read it is the first.
pub proof fn law_locator_is_well_formed(c: ChainModel)
    ensures
        descending(c.locator()),
        c.locator().len() <= 33,
        forall|i: int| 0 <= i < c.locator().len() ==> c.shares(#[trigger] c.locator()[i]),
        c.stored.dom().contains(0) ==> c.locator().len() > 0 && c.locator().last() == c.entry(0),
        c.has_tip() ==> c.locator().len() > 0 && c.locator()[0] == c.entry(c.height),
{
    let walk = c.locator_walk(c.height, 1, Seq::empty());
    lemma_walk(c, c.height, 1, Seq::empty());
    let all = c.locator();
    assert forall|i: int| 0 <= i < all.len() implies c.shares(#[trigger] all[i]) by {
        if i < walk.len() {
            assert(all[i] == walk[i]);
        }
    }
    assert forall|i: int, j: int| 0 <= i < j < all.len() implies (#[trigger] all[i]).0 > (
    #[trigger] all[j]).0 by {
        if j == walk.len() {
            assert(all[i] == walk[i]);
            assert(walk[walk.len() - 1].0 != 0);
            if i < walk.len() - 1 {
                assert(walk[i].0 > walk[walk.len() - 1].0);
            }
        } else {
            assert(all[i] == walk[i] && all[j] == walk[j]);
        }
    }
    if c.stored.dom().contains(0) {
        if walk.len() > 0 && walk.last().0 == 0 {
            assert(c.shares(walk[walk.len() - 1]));
        }
    }
}

proof fn lemma_walk_spacing(c: ChainModel, h: u64, step: u64, found: Seq<LocatorEntry>)
    requires
        crate::model::present(c.stored, 0, c.height as int),
        found.len() < 32,
        h == crate::model::monus(c.height as int, spacing(found.len() as int)),
        step == if found.len() == 0 {
            1
        } else {
            spacing(found.len() as int)
        },
        found.len() > 0 ==> found.last().0 > h,
        forall|i: int|
            0 <= i < found.len() ==> (#[trigger] found[i]).0 == crate::model::monus(
                c.height as int,
                spacing(i),
            ),
    ensures
        forall|i: int|
            0 <= i < c.locator_walk(h, step, found).len() ==> (#[trigger] c.locator_walk(
                h,
                step,
                found,
            )[i]).0 == crate::model::monus(c.height as int, spacing(i)),
        c.locator_walk(h, step, found).len() > found.len(),
        forall|i: int|
            0 <= i < 32 && #[trigger] spacing(i) < c.height ==> i < c.locator_walk(
                h,
                step,
                found,
            ).len(),
    decreases h,
{
    let k = found.len() as int;
    lemma_spacing(k);
    assert(c.stored.dom().contains(h));
    let here = found.push(c.entry(h));
    assert forall|i: int| 0 <= i < here.len() implies (#[trigger] here[i]).0
        == crate::model::monus(c.height as int, spacing(i)) by {
        if i < k {
            assert(here[i] == found[i]);
        }
    }
    assert(step >= 1);
    if h == 0 || here.len() >= 32 {
        assert(c.locator_walk(h, step, found) == here);
        assert forall|i: int| 0 <= i < 32 && #[trigger] spacing(i) < c.height implies i
            < here.len() by {
            if i >= here.len() {
                lemma_spacing_monotone(k, i);
            }
        }
    } else {
        lemma_spacing(k + 1);
        assert(spacing(0) == 0 && spacing(1) == 1);
        let next_h = crate::model::monus(h as int, step as int) as u64;
        let next_step = if here.len() > 1 {
            crate::model::min_int(2 * step, u64::MAX as int) as u64
        } else {
            step
        };
        lemma_walk_spacing(c, next_h, next_step, here);
        assert(c.locator_walk(h, step, found) == c.locator_walk(next_h, next_step, here));
    }
}

/// On a chain that can be read throughout, the entries of a locator lie 0, 1, 2,
/// 4, 8, ... blocks below the tip, and genesis follows. None of these heights above
/// genesis is left out, up to thirty-two of them.
pub proof fn law_locator_is_exponentially_spaced(c: ChainModel)
    requires
        crate::model::present(c.stored, 0, c.height as int),
    ensures
        forall|i: int|
            0 <= i < c.locator().len() - 1 ==> (#[trigger] c.locator()[i]).0
                == crate::model::monus(c.height as int, spacing(i)),
        c.locator().last() == c.entry(0),
        forall|k: int|
            0 <= k < 32 && #[trigger] spacing(k) < c.height ==> k < c.locator().len() - 1
                && c.locator()[k].0 == c.height - spacing(k),
{
    law_locator_is_well_formed(c);
    let walk = c.locator_walk(c.height, 1, Seq::empty());
    lemma_walk_spacing(c, c.height, 1, Seq::empty());
    assert(c.stored.dom().contains(0));
    assert forall|i: int| 0 <= i < c.locator().len() - 1 implies (#[trigger] c.locator()[i]).0
        == crate::model::monus(c.height as int, spacing(i)) by {
        assert(c.locator()[i] == walk[i]);
    }
    assert forall|k: int| 0 <= k < 32 && #[trigger] spacing(k) < c.height implies k
        < c.locator().len() - 1 && c.locator()[k].0 == c.height - spacing(k) by {
        assert(k < walk.len());
        assert(walk[k].0 == c.height - spacing(k));
        assert(c.locator()[k] == walk[k]);
    }
}

proof fn lemma_common_ancestor(c: ChainModel, locator: Seq<LocatorEntry>, n: int)
    requires
        0 <= n <= locator.len(),
    ensures
        match c.common_ancestor_among(locator, n) {
            Some(height) => {
                &&& exists|i: int|
                    0 <= i < n && (#[trigger] locator[i]).0 == height && c.shares(locator[i])
                &&& forall|j: int|
                    0 <= j < n && c.shares(#[trigger] locator[j]) ==> locator[j].0 <= height
            },
            None => forall|j: int| 0 <= j < n ==> !c.shares(#[trigger] locator[j]),
        },
    decreases n,
{
    if n > 0 {
        lemma_common_ancestor(c, locator, n - 1);
        let last = locator[n - 1];
        let before = c.common_ancestor_among(locator, n - 1);
        if before is Some {
            let i = choose|i: int|
                0 <= i < n - 1 && (#[trigger] locator[i]).0 == before->0 && c.shares(locator[i]);
            assert(locator[i].0 == before->0);
        }
        assert(c.shares(last) ==> locator[n - 1].0 == last.0);
    }
}

/// The common ancestor is the highest entry of a locator that is on the chain, and
/// there is none only if no entry is.
pub proof fn law_common_ancestor_is_the_highest(c: ChainModel, locator: Seq<LocatorEntry>)
    ensures
        match c.common_ancestor(locator) {
            Some(height) => {
                &&& exists|i: int|
                    0 <= i < locator.len() && (#[trigger] locator[i]).0 == height && c.shares(
                        locator[i],
                    )
                &&& forall|j: int|
                    0 <= j < locator.len() && c.shares(#[trigger] locator[j]) ==> locator[j].0
                        <= height
            },
            None => forall|j: int| 0 <= j < locator.len() ==> !c.shares(#[trigger] locator[j]),
        },
{
    lemma_common_ancestor(c, locator, locator.len() as int);
}

/// Two chains with the same genesis block find a common ancestor from either
/// one's locator, and it is on both.
pub proof fn law_same_genesis_gives_common_ancestor(ours: ChainModel, theirs: ChainModel)
    requires
        ours.stored.dom().contains(0),
        theirs.stored.dom().contains(0),
        ours.stored[0].hash == theirs.stored[0].hash,
    ensures
        ours.common_ancestor(theirs.locator()) matches Some(height) && ours.shares(
            theirs.entry(height),
        ) && theirs.block(height) is Some,
{
    law_locator_is_well_formed(theirs);
    let locator = theirs.locator();
    law_common_ancestor_is_the_highest(ours, locator);
    assert(theirs.entry(0) == ours.entry(0));
    assert(ours.shares(locator[locator.len() - 1]));
    let height = ours.common_ancestor(locator)->0;
    let i = choose|i: int|
        0 <= i < locator.len() && (#[trigger] locator[i]).0 == height && ours.shares(locator[i]);
    assert(theirs.shares(locator[i]));
}

proof fn lemma_fork_point(c: ChainModel, incoming: Seq<BlockModel>, n: int)
    requires
        0 <= n <= incoming.len(),
    ensures
        match c.fork_point_among(incoming, n) {
            Some(height) => {
                &&& exists|i: int| 0 <= i < n && c.meets(#[trigger] incoming[i]) == Some(height)
                &&& forall|j: int|
                    0 <= j < n ==> (c.meets(#[trigger] incoming[j]) matches Some(h) ==> h
                        <= height)
            },
            None => forall|j: int| 0 <= j < n ==> c.meets(#[trigger] incoming[j]) is None,
        },
    decreases n,
{
    if n > 0 {
        lemma_fork_point(c, incoming, n - 1);
        let before = c.fork_point_among(incoming, n - 1);
        let last = c.meets(incoming[n - 1]);
        if before is Some {
            let i = choose|i: int| 0 <= i < n - 1 && c.meets(#[trigger] incoming[i]) == before;
            assert(c.meets(incoming[i]) == before);
        }
        assert(c.meets(incoming[n - 1]) == last);
    }
}

/// The fork point is where one of the incoming blocks meets the chain, and none of
/// them meets it higher up. There is none only if no incoming block meets the
/// chain.
pub proof fn law_fork_point_is_the_last_common_ancestor(
    c: ChainModel,
    incoming: Seq<BlockModel>,
)
    ensures
        match c.fork_point(incoming) {
            Some(height) => {
                &&& exists|i: int|
                    0 <= i < incoming.len() && c.meets(#[trigger] incoming[i]) == Some(height)
                &&& forall|j: int|
                    0 <= j < incoming.len() ==> (c.meets(#[trigger] incoming[j]) matches Some(h)
                        ==> h <= height)
            },
            None => forall|j: int|
                0 <= j < incoming.len() ==> c.meets(#[trigger] incoming[j]) is None,
        },
{
    lemma_fork_point(c, incoming, incoming.len() as int);
}

/// The fork point is the height of a block that this chain has and the incoming ones
/// share: one of them is that block or follows it. No incoming block is a block of
/// this chain higher up, and none follows one higher up. There is no fork point only
/// if there is no such block at all.
pub proof fn law_fork_point_is_shared(c: ChainModel, incoming: Seq<BlockModel>)
    ensures
        match c.fork_point(incoming) {
            Some(h) => {
                &&& h <= c.height
                &&& c.stored.dom().contains(h)
                &&& exists|i: int|
                    0 <= i < incoming.len() && {
                        let b = #[trigger] incoming[i];
                        ||| b.index == h && b.hash == c.stored[h].hash
                        ||| b.index == h + 1 && b.prev_hash == c.stored[h].hash
                    }
                &&& forall|i: int|
                    0 <= i < incoming.len() ==> {
                        let b = #[trigger] incoming[i];
                        &&& h < b.index <= c.height && c.stored.dom().contains(b.index) ==> b.hash
                            != c.stored[b.index].hash
                        &&& h + 1 < b.index <= c.height + 1 && c.stored.dom().contains(
                            (b.index - 1) as u64,
                        ) ==> b.prev_hash != c.stored[(b.index - 1) as u64].hash || b.hash
                            == c.stored[b.index].hash
                    }
            },
            None => forall|i: int|
                0 <= i < incoming.len() ==> {
                    let b = #[trigger] incoming[i];
                    &&& b.index <= c.height && c.stored.dom().contains(b.index) ==> b.hash
                        != c.stored[b.index].hash
                    &&& 1 <= b.index <= c.height + 1 && c.stored.dom().contains(
                        (b.index - 1) as u64,
                    ) ==> b.prev_hash != c.stored[(b.index - 1) as u64].hash
                },
        },
{
    law_fork_point_is_the_last_common_ancestor(c, incoming);
    match c.fork_point(incoming) {
        Some(h) => {
            let i = choose|i: int|
                0 <= i < incoming.len() && c.meets(#[trigger] incoming[i]) == Some(h);
            assert(c.meets(incoming[i]) == Some(h));
            assert forall|j: int| 0 <= j < incoming.len() implies {
                let b = #[trigger] incoming[j];
                &&& h < b.index <= c.height && c.stored.dom().contains(b.index) ==> b.hash
                    != c.stored[b.index].hash
                &&& h + 1 < b.index <= c.height + 1 && c.stored.dom().contains(
                    (b.index - 1) as u64,
                ) ==> b.prev_hash != c.stored[(b.index - 1) as u64].hash || b.hash
                    == c.stored[b.index].hash
            } by {
                let b = incoming[j];
                assert(c.meets(b) matches Some(x) ==> x <= h);
            }
        },
        None => {
            assert forall|j: int| 0 <= j < incoming.len() implies {
                let b = #[trigger] incoming[j];
                &&& b.index <= c.height && c.stored.dom().contains(b.index) ==> b.hash
                    != c.stored[b.index].hash
                &&& 1 <= b.index <= c.height + 1 && c.stored.dom().contains(
                    (b.index - 1) as u64,
                ) ==> b.prev_hash != c.stored[(b.index - 1) as u64].hash
            } by {
                assert(c.meets(incoming[j]) is None);
            }
        },
    }
}

/// The common ancestor is the height of a block that this chain has under the hash that
/// the locator gives, and of the highest such block.
pub proof fn law_common_ancestor_is_shared(c: ChainModel, locator: Seq<LocatorEntry>)
    ensures
        ({
            let ours = |e: LocatorEntry|
                {
                    &&& e.0 <= c.height
                    &&& c.stored.dom().contains(e.0)
                    &&& e.1 == crate::hash::hex_text(c.stored[e.0].hash@)
                };
            match c.common_ancestor(locator) {
                Some(height) => {
                    &&& exists|i: int|
                        0 <= i < locator.len() && (#[trigger] locator[i]).0 == height && ours(
                            locator[i],
                        )
                    &&& forall|j: int|
                        0 <= j < locator.len() && ours(#[trigger] locator[j]) ==> locator[j].0
                            <= height
                },
                None => forall|j: int| 0 <= j < locator.len() ==> !ours(#[trigger] locator[j]),
            }
        }),
{
    law_common_ancestor_is_the_highest(c, locator);
    assert forall|e: LocatorEntry| #[trigger] c.shares(e) == {
        &&& e.0 <= c.height
        &&& c.stored.dom().contains(e.0)
        &&& e.1 == crate::hash::hex_text(c.stored[e.0].hash@)
    } by {}
}

// ── Pages and lists ──────────────────────────────────────────────────────────

/// A page of a linked chain goes from the block `offset` below the tip down, block by
/// block, as far as was asked for or to genesis.
pub proof fn law_page_goes_down_from_the_tip(c: ChainModel, offset: int, limit: int)
    requires
        c.linked(),
        0 <= offset <= c.height,
        0 <= limit,
    ensures
        c.page(offset, limit).len() == if limit <= c.height - offset {
            limit
        } else {
            c.height - offset + 1
        },
        forall|k: int|
            0 <= k < c.page(offset, limit).len() ==> #[trigger] c.page(offset, limit)[k]
                == c.stored[(c.height - offset - k) as u64],
{
    if limit > 0 {
        let start = c.height - offset;
        let low = crate::model::monus(start, limit - 1);
        crate::laws::law_range_of_linked_chain(c, low, start);
        let range = c.blocks_between(low, start);
        let page = c.page(offset, limit);
        assert forall|k: int| 0 <= k < page.len() implies #[trigger] page[k] == c.stored[(start
            - k) as u64] by {
            assert(page[k] == range[range.len() - 1 - k]);
            assert(range[start - k - low] == c.stored[(low + (start - k - low)) as u64]);
        }
    }
}

/// The list of a miner's blocks holds every block of theirs on a linked chain, none of
/// anybody else's, and the older one before the newer one.
pub proof fn law_a_miners_list_is_complete(c: ChainModel, pubkey: [u8; 32])
    requires
        c.linked(),
    ensures
        forall|i: u64|
            i <= c.height && (#[trigger] c.stored[i]).miner == pubkey ==> c.mined_by(
                pubkey,
            ).contains(c.stored[i]),
        forall|k: int|
            0 <= k < c.mined_by(pubkey).len() ==> {
                let b = #[trigger] c.mined_by(pubkey)[k];
                b.miner == pubkey && b.index <= c.height && b == c.stored[b.index]
            },
        forall|j: int, k: int|
            0 <= j < k < c.mined_by(pubkey).len() ==> (#[trigger] c.mined_by(pubkey)[j]).index < (
            #[trigger] c.mined_by(pubkey)[k]).index,
{
    let all = c.blocks_between(0, c.height as int);
    let theirs = |b: BlockModel| b.miner == pubkey;
    crate::laws::law_range_of_linked_chain(c, 0, c.height as int);
    assert forall|i: u64| i <= c.height && (#[trigger] c.stored[i]).miner == pubkey implies c.mined_by(
        pubkey,
    ).contains(c.stored[i]) by {
        assert(all[i as int] == c.stored[(0 + i as int) as u64]);
        all.lemma_filter_contains(theirs, i as int);
    }
    lemma_filtered_range(all, theirs);
    assert forall|k: int| 0 <= k < c.mined_by(pubkey).len() implies {
        let b = #[trigger] c.mined_by(pubkey)[k];
        b.miner == pubkey && b.index <= c.height && b == c.stored[b.index]
    } by {
        let b = c.mined_by(pubkey)[k];
        assert(all.contains(b) && theirs(b));
        let i = choose|i: int| 0 <= i < all.len() && all[i] == b;
        assert(all[i] == c.stored[(0 + i) as u64]);
    }
}

/// Filtering keeps the order of a list, and what it keeps was in the list.
proof fn lemma_filtered_range(all: Seq<BlockModel>, keep: spec_fn(BlockModel) -> bool)
    requires
        forall|i: int| 0 <= i < all.len() ==> (#[trigger] all[i]).index == i,
    ensures
        forall|k: int|
            0 <= k < all.filter(keep).len() ==> all.contains(#[trigger] all.filter(keep)[k])
                && keep(all.filter(keep)[k]) && all.filter(keep)[k].index < all.len(),
        forall|j: int, k: int|
            0 <= j < k < all.filter(keep).len() ==> (#[trigger] all.filter(keep)[j]).index < (
            #[trigger] all.filter(keep)[k]).index,
    decreases all.len(),
{
    reveal(Seq::filter);
    if all.len() > 0 {
        let less = all.drop_last();
        lemma_filtered_range(less, keep);
        let some = less.filter(keep);
        let kept = all.filter(keep);
        assert forall|k: int| 0 <= k < kept.len() implies all.contains(#[trigger] kept[k]) && keep(
            kept[k],
        ) && kept[k].index < all.len() by {
            if k < some.len() {
                assert(kept[k] == some[k]);
                assert(less.contains(some[k]));
                let i = choose|i: int| 0 <= i < less.len() && less[i] == some[k];
                assert(all[i] == some[k]);
            } else {
                assert(kept[k] == all[all.len() - 1]);
            }
        }
        assert forall|j: int, k: int| 0 <= j < k < kept.len() implies (#[trigger] kept[j]).index < (
        #[trigger] kept[k]).index by {
            assert(kept[j] == some[j]);
            if k < some.len() {
                assert(kept[k] == some[k]);
            } else {
                assert(kept[k] == all[all.len() - 1]);
            }
        }
    }
}

} // verus!
